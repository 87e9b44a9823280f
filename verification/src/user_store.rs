//! The shared state of the service: the account directory, the set of
//! logged-in accounts, and one sharing record per owner.

use vstd::prelude::*;

verus! {

/// The role a sheet owner can grant to another account.
pub enum ShareRole {
    Collaborator,
    Viewer,
}

/// The structured error kinds of the service. Callers map these to
/// user-visible messages; the service itself never formats text.
#[derive(PartialEq, Eq, Structural, Clone, Copy, Debug)]
pub enum StoreError {
    /// Registration: the username is already taken.
    AlreadyExists,
    /// The named account is not in the directory.
    NotFound,
    /// The password does not match the stored digest.
    BadCredential,
    /// The credential primitive itself failed to hash or to check a password.
    CredentialPrimitiveFailure,
    /// Login: the account is already logged in.
    AlreadyLoggedIn,
    /// Logout: the account is not logged in.
    NotLoggedIn,
    /// Sharing: an owner may not grant a role to itself.
    SelfShare,
    /// Revocation: the owner has never shared anything.
    NoSharingRecord,
    /// Revocation: the target holds no role that could be revoked.
    NoAccessToRevoke,
}

/// How a listed sheet is reachable by the asking user: it is their own, or it
/// was granted to them under one of the two roles.
#[derive(PartialEq, Eq, Clone, Copy, Debug)]
pub enum SheetAccess {
    Own,
    Collaborator,
    Viewer,
}

/// One entry of a sheet listing: whose sheet it is, and how the asking user
/// reaches it.
#[derive(Debug)]
pub struct SheetEntry {
    pub owner: String,
    pub access: SheetAccess,
}

/// A registered account: a unique username and the digest of its password.
pub struct Account {
    pub name: String,
    pub digest: String,
}

/// One owner's sharing record: at most one collaborator, any number of
/// viewers. A record is created on the owner's first grant and never removed.
pub struct SharingRecord {
    pub owner: String,
    pub collaborator: Option<String>,
    pub viewers: Vec<String>,
}

/// The whole in-memory state, constructed explicitly and passed by reference
/// to every operation, so each caller (and each test) owns its lifecycle.
pub struct UserStore {
    pub users: Vec<Account>,
    pub logged_in_users: Vec<String>,
    pub shared_sheets: Vec<SharingRecord>,
    /// Whether registration logs the new account in at once.
    pub register_auto_login: bool,
}

/// The name is among the contents of the string sequence.
pub open spec fn seq_has_string(s: Seq<String>, x: Seq<char>) -> bool {
    exists|k: int| 0 <= k < s.len() && s[k]@ == x
}

/// No two strings of the sequence have the same contents.
pub open spec fn strings_unique(s: Seq<String>) -> bool {
    forall|a: int, b: int| 0 <= a < b < s.len() ==> s[a]@ != s[b]@
}

/// Some account of the sequence carries the username.
pub open spec fn has_account(s: Seq<Account>, name: Seq<char>) -> bool {
    exists|i: int| 0 <= i < s.len() && s[i].name@ == name
}

/// The position of the account carrying the username.
pub open spec fn account_position(s: Seq<Account>, name: Seq<char>) -> int {
    choose|i: int| 0 <= i < s.len() && s[i].name@ == name
}

/// Some record of the sequence belongs to the owner.
pub open spec fn has_owner_record(s: Seq<SharingRecord>, owner: Seq<char>) -> bool {
    exists|i: int| 0 <= i < s.len() && s[i].owner@ == owner
}

/// The position of the owner's record.
pub open spec fn owner_record_position(s: Seq<SharingRecord>, owner: Seq<char>) -> int {
    choose|i: int| 0 <= i < s.len() && s[i].owner@ == owner
}

impl SharingRecord {
    /// The target holds the collaborator role of this record.
    pub open spec fn names_collaborator(self, target: Seq<char>) -> bool {
        self.collaborator matches Some(c) && c@ == target
    }

    /// The target is one of this record's viewers.
    pub open spec fn names_viewer(self, target: Seq<char>) -> bool {
        seq_has_string(self.viewers@, target)
    }

    /// Well-formedness of one record: the owner grants itself nothing, the
    /// viewer list holds no duplicates, and no name is both collaborator and
    /// viewer at once.
    pub open spec fn wf(self) -> bool {
        &&& !self.names_collaborator(self.owner@)
        &&& !self.names_viewer(self.owner@)
        &&& strings_unique(self.viewers@)
        &&& (self.collaborator matches Some(c) ==> !self.names_viewer(c@))
    }
}

impl UserStore {
    /// The username is registered.
    pub open spec fn has_user(self, name: Seq<char>) -> bool {
        has_account(self.users@, name)
    }

    /// The index of a registered username in the directory.
    pub open spec fn user_index(self, name: Seq<char>) -> int {
        account_position(self.users@, name)
    }

    /// The digest stored for a registered username.
    pub open spec fn digest_of(self, name: Seq<char>) -> Seq<char> {
        self.users[self.user_index(name)].digest@
    }

    /// The username is currently logged in.
    pub open spec fn is_logged_in(self, name: Seq<char>) -> bool {
        seq_has_string(self.logged_in_users@, name)
    }

    /// The owner has a sharing record.
    pub open spec fn has_record(self, owner: Seq<char>) -> bool {
        has_owner_record(self.shared_sheets@, owner)
    }

    /// The index of an owner's sharing record.
    pub open spec fn record_index(self, owner: Seq<char>) -> int {
        owner_record_position(self.shared_sheets@, owner)
    }

    /// An owner's sharing record.
    pub open spec fn record_at(self, owner: Seq<char>) -> SharingRecord {
        self.shared_sheets[self.record_index(owner)]
    }

    /// The collaborator named by the owner's sharing record, if any.
    pub open spec fn collaborator_of(self, owner: Seq<char>) -> Option<Seq<char>> {
        if self.has_record(owner) {
            match self.record_at(owner).collaborator {
                Some(c) => Some(c@),
                None => None,
            }
        } else {
            None
        }
    }

    /// The target is a viewer of the owner's sheet.
    pub open spec fn is_viewer(self, owner: Seq<char>, target: Seq<char>) -> bool {
        self.has_record(owner) && self.record_at(owner).names_viewer(target)
    }

    /// No two directory entries carry the same username.
    pub open spec fn users_unique(self) -> bool {
        forall|i: int, j: int|
            0 <= i < j < self.users.len() ==> self.users[i].name@ != self.users[j].name@
    }

    /// No two sharing records belong to the same owner.
    pub open spec fn records_unique(self) -> bool {
        forall|i: int, j: int|
            0 <= i < j < self.shared_sheets.len()
                ==> self.shared_sheets[i].owner@ != self.shared_sheets[j].owner@
    }

    /// Well-formedness of the whole state.
    pub open spec fn wf(self) -> bool {
        &&& self.users_unique()
        &&& strings_unique(self.logged_in_users@)
        &&& (forall|i: int|
            0 <= i < self.logged_in_users.len() ==> self.has_user(self.logged_in_users[i]@))
        &&& self.records_unique()
        &&& (forall|i: int| 0 <= i < self.shared_sheets.len() ==> self.shared_sheets[i].wf())
    }

    /// A fresh, empty state. `register_auto_login` fixes, for the store's
    /// whole lifetime, whether registration logs the new account in at once.
    pub fn new(register_auto_login: bool) -> (s: UserStore)
        ensures
            s.wf(),
            s.users.len() == 0,
            s.logged_in_users.len() == 0,
            s.shared_sheets.len() == 0,
            s.register_auto_login == register_auto_login,
    {
        UserStore {
            users: Vec::new(),
            logged_in_users: Vec::new(),
            shared_sheets: Vec::new(),
            register_auto_login,
        }
    }
}

/// The two stores make the same observations of the one owner's record.
pub open spec fn record_agrees(pre: UserStore, post: UserStore, owner: Seq<char>) -> bool {
    &&& (post.has_record(owner) <==> pre.has_record(owner))
    &&& post.collaborator_of(owner) == pre.collaborator_of(owner)
    &&& (forall|t: Seq<char>| post.is_viewer(owner, t) <==> pre.is_viewer(owner, t))
}

/// Every owner's record but the named one reads the same in both stores.
pub open spec fn other_records_agree(pre: UserStore, post: UserStore, owner: Seq<char>) -> bool {
    forall|o: Seq<char>| o != owner ==> record_agrees(pre, post, o)
}

/// The directory, the sessions and the configuration are untouched.
pub open spec fn same_but_records(pre: UserStore, post: UserStore) -> bool {
    &&& post.users@ == pre.users@
    &&& post.logged_in_users@ == pre.logged_in_users@
    &&& post.register_auto_login == pre.register_auto_login
}

/// Why a role grant is refused, checked in this order: both accounts must be
/// registered, the owner must be logged in, and an owner may not grant a role
/// to itself.
pub open spec fn share_refusal(s: UserStore, owner: Seq<char>, target: Seq<char>) -> Option<
    StoreError,
> {
    if !s.has_user(owner) || !s.has_user(target) {
        Some(StoreError::NotFound)
    } else if !s.is_logged_in(owner) {
        Some(StoreError::NotLoggedIn)
    } else if owner == target {
        Some(StoreError::SelfShare)
    } else {
        None
    }
}

/// Why a revocation is refused: the owner must be registered and must have
/// shared before, and the target must hold some role to lose.
pub open spec fn revoke_refusal(s: UserStore, owner: Seq<char>, target: Seq<char>) -> Option<
    StoreError,
> {
    if !s.has_user(owner) {
        Some(StoreError::NotFound)
    } else if !s.has_record(owner) {
        Some(StoreError::NoSharingRecord)
    } else if !(s.collaborator_of(owner) == Some(target) || s.is_viewer(owner, target)) {
        Some(StoreError::NoAccessToRevoke)
    } else {
        None
    }
}

/// Why a logout is refused: the account must be registered and logged in.
pub open spec fn logout_refusal(s: UserStore, name: Seq<char>) -> Option<StoreError> {
    if !s.has_user(name) {
        Some(StoreError::NotFound)
    } else if !s.is_logged_in(name) {
        Some(StoreError::NotLoggedIn)
    } else {
        None
    }
}

/// The effect of a granted collaborator assignment: the target holds the
/// collaborator slot; a differing previous collaborator is demoted to viewer;
/// the target leaves the viewer set; nothing else moves.
pub open spec fn collaborator_granted(
    pre: UserStore,
    post: UserStore,
    owner: Seq<char>,
    target: Seq<char>,
) -> bool {
    &&& pre.has_user(owner)
    &&& pre.has_user(target)
    &&& pre.is_logged_in(owner)
    &&& owner != target
    &&& same_but_records(pre, post)
    &&& other_records_agree(pre, post, owner)
    &&& post.has_record(owner)
    &&& post.collaborator_of(owner) == Some(target)
    &&& (forall|t: Seq<char>|
        post.is_viewer(owner, t) <==> (t != target && (pre.is_viewer(owner, t)
            || pre.collaborator_of(owner) == Some(t))))
}

/// The effect of a granted viewer assignment: the target joins the viewer
/// set; if it held the collaborator slot, the slot is cleared; nothing else
/// moves.
pub open spec fn viewer_granted(
    pre: UserStore,
    post: UserStore,
    owner: Seq<char>,
    target: Seq<char>,
) -> bool {
    &&& pre.has_user(owner)
    &&& pre.has_user(target)
    &&& pre.is_logged_in(owner)
    &&& owner != target
    &&& same_but_records(pre, post)
    &&& other_records_agree(pre, post, owner)
    &&& post.has_record(owner)
    &&& post.collaborator_of(owner) == (if pre.collaborator_of(owner) == Some(target) {
        None::<Seq<char>>
    } else {
        pre.collaborator_of(owner)
    })
    &&& (forall|t: Seq<char>| post.is_viewer(owner, t) <==> (pre.is_viewer(owner, t) || t == target))
}

/// The effect of a granted revocation: whatever role the target held of this
/// owner is gone; the record itself stays; nothing else moves.
pub open spec fn revoke_granted(
    pre: UserStore,
    post: UserStore,
    owner: Seq<char>,
    target: Seq<char>,
) -> bool {
    &&& pre.has_user(owner)
    &&& pre.has_record(owner)
    &&& (pre.collaborator_of(owner) == Some(target) || pre.is_viewer(owner, target))
    &&& same_but_records(pre, post)
    &&& other_records_agree(pre, post, owner)
    &&& post.has_record(owner)
    &&& post.collaborator_of(owner) == (if pre.collaborator_of(owner) == Some(target) {
        None::<Seq<char>>
    } else {
        pre.collaborator_of(owner)
    })
    &&& (forall|t: Seq<char>| post.is_viewer(owner, t) <==> (pre.is_viewer(owner, t) && t != target))
}

/// The effect of a granted logout: the one session is gone; nothing else
/// moves.
pub open spec fn logout_granted(pre: UserStore, post: UserStore, name: Seq<char>) -> bool {
    &&& pre.has_user(name)
    &&& pre.is_logged_in(name)
    &&& post.users@ == pre.users@
    &&& post.shared_sheets@ == pre.shared_sheets@
    &&& post.register_auto_login == pre.register_auto_login
    &&& (forall|x: Seq<char>| post.is_logged_in(x) <==> (pre.is_logged_in(x) && x != name))
}

/// The effect of a granted login: the one session is added; nothing else
/// moves.
pub open spec fn login_granted(pre: UserStore, post: UserStore, name: Seq<char>) -> bool {
    &&& pre.has_user(name)
    &&& !pre.is_logged_in(name)
    &&& post.users@ == pre.users@
    &&& post.shared_sheets@ == pre.shared_sheets@
    &&& post.register_auto_login == pre.register_auto_login
    &&& (forall|x: Seq<char>| post.is_logged_in(x) <==> (pre.is_logged_in(x) || x == name))
}

/// The effect of a granted registration: the one new account stands in the
/// directory under the given digest, logged in just when the store logs new
/// accounts in at once; nothing else moves.
pub open spec fn registered_with_digest(
    pre: UserStore,
    post: UserStore,
    name: Seq<char>,
    digest: Seq<char>,
) -> bool {
    &&& !pre.has_user(name)
    &&& post.has_user(name)
    &&& post.digest_of(name) == digest
    &&& (forall|n: Seq<char>| n != name ==> (post.has_user(n) <==> pre.has_user(n)))
    &&& (forall|n: Seq<char>|
        n != name && pre.has_user(n) ==> post.digest_of(n) == pre.digest_of(n))
    &&& (forall|x: Seq<char>|
        post.is_logged_in(x) <==> (pre.is_logged_in(x) || (pre.register_auto_login && x == name)))
    &&& post.shared_sheets@ == pre.shared_sheets@
    &&& post.register_auto_login == pre.register_auto_login
}

/// The listing entry stands for a role that the store really grants the user
/// on the entry's owner's sheet.
pub open spec fn entry_grants(s: UserStore, user: Seq<char>, e: SheetEntry) -> bool {
    match e.access {
        SheetAccess::Own => false,
        SheetAccess::Collaborator => s.collaborator_of(e.owner@) == Some(user),
        SheetAccess::Viewer => s.is_viewer(e.owner@, user),
    }
}

/// A correct sheet listing for a user: the user's own sheet first, then one
/// entry for every owner whose record grants the user a role, under that
/// role, each such owner once, and nothing else.
pub open spec fn sheets_listing(s: UserStore, user: Seq<char>, list: Seq<SheetEntry>) -> bool {
    &&& list.len() >= 1
    &&& list[0].owner@ == user
    &&& list[0].access == SheetAccess::Own
    &&& (forall|k: int| 1 <= k < list.len() ==> entry_grants(s, user, #[trigger] list[k]))
    &&& (forall|o: Seq<char>|
        s.collaborator_of(o) == Some(user) ==> exists|k: int|
            1 <= k < list.len() && list[k].owner@ == o && list[k].access
                == SheetAccess::Collaborator)
    &&& (forall|o: Seq<char>|
        s.is_viewer(o, user) ==> exists|k: int|
            1 <= k < list.len() && list[k].owner@ == o && list[k].access == SheetAccess::Viewer)
    &&& (forall|k1: int, k2: int|
        1 <= k1 < k2 < list.len() ==> list[k1].owner@ != list[k2].owner@)
}

/// Removing one position from a duplicate-free string sequence removes
/// exactly that string's contents from membership.
proof fn lemma_string_seq_remove(s: Seq<String>, i: int)
    requires
        strings_unique(s),
        0 <= i < s.len(),
    ensures
        strings_unique(s.remove(i)),
        forall|x: Seq<char>|
            seq_has_string(s.remove(i), x) <==> (seq_has_string(s, x) && x != s[i]@),
{
    let r = s.remove(i);
    s.remove_ensures(i);
    assert forall|a: int, b: int| 0 <= a < b < r.len() implies r[a]@ != r[b]@ by {
        let a2: int = if a < i {
            a
        } else {
            a + 1
        };
        let b2: int = if b < i {
            b
        } else {
            b + 1
        };
        assert(r[a]@ == s[a2]@);
        assert(r[b]@ == s[b2]@);
        assert(s[a2]@ != s[b2]@);
    }
    assert forall|x: Seq<char>|
        seq_has_string(r, x) <==> (seq_has_string(s, x) && x != s[i]@) by {
        if seq_has_string(r, x) {
            let k = choose|k: int| 0 <= k < r.len() && r[k]@ == x;
            let k2: int = if k < i {
                k
            } else {
                k + 1
            };
            assert(s[k2]@ == x);
            assert(k2 != i);
            if k2 < i {
                assert(s[k2]@ != s[i]@);
            } else {
                assert(s[i]@ != s[k2]@);
            }
        }
        if seq_has_string(s, x) && x != s[i]@ {
            let k = choose|k: int| 0 <= k < s.len() && s[k]@ == x;
            assert(k != i);
            if k < i {
                assert(r[k]@ == x);
            } else {
                assert(r[k - 1]@ == x);
            }
            assert(seq_has_string(r, x));
        }
    }
}

/// Appending a string absent from a duplicate-free string sequence adds
/// exactly its contents to membership.
proof fn lemma_string_seq_push(s: Seq<String>, v: String)
    requires
        strings_unique(s),
        !seq_has_string(s, v@),
    ensures
        strings_unique(s.push(v)),
        forall|x: Seq<char>| seq_has_string(s.push(v), x) <==> (seq_has_string(s, x) || x == v@),
{
    let r = s.push(v);
    assert forall|a: int, b: int| 0 <= a < b < r.len() implies r[a]@ != r[b]@ by {
        if b < s.len() {
            assert(s[a]@ != s[b]@);
        } else {
            assert(r[b] == v);
            assert(r[a]@ == s[a]@);
            assert(s[a]@ != v@);
        }
    }
    assert forall|x: Seq<char>|
        seq_has_string(r, x) <==> (seq_has_string(s, x) || x == v@) by {
        if seq_has_string(r, x) {
            let k = choose|k: int| 0 <= k < r.len() && r[k]@ == x;
            if k < s.len() {
                assert(s[k]@ == x);
            } else {
                assert(r[k] == v);
            }
        }
        if seq_has_string(s, x) {
            let k = choose|k: int| 0 <= k < s.len() && s[k]@ == x;
            assert(r[k]@ == x);
        }
        if x == v@ {
            assert(r[s.len() as int]@ == x);
        }
    }
}

/// In a well-formed store, the directory entry at any index is the one that
/// lookup by its name finds.
pub proof fn lemma_user_lookup(s: UserStore, i: int)
    requires
        s.users_unique(),
        0 <= i < s.users.len(),
    ensures
        s.has_user(s.users[i].name@),
        s.user_index(s.users[i].name@) == i,
        s.digest_of(s.users[i].name@) == s.users[i].digest@,
{
    let name = s.users[i].name@;
    assert(s.has_user(name)) by {
        assert(0 <= i < s.users.len() && s.users[i].name@ == name);
    }
    let j = s.user_index(name);
    if i < j {
        assert(s.users[i].name@ != s.users[j].name@);
    }
    if j < i {
        assert(s.users[j].name@ != s.users[i].name@);
    }
}

/// In a well-formed store, the sharing record at any index is the one that
/// lookup by its owner finds.
pub proof fn lemma_record_lookup(s: UserStore, i: int)
    requires
        s.records_unique(),
        0 <= i < s.shared_sheets.len(),
    ensures
        s.has_record(s.shared_sheets[i].owner@),
        s.record_index(s.shared_sheets[i].owner@) == i,
        s.record_at(s.shared_sheets[i].owner@) == s.shared_sheets[i],
{
    let owner = s.shared_sheets[i].owner@;
    assert(s.has_record(owner)) by {
        assert(0 <= i < s.shared_sheets.len() && s.shared_sheets[i].owner@ == owner);
    }
    let j = s.record_index(owner);
    if i < j {
        assert(s.shared_sheets[i].owner@ != s.shared_sheets[j].owner@);
    }
    if j < i {
        assert(s.shared_sheets[j].owner@ != s.shared_sheets[i].owner@);
    }
}

/// Replacing the record at one position by a record of the same owner, while
/// directory and sessions stand still, keeps the store well formed, makes
/// lookup of that owner find the new record, and leaves every other owner's
/// observations unchanged.
proof fn lemma_record_update(pre: UserStore, post: UserStore, j: int, rec: SharingRecord)
    requires
        pre.wf(),
        rec.wf(),
        0 <= j < pre.shared_sheets.len(),
        rec.owner@ == pre.shared_sheets[j].owner@,
        post.users == pre.users,
        post.logged_in_users == pre.logged_in_users,
        post.register_auto_login == pre.register_auto_login,
        post.shared_sheets@ == pre.shared_sheets@.update(j, rec),
    ensures
        post.wf(),
        post.has_record(rec.owner@),
        post.record_at(rec.owner@) == rec,
        other_records_agree(pre, post, rec.owner@),
        same_but_records(pre, post),
{
    let owner = rec.owner@;
    assert(post.shared_sheets[j] == rec);
    assert(forall|k: int|
        0 <= k < post.shared_sheets.len() && k != j ==> post.shared_sheets[k]
            == pre.shared_sheets[k]);
    assert(post.records_unique()) by {
        assert forall|a: int, b: int|
            0 <= a < b < post.shared_sheets.len() implies post.shared_sheets[a].owner@
            != post.shared_sheets[b].owner@ by {
            assert(post.shared_sheets[a].owner@ == pre.shared_sheets[a].owner@);
            assert(post.shared_sheets[b].owner@ == pre.shared_sheets[b].owner@);
        }
    }
    lemma_record_lookup(post, j);
    assert forall|o: Seq<char>| o != owner implies record_agrees(pre, post, o) by {
        if pre.has_record(o) {
            let k = pre.record_index(o);
            assert(0 <= k < pre.shared_sheets.len() && pre.shared_sheets[k].owner@ == o);
            assert(k != j);
            assert(post.shared_sheets[k] == pre.shared_sheets[k]);
            lemma_record_lookup(pre, k);
            lemma_record_lookup(post, k);
            assert(post.record_at(o) == pre.record_at(o));
        } else {
            assert(!post.has_record(o)) by {
                if post.has_record(o) {
                    let k = choose|k: int|
                        0 <= k < post.shared_sheets.len() && post.shared_sheets[k].owner@ == o;
                    assert(k != j);
                    assert(pre.shared_sheets[k].owner@ == o);
                }
            }
        }
    }
    assert forall|k: int| 0 <= k < post.shared_sheets.len() implies post.shared_sheets[k].wf() by {
        if k != j {
            assert(post.shared_sheets[k] == pre.shared_sheets[k]);
        }
    }
}

/// Appending a record for an owner without one, while directory and sessions
/// stand still, keeps the store well formed, makes lookup of that owner find
/// the new record, and leaves every other owner's observations unchanged.
proof fn lemma_record_push(pre: UserStore, post: UserStore, rec: SharingRecord)
    requires
        pre.wf(),
        rec.wf(),
        !pre.has_record(rec.owner@),
        post.users == pre.users,
        post.logged_in_users == pre.logged_in_users,
        post.register_auto_login == pre.register_auto_login,
        post.shared_sheets@ == pre.shared_sheets@.push(rec),
    ensures
        post.wf(),
        post.has_record(rec.owner@),
        post.record_at(rec.owner@) == rec,
        other_records_agree(pre, post, rec.owner@),
        same_but_records(pre, post),
{
    let owner = rec.owner@;
    let n = pre.shared_sheets.len() as int;
    assert(post.shared_sheets[n] == rec);
    assert(forall|k: int| 0 <= k < n ==> post.shared_sheets[k] == pre.shared_sheets[k]);
    assert(post.records_unique()) by {
        assert forall|a: int, b: int|
            0 <= a < b < post.shared_sheets.len() implies post.shared_sheets[a].owner@
            != post.shared_sheets[b].owner@ by {
            if b < n {
                assert(pre.shared_sheets[a].owner@ != pre.shared_sheets[b].owner@);
            } else {
                assert(post.shared_sheets[b].owner@ == owner);
                if pre.shared_sheets[a].owner@ == owner {
                    assert(pre.has_record(owner));
                }
            }
        }
    }
    lemma_record_lookup(post, n);
    assert forall|o: Seq<char>| o != owner implies record_agrees(pre, post, o) by {
        if pre.has_record(o) {
            let k = pre.record_index(o);
            assert(0 <= k < pre.shared_sheets.len() && pre.shared_sheets[k].owner@ == o);
            assert(post.shared_sheets[k] == pre.shared_sheets[k]);
            lemma_record_lookup(pre, k);
            lemma_record_lookup(post, k);
            assert(post.record_at(o) == pre.record_at(o));
        } else {
            assert(!post.has_record(o)) by {
                if post.has_record(o) {
                    let k = choose|k: int|
                        0 <= k < post.shared_sheets.len() && post.shared_sheets[k].owner@ == o;
                    assert(k != n);
                    assert(pre.shared_sheets[k].owner@ == o);
                }
            }
        }
    }
    assert forall|k: int| 0 <= k < post.shared_sheets.len() implies post.shared_sheets[k].wf() by {
        if k < n {
            assert(post.shared_sheets[k] == pre.shared_sheets[k]);
        }
    }
}

/// The position of a string in a vector, compared by contents.
fn find_string(v: &Vec<String>, x: &String) -> (r: Option<usize>)
    ensures
        match r {
            Some(i) => i < v.len() && v[i as int]@ == x@,
            None => forall|k: int| 0 <= k < v.len() ==> v[k]@ != x@,
        },
{
    let n = v.len();
    let mut i: usize = 0;
    while i < n
        invariant
            n == v.len(),
            i <= n,
            forall|k: int| 0 <= k < i ==> v[k]@ != x@,
        decreases n - i,
    {
        if v[i] == *x {
            return Some(i);
        }
        i += 1;
    }
    None
}

/// The position of a username in the account directory.
fn user_position(store: &UserStore, name: &String) -> (r: Option<usize>)
    requires
        store.wf(),
    ensures
        match r {
            Some(i) => i < store.users.len() && store.users[i as int].name@ == name@
                && store.has_user(name@) && store.user_index(name@) == i,
            None => !store.has_user(name@),
        },
{
    let n = store.users.len();
    let mut i: usize = 0;
    while i < n
        invariant
            store.wf(),
            n == store.users.len(),
            i <= n,
            forall|k: int| 0 <= k < i ==> store.users[k].name@ != name@,
        decreases n - i,
    {
        if store.users[i].name == *name {
            proof {
                lemma_user_lookup(*store, i as int);
            }
            return Some(i);
        }
        i += 1;
    }
    None
}

/// The position of an owner's sharing record.
fn record_position(store: &UserStore, owner: &String) -> (r: Option<usize>)
    requires
        store.wf(),
    ensures
        match r {
            Some(i) => i < store.shared_sheets.len()
                && store.shared_sheets[i as int].owner@ == owner@
                && store.has_record(owner@) && store.record_index(owner@) == i,
            None => !store.has_record(owner@),
        },
{
    let n = store.shared_sheets.len();
    let mut i: usize = 0;
    while i < n
        invariant
            store.wf(),
            n == store.shared_sheets.len(),
            i <= n,
            forall|k: int| 0 <= k < i ==> store.shared_sheets[k].owner@ != owner@,
        decreases n - i,
    {
        if store.shared_sheets[i].owner == *owner {
            proof {
                lemma_record_lookup(*store, i as int);
            }
            return Some(i);
        }
        i += 1;
    }
    None
}

/// Whether the username is registered.
fn contains_user(store: &UserStore, name: &String) -> (r: bool)
    requires
        store.wf(),
    ensures
        r == store.has_user(name@),
{
    user_position(store, name).is_some()
}

/// Whether the username is currently logged in.
fn contains_session(store: &UserStore, name: &String) -> (r: bool)
    ensures
        r == store.is_logged_in(name@),
{
    find_string(&store.logged_in_users, name).is_some()
}

/// Register an account under an already-computed digest. Fails exactly when
/// the username is taken; on success the account stands in the directory with
/// that digest and, if the store logs new accounts in at once, a session.
pub fn register_with_digest(store: &mut UserStore, username: &str, digest: String) -> (r: Result<
    (),
    StoreError,
>)
    requires
        old(store).wf(),
    ensures
        final(store).wf(),
        match r {
            Ok(()) => registered_with_digest(*old(store), *final(store), username@, digest@),
            Err(StoreError::AlreadyExists) => old(store).has_user(username@) && *final(store)
                == *old(store),
            Err(_) => false,
        },
        r is Ok <==> !old(store).has_user(username@),
{
    let uname = String::from_str(username);
    if contains_user(store, &uname) {
        return Err(StoreError::AlreadyExists);
    }
    let ghost pre = *store;
    let account = Account { name: uname.clone(), digest };
    store.users.push(account);
    proof {
        assert forall|n: Seq<char>|
            n != username@ implies (store.has_user(n) <==> pre.has_user(n)) by {
            if pre.has_user(n) {
                let w = choose|w: int| 0 <= w < pre.users.len() && pre.users[w].name@ == n;
                assert(store.users[w].name@ == n);
            }
            if store.has_user(n) {
                let w = choose|w: int| 0 <= w < store.users.len() && store.users[w].name@ == n;
                assert(w < pre.users.len());
                assert(pre.users[w].name@ == n);
            }
        }
        assert(store.users_unique()) by {
            assert forall|i: int, j: int|
                0 <= i < j < store.users.len() implies store.users[i].name@
                != store.users[j].name@ by {
                if j < pre.users.len() {
                    assert(pre.users[i].name@ != pre.users[j].name@);
                } else {
                    assert(store.users[j].name@ == username@);
                    assert(pre.users[i].name@ != username@) by {
                        if pre.users[i].name@ == username@ {
                            assert(pre.has_user(username@));
                        }
                    }
                }
            }
        }
        lemma_user_lookup(*store, pre.users.len() as int);
        assert(store.digest_of(username@) == store.users[pre.users.len() as int].digest@);
    }
    if store.register_auto_login {
        proof {
            assert(!pre.is_logged_in(username@)) by {
                if pre.is_logged_in(username@) {
                    let k = choose|k: int|
                        0 <= k < pre.logged_in_users.len() && pre.logged_in_users[k]@ == username@;
                    assert(pre.has_user(pre.logged_in_users[k]@));
                }
            }
            lemma_string_seq_push(store.logged_in_users@, uname);
        }
        store.logged_in_users.push(uname);
    }
    proof {
        assert forall|k: int|
            0 <= k < store.logged_in_users.len() implies store.has_user(
            store.logged_in_users[k]@,
        ) by {
            let x = store.logged_in_users[k]@;
            if k < pre.logged_in_users.len() {
                assert(x == pre.logged_in_users[k]@);
                assert(pre.has_user(x));
                let w = choose|w: int| 0 <= w < pre.users.len() && pre.users[w].name@ == x;
                assert(store.users[w].name@ == x);
            } else {
                assert(x == username@);
                assert(store.users[pre.users.len() as int].name@ == x);
            }
        }
        assert(store.shared_sheets == pre.shared_sheets);
    }
    Ok(())
}

/// Register a new account: fails when the username is taken, otherwise stores
/// the credential digest of the password and, if the store logs new accounts
/// in at once, starts their session. Can also fail when the credential
/// primitive itself does, in which case nothing has changed.
pub fn add_user(store: &mut UserStore, username: &str, password: &str) -> (r: Result<
    (),
    StoreError,
>)
    requires
        old(store).wf(),
    ensures
        final(store).wf(),
        match r {
            Ok(()) => registered_with_digest(
                *old(store),
                *final(store),
                username@,
                final(store).digest_of(username@),
            ) && crate::creds::digest_matches(password@, final(store).digest_of(username@)),
            Err(StoreError::AlreadyExists) => old(store).has_user(username@) && *final(store)
                == *old(store),
            Err(StoreError::CredentialPrimitiveFailure) => !old(store).has_user(username@)
                && *final(store) == *old(store),
            Err(_) => false,
        },
        old(store).has_user(username@) <==> r == Err::<(), StoreError>(StoreError::AlreadyExists),
{
    let uname = String::from_str(username);
    if contains_user(store, &uname) {
        return Err(StoreError::AlreadyExists);
    }
    match crate::creds::hash_password(password) {
        None => Err(StoreError::CredentialPrimitiveFailure),
        Some(digest) => register_with_digest(store, username, digest),
    }
}

/// Act on the outcome of a credential check for a registered, logged-out
/// account: a passed check starts the session, a failed one is refused as a
/// bad credential, and a check that could not be made at all changes nothing.
pub fn apply_credential_check(store: &mut UserStore, username: &str, check: Option<bool>) -> (r:
    Result<(), StoreError>)
    requires
        old(store).wf(),
        old(store).has_user(username@),
        !old(store).is_logged_in(username@),
    ensures
        final(store).wf(),
        match check {
            Some(true) => r == Ok::<(), StoreError>(()) && login_granted(
                *old(store),
                *final(store),
                username@,
            ),
            Some(false) => r == Err::<(), StoreError>(StoreError::BadCredential) && *final(store)
                == *old(store),
            None => r == Err::<(), StoreError>(StoreError::CredentialPrimitiveFailure)
                && *final(store) == *old(store),
        },
{
    match check {
        None => Err(StoreError::CredentialPrimitiveFailure),
        Some(false) => Err(StoreError::BadCredential),
        Some(true) => {
            let ghost pre = *store;
            let uname = String::from_str(username);
            proof {
                lemma_string_seq_push(store.logged_in_users@, uname);
            }
            store.logged_in_users.push(uname);
            proof {
                assert forall|k: int|
                    0 <= k < store.logged_in_users.len() implies store.has_user(
                    store.logged_in_users[k]@,
                ) by {
                    assert(store.users == pre.users);
                    let x = store.logged_in_users[k]@;
                    if k < pre.logged_in_users.len() {
                        assert(x == pre.logged_in_users[k]@);
                        assert(pre.has_user(x));
                    } else {
                        assert(x == username@);
                        assert(pre.has_user(username@));
                    }
                    let w = choose|w: int| 0 <= w < pre.users.len() && pre.users[w].name@ == x;
                    assert(store.users[w].name@ == x);
                }
            }
            Ok(())
        },
    }
}

/// Authenticate an account and start its session. Fails when the account is
/// unknown, already logged in, or the password does not match its digest; on
/// success exactly its one session is added.
pub fn validate_user(store: &mut UserStore, username: &str, password: &str) -> (r: Result<
    (),
    StoreError,
>)
    requires
        old(store).wf(),
    ensures
        final(store).wf(),
        match r {
            Ok(()) => crate::creds::digest_matches(password@, old(store).digest_of(username@))
                && login_granted(*old(store), *final(store), username@),
            Err(StoreError::NotFound) => !old(store).has_user(username@) && *final(store) == *old(
                store,
            ),
            Err(StoreError::AlreadyLoggedIn) => old(store).has_user(username@) && old(
                store,
            ).is_logged_in(username@) && *final(store) == *old(store),
            Err(StoreError::BadCredential) => old(store).has_user(username@) && !old(
                store,
            ).is_logged_in(username@) && !crate::creds::digest_matches(
                password@,
                old(store).digest_of(username@),
            ) && *final(store) == *old(store),
            Err(StoreError::CredentialPrimitiveFailure) => old(store).has_user(username@) && !old(
                store,
            ).is_logged_in(username@) && !crate::creds::digest_matches(
                password@,
                old(store).digest_of(username@),
            ) && *final(store) == *old(store),
            Err(_) => false,
        },
        !old(store).has_user(username@) <==> r == Err::<(), StoreError>(StoreError::NotFound),
        (old(store).has_user(username@) && old(store).is_logged_in(username@)) <==> r == Err::<
            (),
            StoreError,
        >(StoreError::AlreadyLoggedIn),
        (old(store).has_user(username@) && !old(store).is_logged_in(username@)
            && crate::creds::digest_matches(password@, old(store).digest_of(username@))) ==> r
            is Ok,
{
    let uname = String::from_str(username);
    let digest = match user_position(store, &uname) {
        None => {
            return Err(StoreError::NotFound);
        },
        Some(i) => store.users[i].digest.clone(),
    };
    if contains_session(store, &uname) {
        return Err(StoreError::AlreadyLoggedIn);
    }
    let check = crate::creds::check_password(password, &digest);
    apply_credential_check(store, username, check)
}

/// End the account's session. Fails when the account is unknown or when it is
/// not logged in; on success exactly its one session is gone.
pub fn logout_user(store: &mut UserStore, username: &str) -> (r: Result<(), StoreError>)
    requires
        old(store).wf(),
    ensures
        final(store).wf(),
        match r {
            Ok(()) => logout_refusal(*old(store), username@) is None && logout_granted(
                *old(store),
                *final(store),
                username@,
            ),
            Err(e) => logout_refusal(*old(store), username@) == Some(e) && *final(store) == *old(
                store,
            ),
        },
{
    let uname = String::from_str(username);
    if !contains_user(store, &uname) {
        return Err(StoreError::NotFound);
    }
    match find_string(&store.logged_in_users, &uname) {
        None => Err(StoreError::NotLoggedIn),
        Some(i) => {
            let ghost pre = *store;
            proof {
                lemma_string_seq_remove(store.logged_in_users@, i as int);
                store.logged_in_users@.remove_ensures(i as int);
            }
            store.logged_in_users.remove(i);
            proof {
                assert forall|k: int|
                    0 <= k < store.logged_in_users.len() implies store.has_user(
                    store.logged_in_users[k]@,
                ) by {
                    let k2: int = if k < i {
                        k
                    } else {
                        k + 1
                    };
                    assert(store.logged_in_users@[k] == pre.logged_in_users@[k2]);
                    assert(pre.has_user(pre.logged_in_users@[k2]@));
                    assert(store.users == pre.users);
                    let x = pre.logged_in_users@[k2]@;
                    let w = choose|w: int| 0 <= w < pre.users.len() && pre.users[w].name@ == x;
                    assert(0 <= w < store.users.len() && store.users[w].name@ == x);
                }
            }
            Ok(())
        },
    }
}

/// Grant a role on the owner's sheet. Refused when either account is unknown,
/// when the owner is not logged in, or when owner and target are one account;
/// otherwise the owner's record moves exactly as the role's transition says
/// and nothing else changes.
#[verifier::rlimit(60)]
pub fn share_sheet(store: &mut UserStore, owner: &str, target: &str, role: ShareRole) -> (r:
    Result<(), StoreError>)
    requires
        old(store).wf(),
    ensures
        final(store).wf(),
        match r {
            Ok(()) => share_refusal(*old(store), owner@, target@) is None && (match role {
                ShareRole::Collaborator => collaborator_granted(
                    *old(store),
                    *final(store),
                    owner@,
                    target@,
                ),
                ShareRole::Viewer => viewer_granted(*old(store), *final(store), owner@, target@),
            }),
            Err(e) => share_refusal(*old(store), owner@, target@) == Some(e) && *final(store)
                == *old(store),
        },
{
    let owner_s = String::from_str(owner);
    let target_s = String::from_str(target);
    if !contains_user(store, &owner_s) {
        return Err(StoreError::NotFound);
    }
    if !contains_user(store, &target_s) {
        return Err(StoreError::NotFound);
    }
    if !contains_session(store, &owner_s) {
        return Err(StoreError::NotLoggedIn);
    }
    if owner_s == target_s {
        return Err(StoreError::SelfShare);
    }
    let ghost pre = *store;
    let pos = record_position(store, &owner_s);
    let mut rec: SharingRecord;
    let j: usize;
    match pos {
        Some(jj) => {
            j = jj;
            rec = store.shared_sheets.remove(jj);
        },
        None => {
            j = 0;
            rec = SharingRecord { owner: owner_s, collaborator: None, viewers: Vec::new() };
        },
    }
    let ghost rec0 = rec;
    proof {
        // what the starting record says is what the owner's observations said
        if pos is Some {
            assert(rec0 == pre.record_at(owner@));
            assert(rec0.wf());
            assert(forall|t: Seq<char>| pre.is_viewer(owner@, t) <==> rec0.names_viewer(t));
        } else {
            assert(rec0.viewers@.len() == 0);
            assert(forall|t: Seq<char>| !rec0.names_viewer(t));
            assert(forall|t: Seq<char>| !pre.is_viewer(owner@, t));
        }
        assert(rec0.owner@ == owner@);
        assert(pre.collaborator_of(owner@) == (match rec0.collaborator {
            Some(c) => Some(c@),
            None => None::<Seq<char>>,
        }));
    }
    match role {
        ShareRole::Collaborator => {
            // step one: a differing previous collaborator is demoted to viewer
            let prev = rec.collaborator;
            rec.collaborator = None;
            match prev {
                Some(c) => {
                    if c == target_s {
                        // the slot already held the target: nothing to demote
                    } else {
                        proof {
                            lemma_string_seq_push(rec.viewers@, c);
                        }
                        rec.viewers.push(c);
                    }
                },
                None => {},
            }
            let ghost v1 = rec.viewers@;
            proof {
                assert(strings_unique(v1));
                assert(forall|t: Seq<char>|
                    seq_has_string(v1, t) <==> (rec0.names_viewer(t) || (match rec0.collaborator {
                        Some(c) => c@ == t && c@ != target@,
                        None => false,
                    })));
            }
            // step two: the target leaves the viewer set
            match find_string(&rec.viewers, &target_s) {
                Some(k) => {
                    proof {
                        lemma_string_seq_remove(rec.viewers@, k as int);
                    }
                    rec.viewers.remove(k);
                },
                None => {},
            }
            // step three: the target takes the collaborator slot
            rec.collaborator = Some(target_s);
            proof {
                assert(forall|t: Seq<char>|
                    rec.names_viewer(t) <==> (seq_has_string(v1, t) && t != target@));
                assert(rec.wf());
            }
        },
        ShareRole::Viewer => {
            // a target holding the collaborator slot is demoted outright
            let clears = match &rec.collaborator {
                Some(c) => *c == target_s,
                None => false,
            };
            if clears {
                rec.collaborator = None;
            }
            // then the target joins the viewer set, once
            let ghost v0 = rec.viewers@;
            match find_string(&rec.viewers, &target_s) {
                Some(k) => {
                    proof {
                        assert(v0[k as int]@ == target@);
                        assert(seq_has_string(v0, target@));
                    }
                },
                None => {
                    proof {
                        lemma_string_seq_push(rec.viewers@, target_s);
                    }
                    rec.viewers.push(target_s);
                },
            }
            proof {
                assert(rec0.viewers@ == v0);
                assert forall|t: Seq<char>|
                    rec.names_viewer(t) <==> (rec0.names_viewer(t) || t == target@) by {
                    assert(seq_has_string(rec.viewers@, t) == rec.names_viewer(t));
                    assert(seq_has_string(v0, t) == rec0.names_viewer(t));
                }
                assert(rec.wf());
            }
        },
    }
    let ghost recf = rec;
    match pos {
        Some(_) => {
            store.shared_sheets.insert(j, rec);
            proof {
                let presheets = pre.shared_sheets@;
                let mids = presheets.remove(j as int);
                presheets.remove_ensures(j as int);
                mids.insert_ensures(j as int, recf);
                assert forall|k: int|
                    0 <= k < store.shared_sheets@.len() implies store.shared_sheets@[k]
                    == presheets.update(j as int, recf)[k] by {
                    if k < j as int {
                        assert(store.shared_sheets@[k] == mids[k]);
                    } else if k == j as int {
                        assert(store.shared_sheets@[k] == recf);
                    } else {
                        assert(store.shared_sheets@[k] == mids[k - 1]);
                        assert(mids[k - 1] == presheets[k]);
                    }
                }
                assert(store.shared_sheets@ =~= presheets.update(j as int, recf));
                lemma_record_update(pre, *store, j as int, recf);
            }
        },
        None => {
            store.shared_sheets.push(rec);
            proof {
                lemma_record_push(pre, *store, recf);
            }
        },
    }
    proof {
        assert(store.record_at(owner@) == recf);
        assert(forall|t: Seq<char>| store.is_viewer(owner@, t) <==> recf.names_viewer(t));
    }
    Ok(())
}

/// Revoke whatever role the target holds on the owner's sheet. Refused when
/// the owner is unknown, has never shared, or the target holds no role; on
/// success the target holds no role any more and nothing else changes.
pub fn remove_user_access(store: &mut UserStore, owner: &str, target: &str) -> (r: Result<
    (),
    StoreError,
>)
    requires
        old(store).wf(),
    ensures
        final(store).wf(),
        match r {
            Ok(()) => revoke_refusal(*old(store), owner@, target@) is None && revoke_granted(
                *old(store),
                *final(store),
                owner@,
                target@,
            ),
            Err(e) => revoke_refusal(*old(store), owner@, target@) == Some(e) && *final(store)
                == *old(store),
        },
{
    let owner_s = String::from_str(owner);
    let target_s = String::from_str(target);
    if !contains_user(store, &owner_s) {
        return Err(StoreError::NotFound);
    }
    let j = match record_position(store, &owner_s) {
        None => {
            return Err(StoreError::NoSharingRecord);
        },
        Some(j) => j,
    };
    let ghost pre = *store;
    let ghost rec0 = pre.shared_sheets@[j as int];
    proof {
        assert(rec0 == pre.record_at(owner@));
        assert(rec0.wf());
        assert(forall|t: Seq<char>| pre.is_viewer(owner@, t) <==> rec0.names_viewer(t));
        assert(pre.collaborator_of(owner@) == (match rec0.collaborator {
            Some(c) => Some(c@),
            None => None::<Seq<char>>,
        }));
    }
    let held_slot = match &store.shared_sheets[j].collaborator {
        Some(c) => *c == target_s,
        None => false,
    };
    let vpos = find_string(&store.shared_sheets[j].viewers, &target_s);
    if !held_slot && vpos.is_none() {
        return Err(StoreError::NoAccessToRevoke);
    }
    let mut rec = store.shared_sheets.remove(j);
    if held_slot {
        rec.collaborator = None;
    } else {
        // the target was a viewer; by exclusivity it held no slot
        match vpos {
            Some(k) => {
                proof {
                    lemma_string_seq_remove(rec.viewers@, k as int);
                }
                rec.viewers.remove(k);
            },
            None => {
                // unreachable: one of the two roles was held
                proof {
                    assert(false);
                }
            },
        }
    }
    proof {
        assert(forall|t: Seq<char>|
            rec.names_viewer(t) <==> (rec0.names_viewer(t) && t != target@));
        assert(rec.wf());
    }
    let ghost recf = rec;
    store.shared_sheets.insert(j, rec);
    proof {
        let presheets = pre.shared_sheets@;
        let mids = presheets.remove(j as int);
        presheets.remove_ensures(j as int);
        mids.insert_ensures(j as int, recf);
        assert forall|k: int|
            0 <= k < store.shared_sheets@.len() implies store.shared_sheets@[k] == presheets.update(
            j as int,
            recf,
        )[k] by {
            if k < j as int {
                assert(store.shared_sheets@[k] == mids[k]);
            } else if k == j as int {
                assert(store.shared_sheets@[k] == recf);
            } else {
                assert(store.shared_sheets@[k] == mids[k - 1]);
                assert(mids[k - 1] == presheets[k]);
            }
        }
        assert(store.shared_sheets@ =~= presheets.update(j as int, recf));
        lemma_record_update(pre, *store, j as int, recf);
        assert(store.record_at(owner@) == recf);
    }
    Ok(())
}

/// List every sheet the user can reach: their own first, then one entry per
/// owner who granted them a role. Fails exactly when the user is unknown.
#[verifier::rlimit(60)]
pub fn get_user_sheets(store: &UserStore, username: &str) -> (r: Result<Vec<SheetEntry>, StoreError>)
    requires
        store.wf(),
    ensures
        match r {
            Ok(list) => store.has_user(username@) && sheets_listing(*store, username@, list@),
            Err(StoreError::NotFound) => !store.has_user(username@),
            Err(_) => false,
        },
        store.has_user(username@) <==> r is Ok,
{
    let uname = String::from_str(username);
    if !contains_user(store, &uname) {
        return Err(StoreError::NotFound);
    }
    let mut list: Vec<SheetEntry> = Vec::new();
    list.push(SheetEntry { owner: uname.clone(), access: SheetAccess::Own });
    let n = store.shared_sheets.len();
    let mut i: usize = 0;
    while i < n
        invariant
            store.wf(),
            store.has_user(username@),
            uname@ == username@,
            n == store.shared_sheets.len(),
            i <= n,
            list@.len() >= 1,
            list@[0].owner@ == username@,
            list@[0].access == SheetAccess::Own,
            forall|k: int|
                1 <= k < list@.len() ==> entry_grants(*store, username@, #[trigger] list@[k]),
            forall|k: int|
                1 <= k < list@.len() ==> store.has_record((#[trigger] list@[k]).owner@)
                    && store.record_index(list@[k].owner@) < i,
            forall|ri: int|
                0 <= ri < i && store.shared_sheets[ri].names_collaborator(username@)
                    ==> exists|k: int|
                    1 <= k < list@.len() && list@[k].owner@ == store.shared_sheets[ri].owner@
                        && list@[k].access == SheetAccess::Collaborator,
            forall|ri: int|
                0 <= ri < i && store.shared_sheets[ri].names_viewer(username@) ==> exists|k: int|
                    1 <= k < list@.len() && list@[k].owner@ == store.shared_sheets[ri].owner@
                        && list@[k].access == SheetAccess::Viewer,
            forall|k1: int, k2: int|
                1 <= k1 < k2 < list@.len() ==> list@[k1].owner@ != list@[k2].owner@,
        decreases n - i,
    {
        proof {
            lemma_record_lookup(*store, i as int);
        }
        let ghost oldlist = list@;
        let is_coll = match &store.shared_sheets[i].collaborator {
            Some(c) => *c == uname,
            None => false,
        };
        let is_view = if is_coll {
            false
        } else {
            find_string(&store.shared_sheets[i].viewers, &uname).is_some()
        };
        proof {
            assert(is_coll == store.shared_sheets[i as int].names_collaborator(username@));
            assert(is_view == (!is_coll && store.shared_sheets[i as int].names_viewer(
                username@,
            )));
        }
        if is_coll {
            list.push(
                SheetEntry {
                    owner: store.shared_sheets[i].owner.clone(),
                    access: SheetAccess::Collaborator,
                },
            );
        } else if is_view {
            list.push(
                SheetEntry {
                    owner: store.shared_sheets[i].owner.clone(),
                    access: SheetAccess::Viewer,
                },
            );
        }
        proof {
            let newlist = list@;
            let own = store.shared_sheets[i as int].owner@;
            if is_coll || is_view {
                assert(newlist.len() == oldlist.len() + 1);
                assert(newlist[oldlist.len() as int].owner@ == own);
            }
            assert forall|ri: int|
                0 <= ri < i as int + 1 && store.shared_sheets[ri].names_collaborator(
                    username@,
                ) implies exists|k: int|
                1 <= k < newlist.len() && newlist[k].owner@ == store.shared_sheets[ri].owner@
                    && newlist[k].access == SheetAccess::Collaborator by {
                if ri == i as int {
                    assert(newlist[oldlist.len() as int].access == SheetAccess::Collaborator);
                    assert(1 <= oldlist.len() && (oldlist.len() as int) < newlist.len());
                } else {
                    let k = choose|k: int|
                        1 <= k < oldlist.len() && oldlist[k].owner@
                            == store.shared_sheets[ri].owner@ && oldlist[k].access
                            == SheetAccess::Collaborator;
                    assert(newlist[k] == oldlist[k]);
                }
            }
            assert forall|ri: int|
                0 <= ri < i as int + 1 && store.shared_sheets[ri].names_viewer(
                    username@,
                ) implies exists|k: int|
                1 <= k < newlist.len() && newlist[k].owner@ == store.shared_sheets[ri].owner@
                    && newlist[k].access == SheetAccess::Viewer by {
                if ri == i as int {
                    assert(store.shared_sheets[ri].wf());
                    assert(!store.shared_sheets[ri].names_collaborator(username@));
                    assert(is_view);
                    assert(newlist[oldlist.len() as int].access == SheetAccess::Viewer);
                    assert(1 <= oldlist.len() && (oldlist.len() as int) < newlist.len());
                } else {
                    let k = choose|k: int|
                        1 <= k < oldlist.len() && oldlist[k].owner@
                            == store.shared_sheets[ri].owner@ && oldlist[k].access
                            == SheetAccess::Viewer;
                    assert(newlist[k] == oldlist[k]);
                }
            }
        }
        i += 1;
    }
    proof {
        assert forall|o: Seq<char>|
            store.collaborator_of(o) == Some(username@) implies exists|k: int|
            1 <= k < list@.len() && list@[k].owner@ == o && list@[k].access
                == SheetAccess::Collaborator by {
            let ri = store.record_index(o);
            assert(0 <= ri < store.shared_sheets.len() && store.shared_sheets[ri].owner@ == o);
            assert(store.shared_sheets[ri].names_collaborator(username@));
        }
        assert forall|o: Seq<char>| store.is_viewer(o, username@) implies exists|k: int|
            1 <= k < list@.len() && list@[k].owner@ == o && list@[k].access
                == SheetAccess::Viewer by {
            let ri = store.record_index(o);
            assert(0 <= ri < store.shared_sheets.len() && store.shared_sheets[ri].owner@ == o);
            assert(store.shared_sheets[ri].names_viewer(username@));
        }
    }
    Ok(list)
}

} // verus!
