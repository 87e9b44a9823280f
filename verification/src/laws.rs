//! The guarantees of the sharing policy, stated over the store's observations
//! and the operations' transition predicates, and proved once and for all.

use vstd::prelude::*;

use crate::user_store::StoreError;
use crate::user_store::UserStore;
use crate::user_store::collaborator_granted;
use crate::user_store::revoke_granted;
use crate::user_store::revoke_refusal;
use crate::user_store::share_refusal;

verus! {

/// Mutual exclusivity: in a well-formed store no target is at once the
/// collaborator and a viewer of the same owner's sheet. Every operation
/// requires and preserves well-formedness, so this holds after any sequence
/// of operations on a freshly made store.
pub proof fn lemma_role_exclusivity(s: UserStore, owner: Seq<char>, target: Seq<char>)
    requires
        s.wf(),
    ensures
        !(s.collaborator_of(owner) == Some(target) && s.is_viewer(owner, target)),
{
    if s.has_record(owner) {
        let i = s.record_index(owner);
        assert(0 <= i < s.shared_sheets.len() && s.shared_sheets[i].owner@ == owner);
        assert(s.shared_sheets[i].wf());
    }
}

/// Self-share rejection: a grant whose owner and target are one account is
/// refused, whatever else holds of the store; the refused call leaves the
/// store untouched by the grant operation's contract.
pub proof fn lemma_self_share_refused(s: UserStore, u: Seq<char>)
    ensures
        share_refusal(s, u, u) is Some,
{
}

/// Session gating: a grant whose owner is not logged in is refused, whatever
/// the target; the refused call leaves the store untouched by the grant
/// operation's contract.
pub proof fn lemma_session_gating(s: UserStore, owner: Seq<char>, target: Seq<char>)
    requires
        !s.is_logged_in(owner),
    ensures
        share_refusal(s, owner, target) is Some,
{
}

/// Demotion correctness: when the owner's collaborator was A and B, another
/// account, is granted the collaborator role, B holds the slot and A is now a
/// viewer.
pub proof fn lemma_demotion(
    pre: UserStore,
    post: UserStore,
    owner: Seq<char>,
    a: Seq<char>,
    b: Seq<char>,
)
    requires
        pre.collaborator_of(owner) == Some(a),
        a != b,
        collaborator_granted(pre, post, owner, b),
    ensures
        post.collaborator_of(owner) == Some(b),
        post.is_viewer(owner, a),
{
}

/// Promotion correctness: when B was a viewer of the owner's sheet and is
/// granted the collaborator role, B holds the slot and is a viewer no more.
pub proof fn lemma_promotion(pre: UserStore, post: UserStore, owner: Seq<char>, b: Seq<char>)
    requires
        pre.is_viewer(owner, b),
        collaborator_granted(pre, post, owner, b),
    ensures
        post.collaborator_of(owner) == Some(b),
        !post.is_viewer(owner, b),
{
}

/// Revoke idempotence boundary: right after a granted revocation, revoking
/// the same target of the same owner again is refused, exactly for want of
/// any access to revoke.
pub proof fn lemma_revoke_twice(pre: UserStore, post: UserStore, owner: Seq<char>, target: Seq<
    char,
>)
    requires
        pre.wf(),
        revoke_granted(pre, post, owner, target),
    ensures
        revoke_refusal(post, owner, target) == Some(StoreError::NoAccessToRevoke),
{
}

} // verus!
