use sheet_access::user_store::ShareRole;
use sheet_access::user_store::SheetAccess;
use sheet_access::user_store::StoreError;
use sheet_access::user_store::UserStore;
use sheet_access::user_store::add_user;
use sheet_access::user_store::apply_credential_check;
use sheet_access::user_store::get_user_sheets;
use sheet_access::user_store::logout_user;
use sheet_access::user_store::register_with_digest;
use sheet_access::user_store::remove_user_access;
use sheet_access::user_store::share_sheet;
use sheet_access::user_store::validate_user;

/// A store that does not log freshly registered accounts in, with the named
/// accounts registered under a cheap throwaway digest (the digest itself does
/// not matter for sharing tests).
fn store_with(users: &[&str]) -> UserStore {
    let mut store = UserStore::new(false);
    for u in users {
        register_with_digest(&mut store, u, String::from("unused-digest")).unwrap();
    }
    store
}

#[test]
fn register_then_authenticate_and_list() {
    let mut store = UserStore::new(false);
    add_user(&mut store, "alice", "pw1").unwrap();
    add_user(&mut store, "bob", "pw2").unwrap();
    validate_user(&mut store, "alice", "pw1").unwrap();
    share_sheet(&mut store, "alice", "bob", ShareRole::Collaborator).unwrap();
    let sheets = get_user_sheets(&store, "bob").unwrap();
    assert_eq!(sheets.len(), 2);
    assert_eq!(sheets[0].owner, "bob".to_string());
    assert_eq!(sheets[0].access, SheetAccess::Own);
    assert_eq!(sheets[1].owner, "alice".to_string());
    assert_eq!(sheets[1].access, SheetAccess::Collaborator);
}

#[test]
fn assign_viewer_after_collaborator_demotes_to_viewer() {
    let mut store = UserStore::new(false);
    add_user(&mut store, "alice", "pw1").unwrap();
    add_user(&mut store, "bob", "pw2").unwrap();
    validate_user(&mut store, "alice", "pw1").unwrap();
    share_sheet(&mut store, "alice", "bob", ShareRole::Collaborator).unwrap();
    share_sheet(&mut store, "alice", "bob", ShareRole::Viewer).unwrap();
    let sheets = get_user_sheets(&store, "bob").unwrap();
    assert_eq!(sheets.len(), 2);
    assert_eq!(sheets[1].owner, "alice".to_string());
    assert_eq!(sheets[1].access, SheetAccess::Viewer);
}

#[test]
fn new_collaborator_demotes_old_one_and_revoke_removes_viewer() {
    let mut store = store_with(&["alice", "bob", "carol"]);
    apply_credential_check(&mut store, "alice", Some(true)).unwrap();
    share_sheet(&mut store, "alice", "bob", ShareRole::Collaborator).unwrap();
    share_sheet(&mut store, "alice", "carol", ShareRole::Collaborator).unwrap();
    let bob_sheets = get_user_sheets(&store, "bob").unwrap();
    assert_eq!(bob_sheets.len(), 2);
    assert_eq!(bob_sheets[1].owner, "alice".to_string());
    assert_eq!(bob_sheets[1].access, SheetAccess::Viewer);
    let carol_sheets = get_user_sheets(&store, "carol").unwrap();
    assert_eq!(carol_sheets.len(), 2);
    assert_eq!(carol_sheets[1].access, SheetAccess::Collaborator);
    remove_user_access(&mut store, "alice", "bob").unwrap();
    let bob_after = get_user_sheets(&store, "bob").unwrap();
    assert_eq!(bob_after.len(), 1);
    assert_eq!(bob_after[0].access, SheetAccess::Own);
}

#[test]
fn authenticate_unknown_user_fails_not_found() {
    let mut store = UserStore::new(false);
    let r = validate_user(&mut store, "dave", "x");
    assert_eq!(r, Err(StoreError::NotFound));
    // no session was created: a later logout still finds no account
    assert_eq!(logout_user(&mut store, "dave"), Err(StoreError::NotFound));
}

#[test]
fn register_twice_fails_already_exists() {
    let mut store = UserStore::new(false);
    add_user(&mut store, "alice", "pw1").unwrap();
    assert_eq!(add_user(&mut store, "alice", "other"), Err(StoreError::AlreadyExists));
}

#[test]
fn authenticate_wrong_password_fails_bad_credential() {
    let mut store = UserStore::new(false);
    add_user(&mut store, "alice", "pw1").unwrap();
    assert_eq!(validate_user(&mut store, "alice", "wrong"), Err(StoreError::BadCredential));
    // and the failed attempt did not log alice in
    assert_eq!(logout_user(&mut store, "alice"), Err(StoreError::NotLoggedIn));
}

#[test]
fn authenticate_while_logged_in_fails() {
    let mut store = UserStore::new(true);
    add_user(&mut store, "alice", "pw1").unwrap();
    // registration logged alice in at once
    assert_eq!(validate_user(&mut store, "alice", "pw1"), Err(StoreError::AlreadyLoggedIn));
}

#[test]
fn auto_login_gates_sharing() {
    let mut with_auto = UserStore::new(true);
    add_user(&mut with_auto, "alice", "pw1").unwrap();
    add_user(&mut with_auto, "bob", "pw2").unwrap();
    assert!(share_sheet(&mut with_auto, "alice", "bob", ShareRole::Viewer).is_ok());

    let mut without_auto = UserStore::new(false);
    add_user(&mut without_auto, "alice", "pw1").unwrap();
    add_user(&mut without_auto, "bob", "pw2").unwrap();
    assert_eq!(
        share_sheet(&mut without_auto, "alice", "bob", ShareRole::Viewer),
        Err(StoreError::NotLoggedIn)
    );
}

#[test]
fn self_share_fails_and_mutates_nothing() {
    let mut store = store_with(&["alice"]);
    apply_credential_check(&mut store, "alice", Some(true)).unwrap();
    assert_eq!(
        share_sheet(&mut store, "alice", "alice", ShareRole::Collaborator),
        Err(StoreError::SelfShare)
    );
    assert_eq!(
        share_sheet(&mut store, "alice", "alice", ShareRole::Viewer),
        Err(StoreError::SelfShare)
    );
    let sheets = get_user_sheets(&store, "alice").unwrap();
    assert_eq!(sheets.len(), 1);
    assert_eq!(sheets[0].access, SheetAccess::Own);
}

#[test]
fn share_with_unknown_target_fails_not_found() {
    let mut store = store_with(&["alice"]);
    apply_credential_check(&mut store, "alice", Some(true)).unwrap();
    assert_eq!(
        share_sheet(&mut store, "alice", "ghost", ShareRole::Viewer),
        Err(StoreError::NotFound)
    );
    assert_eq!(
        share_sheet(&mut store, "ghost", "alice", ShareRole::Viewer),
        Err(StoreError::NotFound)
    );
}

#[test]
fn revoke_without_record_and_twice() {
    let mut store = store_with(&["alice", "bob"]);
    apply_credential_check(&mut store, "alice", Some(true)).unwrap();
    assert_eq!(
        remove_user_access(&mut store, "alice", "bob"),
        Err(StoreError::NoSharingRecord)
    );
    share_sheet(&mut store, "alice", "bob", ShareRole::Viewer).unwrap();
    assert_eq!(remove_user_access(&mut store, "alice", "bob"), Ok(()));
    // the record still exists, but bob holds no role any more
    assert_eq!(
        remove_user_access(&mut store, "alice", "bob"),
        Err(StoreError::NoAccessToRevoke)
    );
}

#[test]
fn revoke_collaborator_clears_slot() {
    let mut store = store_with(&["alice", "bob"]);
    apply_credential_check(&mut store, "alice", Some(true)).unwrap();
    share_sheet(&mut store, "alice", "bob", ShareRole::Collaborator).unwrap();
    assert_eq!(remove_user_access(&mut store, "alice", "bob"), Ok(()));
    let sheets = get_user_sheets(&store, "bob").unwrap();
    assert_eq!(sheets.len(), 1);
}

#[test]
fn promotion_removes_viewer_membership() {
    let mut store = store_with(&["alice", "bob"]);
    apply_credential_check(&mut store, "alice", Some(true)).unwrap();
    share_sheet(&mut store, "alice", "bob", ShareRole::Viewer).unwrap();
    share_sheet(&mut store, "alice", "bob", ShareRole::Collaborator).unwrap();
    let sheets = get_user_sheets(&store, "bob").unwrap();
    // exactly one granted entry: collaborator, no leftover viewer entry
    assert_eq!(sheets.len(), 2);
    assert_eq!(sheets[1].access, SheetAccess::Collaborator);
}

#[test]
fn reassigning_same_collaborator_changes_nothing() {
    let mut store = store_with(&["alice", "bob"]);
    apply_credential_check(&mut store, "alice", Some(true)).unwrap();
    share_sheet(&mut store, "alice", "bob", ShareRole::Collaborator).unwrap();
    share_sheet(&mut store, "alice", "bob", ShareRole::Collaborator).unwrap();
    let sheets = get_user_sheets(&store, "bob").unwrap();
    assert_eq!(sheets.len(), 2);
    assert_eq!(sheets[1].access, SheetAccess::Collaborator);
}

#[test]
fn viewer_assignment_is_set_like() {
    let mut store = store_with(&["alice", "bob"]);
    apply_credential_check(&mut store, "alice", Some(true)).unwrap();
    share_sheet(&mut store, "alice", "bob", ShareRole::Viewer).unwrap();
    share_sheet(&mut store, "alice", "bob", ShareRole::Viewer).unwrap();
    let sheets = get_user_sheets(&store, "bob").unwrap();
    assert_eq!(sheets.len(), 2);
    assert_eq!(sheets[1].access, SheetAccess::Viewer);
}

#[test]
fn logout_flow() {
    let mut store = UserStore::new(true);
    add_user(&mut store, "alice", "pw1").unwrap();
    assert_eq!(logout_user(&mut store, "alice"), Ok(()));
    assert_eq!(logout_user(&mut store, "alice"), Err(StoreError::NotLoggedIn));
    // and alice can log back in with the right password
    assert_eq!(validate_user(&mut store, "alice", "pw1"), Ok(()));
}

#[test]
fn credential_check_outcomes_decide_login() {
    let mut store = store_with(&["alice"]);
    assert_eq!(
        apply_credential_check(&mut store, "alice", None),
        Err(StoreError::CredentialPrimitiveFailure)
    );
    assert_eq!(
        apply_credential_check(&mut store, "alice", Some(false)),
        Err(StoreError::BadCredential)
    );
    assert_eq!(apply_credential_check(&mut store, "alice", Some(true)), Ok(()));
    assert_eq!(logout_user(&mut store, "alice"), Ok(()));
}

#[test]
fn listing_for_unknown_user_fails_not_found() {
    let store = UserStore::new(false);
    assert_eq!(get_user_sheets(&store, "nobody").unwrap_err(), StoreError::NotFound);
}

#[test]
fn listing_collects_roles_across_owners() {
    let mut store = store_with(&["alice", "bob", "carol"]);
    apply_credential_check(&mut store, "alice", Some(true)).unwrap();
    apply_credential_check(&mut store, "bob", Some(true)).unwrap();
    share_sheet(&mut store, "alice", "carol", ShareRole::Collaborator).unwrap();
    share_sheet(&mut store, "bob", "carol", ShareRole::Viewer).unwrap();
    let sheets = get_user_sheets(&store, "carol").unwrap();
    assert_eq!(sheets.len(), 3);
    assert_eq!(sheets[0].owner, "carol".to_string());
    assert_eq!(sheets[0].access, SheetAccess::Own);
    assert!(sheets[1..]
        .iter()
        .any(|e| e.owner == "alice".to_string() && e.access == SheetAccess::Collaborator));
    assert!(sheets[1..]
        .iter()
        .any(|e| e.owner == "bob".to_string() && e.access == SheetAccess::Viewer));
}

#[test]
fn stored_digest_is_not_the_password() {
    // were the hashing wrapper to hand its argument back unchanged, a check of
    // the password against a digest equal to the password would have to say
    // "no", and this login would fail
    let mut store = UserStore::new(false);
    add_user(&mut store, "alice", "pw1").unwrap();
    assert_eq!(validate_user(&mut store, "alice", "pw1"), Ok(()));
}
