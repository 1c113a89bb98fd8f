use nhw_core::access::{authorize, AccessError, Accounts, Operation, Role};

#[test]
fn capability_table() {
    assert!(authorize(Role::Admin, Operation::RestoreSnapshot));
    assert!(authorize(Role::Admin, Operation::ManageUsers));
    assert!(authorize(Role::User, Operation::CreateInvoice));
    assert!(authorize(Role::User, Operation::CreateSnapshot));
    assert!(!authorize(Role::User, Operation::RestoreSnapshot));
    assert!(!authorize(Role::User, Operation::ChangeSettings));
    assert!(!authorize(Role::User, Operation::ManageUsers));
}

#[test]
fn login_checks_hash_and_records_time() {
    let mut a = Accounts::new(String::from("admin"), String::from("h1"));
    let admin = a.authenticate(&String::from("admin"), &String::from("h1"), 40).unwrap();
    assert_eq!(admin.role(), Role::Admin);
    assert_eq!(a.add(&admin, String::from("clerk"), String::from("h2"), Role::User), Ok(()));
    assert_eq!(
        a.add(&admin, String::from("admin"), String::from("h3"), Role::User),
        Err(AccessError::UsernameTaken)
    );
    let s = a.authenticate(&String::from("clerk"), &String::from("h2"), 42).unwrap();
    assert_eq!(s.role(), Role::User);
    assert_eq!(s.username(), "clerk");
    assert_eq!(a.accounts()[1].last_login, Some(42));
    assert_eq!(a.accounts()[0].last_login, Some(40));
    assert!(matches!(
        a.authenticate(&String::from("clerk"), &String::from("h1"), 43),
        Err(AccessError::AuthFailure)
    ));
    assert!(matches!(
        a.authenticate(&String::from("nobody"), &String::from("h2"), 44),
        Err(AccessError::AuthFailure)
    ));
    assert_eq!(a.accounts()[1].last_login, Some(42));
}

#[test]
fn only_administrators_manage_users() {
    let mut a = Accounts::new(String::from("admin"), String::from("h1"));
    let admin = a.authenticate(&String::from("admin"), &String::from("h1"), 1).unwrap();
    a.add(&admin, String::from("clerk"), String::from("h2"), Role::User).unwrap();
    let clerk = a.authenticate(&String::from("clerk"), &String::from("h2"), 2).unwrap();
    assert_eq!(
        a.add(&clerk, String::from("other"), String::from("h3"), Role::Admin),
        Err(AccessError::Unauthorized(Operation::ManageUsers))
    );
    assert_eq!(a.accounts().len(), 2);
}
