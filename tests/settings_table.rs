use nhw_core::access::{AccessError, Accounts, Operation, Role, Session};
use nhw_core::settings::Settings;

fn sessions() -> (Session, Session) {
    let mut a = Accounts::new(String::from("admin"), String::from("h1"));
    let admin = a.authenticate(&String::from("admin"), &String::from("h1"), 1).unwrap();
    a.add(&admin, String::from("clerk"), String::from("h2"), Role::User).unwrap();
    let clerk = a.authenticate(&String::from("clerk"), &String::from("h2"), 2).unwrap();
    (admin, clerk)
}

#[test]
fn upsert_inserts_then_replaces() {
    let (admin, _) = sessions();
    let mut s = Settings::new();
    assert_eq!(s.get(&String::from("shop_name")), None);
    s.upsert(String::from("shop_name"), String::from("NHW"), &admin).unwrap();
    s.upsert(String::from("gstin"), String::from("29ABC"), &admin).unwrap();
    s.upsert(String::from("shop_name"), String::from("NHW Stores"), &admin).unwrap();
    assert_eq!(s.entries().len(), 2);
    assert_eq!(s.get(&String::from("shop_name")), Some(String::from("NHW Stores")));
    assert_eq!(s.get(&String::from("gstin")), Some(String::from("29ABC")));
    assert!(s.is_consistent());
}

#[test]
fn users_cannot_change_settings() {
    let (_, clerk) = sessions();
    let mut s = Settings::new();
    let r = s.upsert(String::from("k"), String::from("v"), &clerk);
    assert_eq!(r, Err(AccessError::Unauthorized(Operation::ChangeSettings)));
    assert!(s.entries().is_empty());
}
