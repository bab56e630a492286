use litejson::auth::{generate_token, hash_password, init_user, verify_password, Claims, User};
use litejson::sql::Table;

#[test]
fn test_hash_password() {
    // the digest of the empty and of a known input
    assert_eq!(hash_password(""), "d41d8cd98f00b204e9800998ecf8427e");
    assert_eq!(hash_password("abc"), "900150983cd24fb0d6963f7d28e17f72");
    assert_eq!(hash_password("demo123").len(), 32);
}

#[test]
fn test_verify_password() {
    assert!(verify_password("abc", "900150983cd24fb0d6963f7d28e17f72"));
    assert!(!verify_password("abd", "900150983cd24fb0d6963f7d28e17f72"));
    assert!(!verify_password("abc", "not-a-digest"));
}

#[test]
fn test_generate_token() {
    let token = generate_token(42);
    let parts: Vec<&str> = token.split('-').collect();
    assert_eq!(parts.len(), 2);
    assert_eq!(parts[0], "42");
    assert!(parts[1].parse::<i64>().is_ok());
}

#[test]
fn test_claims_new() {
    let c = Claims::new(&7, 1234);
    assert_eq!(c.id, 7);
    assert_eq!(c.exp, 1234);
    assert_eq!(c.iss, "test");
}

#[test]
fn test_init_user() {
    let u = init_user();
    assert_eq!(u.id, 1);
    assert_eq!(u.username, "demo");
    assert_eq!(u.password, hash_password("demo123"));
    assert_eq!(u.email, "");
}

#[test]
fn test_user_table_round_trip() {
    let u = User {
        id: 3,
        username: "ann".to_string(),
        password: "pw".to_string(),
        email: "a@b".to_string(),
        created_at: 1615299200,
    };
    let row = u.to_json_object().unwrap();
    assert_eq!(
        row.to_json(),
        r#"{"id":3,"username":"ann","password":"pw","email":"a@b","created_at":1615299200}"#
    );
    let back = User::from_json_object(&row).unwrap();
    assert_eq!(back.id, 3);
    assert_eq!(back.username, "ann");
    assert_eq!(back.password, "pw");
    assert_eq!(back.email, "a@b");
    assert_eq!(back.created_at, 1615299200);
    assert_eq!(u.id_value(), "3");
    assert_eq!(User::table_name(), "user");
    assert_eq!(User::id(), "id");
    assert!(User::id_auto_increase());
    assert_eq!(User::columns(), vec!["id", "username", "password", "email", "created_at"]);
    // a row missing a column is rejected
    let mut partial = litejson::object::JsonObject::new();
    partial.set_i32("id", 1);
    assert!(User::from_json_object(&partial).is_err());
}
