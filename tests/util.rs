use dudu::account::{authorize, change_password, check_login, is_public_path, login, Account, AccountService};
use dudu::control::{generate_next_key, paging_or_default};
use dudu::result::{Error, Page, Result};
use dudu::service::Service;
use dudu::util::{current_timestamp, encode_lower_hex, hash_password, starts_with, stored_timestamp, token};

#[test]
fn next_key_after_fifteen() {
    assert_eq!(generate_next_key(15), "D0010");
}

#[test]
fn next_key_edges() {
    assert_eq!(generate_next_key(0), "D0001");
    assert_eq!(generate_next_key(9), "D000A");
    assert_eq!(generate_next_key(65534), "DFFFF");
    assert_eq!(generate_next_key(65535), "D10000");
    assert_eq!(generate_next_key(u64::MAX), "D10000000000000000");
}

#[test]
fn md5_of_default_password() {
    assert_eq!(hash_password("123456".to_string()), "e10adc3949ba59abbe56e057f20f883e");
    assert_eq!(hash_password(String::new()), "d41d8cd98f00b204e9800998ecf8427e");
}

#[test]
fn tokens_are_fresh_hex() {
    let a = token();
    let b = token();
    assert_eq!(a.len(), 32);
    assert!(a.chars().all(|c| c.is_ascii_hexdigit() && !c.is_ascii_uppercase()));
    assert_ne!(a, b);
}

#[test]
fn clock_and_stored_time() {
    assert!(current_timestamp() > 1_600_000_000_000);
    assert_eq!(stored_timestamp(5), 5);
    assert_eq!(stored_timestamp(u128::MAX), i64::MAX);
}

#[test]
fn envelopes() {
    let ok = Result::success();
    assert_eq!((ok.code, ok.msg.as_str()), (0, "Success"));
    let e = Result::error(Error::not_pushing());
    assert_eq!((e.code, e.msg.as_str()), (10004, "Not pushing"));
    let d = Result::error_description(Error::db_operation_error(), "disk full");
    assert_eq!((d.code, d.msg.as_str()), (60001, "Database operational error disk full"));
    let data = Result::success_return_data(7);
    assert_eq!(data.data, Some(7));
    let page = Page::new(3, vec![1, 2]);
    assert_eq!((page.total, page.rows), (3, Some(vec![1, 2])));
    assert_eq!(Error::session_set_error().code, 50001);
    assert_eq!(Error::old_password_error().message, "Old password error");
}

#[test]
fn seeded_admin_can_log_in() {
    let service = Service::new();
    let admin = service.account_service.get_by_username("admin".to_string()).unwrap();
    assert_eq!(admin.password, "e10adc3949ba59abbe56e057f20f883e");
    let t = login(&service.account_service, "admin".to_string(), "123456".to_string()).ok().unwrap();
    assert_eq!(t, admin.token);
    let wrong = login(&service.account_service, "admin".to_string(), "654321".to_string());
    assert_eq!(wrong.err().unwrap().code, 10005);
    let nobody = login(&service.account_service, "root".to_string(), "123456".to_string());
    assert_eq!(nobody.err().unwrap().code, 10005);
}

#[test]
fn login_check_compares_digests() {
    let a = Account::new(1, "u".to_string(), "abc".to_string(), "tok".to_string(), 0, None);
    assert_eq!(check_login(Some(a), "abc").ok(), Some("tok".to_string()));
    let a = Account::new(1, "u".to_string(), "abc".to_string(), "tok".to_string(), 0, None);
    assert_eq!(check_login(Some(a), "abd").err().unwrap().code, 10005);
    assert_eq!(check_login(None, "abc").err().unwrap().code, 10005);
}

#[test]
fn password_change() {
    let mut accounts = AccountService::new();
    accounts.insert(Account::new(0, "u".to_string(), hash_password("old".to_string()), "tok".to_string(), 0, None)).ok().unwrap();
    let old_hash = hash_password("old".to_string());
    let bad = change_password(&mut accounts, "tok".to_string(), &hash_password("nope".to_string()), hash_password("new".to_string()), 5);
    assert_eq!(bad.err().unwrap().code, 10006);
    let missing = change_password(&mut accounts, "other".to_string(), &old_hash, hash_password("new".to_string()), 5);
    assert_eq!(missing.err().unwrap().code, 10002);
    assert_eq!(change_password(&mut accounts, "tok".to_string(), &old_hash, hash_password("new".to_string()), 5).ok(), Some(1));
    let a = accounts.get(1).unwrap();
    assert_eq!(a.password, hash_password("new".to_string()));
    assert_eq!(a.update_time, Some(5));
}

#[test]
fn account_uniqueness() {
    let mut accounts = AccountService::new();
    assert_eq!(accounts.init_data(1), 1);
    assert_eq!(accounts.init_data(2), 0);
    let admin_token = accounts.get(1).unwrap().token;
    let dup = accounts.insert(Account::new(0, "admin".to_string(), "x".to_string(), "t2".to_string(), 0, None));
    assert!(dup.is_err());
    let dup = accounts.insert(Account::new(0, "other".to_string(), "x".to_string(), admin_token, 0, None));
    assert!(dup.is_err());
    assert_eq!(accounts.insert(Account::new(0, "other".to_string(), "x".to_string(), "t3".to_string(), 0, None)).ok(), Some(1));
    assert_eq!(accounts.get_by_token("t3".to_string()).unwrap().uid, 2);
}

#[test]
fn account_rows_restore() {
    let rows = vec![
        Account::new(4, "a".to_string(), "p".to_string(), "t1".to_string(), 0, None),
        Account::new(2, "b".to_string(), "p".to_string(), "t2".to_string(), 0, None),
    ];
    let mut accounts = AccountService::from_rows(rows).unwrap();
    accounts.insert(Account::new(0, "c".to_string(), "p".to_string(), "t3".to_string(), 0, None)).ok().unwrap();
    assert_eq!(accounts.get_by_username("c".to_string()).unwrap().uid, 5);
    let clash = vec![
        Account::new(1, "a".to_string(), "p".to_string(), "t1".to_string(), 0, None),
        Account::new(2, "b".to_string(), "p".to_string(), "t1".to_string(), 0, None),
    ];
    assert!(AccountService::from_rows(clash).is_none());
}

#[test]
fn auth_paths_and_tokens() {
    assert!(is_public_path("/api/login"));
    assert!(is_public_path("/"));
    assert!(is_public_path("/admin/index.html"));
    assert!(!is_public_path("/api/ipcs"));
    assert!(!is_public_path("/adm"));
    let service = Service::new();
    let admin_token = service.account_service.get(1).unwrap().token;
    assert!(authorize(&service.account_service, "/api/ipcs", admin_token));
    assert!(!authorize(&service.account_service, "/api/ipcs", String::new()));
    assert!(!authorize(&service.account_service, "/api/ipcs", "bogus".to_string()));
    assert!(authorize(&service.account_service, "/", String::new()));
    assert!(starts_with("abc", ""));
    assert!(!starts_with("ab", "abc"));
}

#[test]
fn lower_hex_encoding_of_bytes() {
    assert_eq!(encode_lower_hex(&vec![]), "");
    assert_eq!(encode_lower_hex(&vec![0x00, 0x0f, 0xa5, 0xff]), "000fa5ff");
    let bytes: Vec<u8> = (0u8..16).map(|b| b * 17).collect();
    assert_eq!(encode_lower_hex(&bytes), "00112233445566778899aabbccddeeff");
}

#[test]
fn token_is_a_version_four_uuid() {
    let t = token();
    assert_eq!(&t[12..13], "4");
    assert!(matches!(&t[16..17], "8" | "9" | "a" | "b"));
}

#[test]
fn seeded_admin_token_form() {
    let mut accounts = AccountService::new();
    accounts.init_data(7);
    let admin = accounts.get(1).unwrap();
    assert_eq!(admin.token.len(), 32);
    assert!(admin.token.chars().all(|c| c.is_ascii_digit() || ('a'..='f').contains(&c)));
    assert_eq!(admin.create_time, 7);
    assert_eq!(admin.update_time, None);
}

#[test]
fn refusal_messages() {
    let service = Service::new();
    let wrong = login(&service.account_service, "admin".to_string(), "bad".to_string()).err().unwrap();
    assert_eq!(wrong.message, "Wrong user name or password");
    let mut accounts = AccountService::new();
    accounts.init_data(1);
    let tok = accounts.get(1).unwrap().token;
    let e = change_password(&mut accounts, "none".to_string(), "x", "y".to_string(), 2).err().unwrap();
    assert_eq!((e.code, e.message), (10002, "Data not found"));
    let e = change_password(&mut accounts, tok, "x", "y".to_string(), 2).err().unwrap();
    assert_eq!((e.code, e.message), (10006, "Old password error"));
}

#[test]
fn listing_defaults() {
    assert_eq!(paging_or_default(None, None), (1, 10));
    assert_eq!(paging_or_default(Some(3), Some(25)), (3, 25));
}

#[test]
fn account_rows_restore_rejects_out_of_range_ids() {
    let zero = vec![Account::new(0, "a".to_string(), "p".to_string(), "t".to_string(), 0, None)];
    assert!(AccountService::from_rows(zero).is_none());
    let top = vec![Account::new(i32::MAX, "a".to_string(), "p".to_string(), "t".to_string(), 0, None)];
    assert!(AccountService::from_rows(top).is_none());
    assert!(AccountService::from_rows(vec![]).is_some());
}
