use dudu::ipc::{Ipc, IpcService, StorageError, MAX_ROWS};

fn record(key: &str, name: &str, rtsp: &str, rtmp: &str, enable: i32) -> Ipc {
    Ipc::new(
        0,
        key.to_string(),
        name.to_string(),
        rtsp.to_string(),
        rtmp.to_string(),
        enable,
        None,
        0,
        1000,
        None,
    )
}

fn sample_registry() -> IpcService {
    let mut reg = IpcService::new();
    reg.insert(record("D0001", "gate", "rtsp://10.0.0.1/a", "rtmp://srv/live/a", 0)).ok().unwrap();
    reg.insert(record("D0002", "yard", "rtsp://10.0.0.2/b", "rtmp://srv/live/b", 1)).ok().unwrap();
    reg.insert(record("D0003", "hall", "rtsp://10.0.0.3/c", "rtmp://other/c", 0)).ok().unwrap();
    reg.insert(record("D0004", "roof gate", "rtsp://10.0.0.4/d", "rtmp://srv/live/d", 1)).ok().unwrap();
    reg
}

fn keys(list: &[Ipc]) -> Vec<String> {
    list.iter().map(|r| r.key.clone()).collect()
}

#[test]
fn insert_then_get_round_trip() {
    let mut reg = IpcService::new();
    let mut r = record("D0001", "cam", "rtsp://127.0.0.1:8554/a", "rtmp://127.0.0.1/live/a", 0);
    r.reason = Some("old".to_string());
    r.retry_count = 2;
    assert_eq!(reg.insert(r).ok(), Some(1));
    let got = reg.get(1).unwrap();
    assert_eq!(got.id, 1);
    assert_eq!(got.key, "D0001");
    assert_eq!(got.name, "cam");
    assert_eq!(got.rtsp, "rtsp://127.0.0.1:8554/a");
    assert_eq!(got.rtmp, "rtmp://127.0.0.1/live/a");
    assert_eq!(got.enable, 0);
    assert_eq!(got.reason, Some("old".to_string()));
    assert_eq!(got.retry_count, 2);
    assert_eq!(got.create_time, 1000);
    assert_eq!(got.update_time, None);
    let by_key = reg.get_by_key("D0001").unwrap();
    assert_eq!(by_key.id, 1);
    assert!(reg.get(2).is_none());
    assert!(reg.get_by_key("D0002").is_none());
}

#[test]
fn ids_are_assigned_in_order() {
    let reg = sample_registry();
    assert_eq!(reg.get_by_key("D0003").unwrap().id, 3);
    assert_eq!(reg.count(), 4);
}

#[test]
fn insert_duplicate_key_fails() {
    let mut reg = sample_registry();
    let r = reg.insert(record("D0002", "again", "rtsp://x", "rtmp://y", 0));
    assert!(matches!(r, Err(StorageError::DuplicateKey)));
    assert_eq!(reg.count(), 4);
}

#[test]
fn update_overwrites_but_keeps_identity_and_creation() {
    let mut reg = sample_registry();
    let mut r = reg.get(1).unwrap();
    r.name = "front gate".to_string();
    r.create_time = 5;
    r.update_time = Some(2000);
    assert_eq!(reg.update(r).ok(), Some(1));
    let got = reg.get(1).unwrap();
    assert_eq!(got.name, "front gate");
    assert_eq!(got.create_time, 1000);
    assert_eq!(got.update_time, Some(2000));
}

#[test]
fn update_missing_counts_zero() {
    let mut reg = sample_registry();
    let mut r = reg.get(1).unwrap();
    r.id = 99;
    assert_eq!(reg.update(r).ok(), Some(0));
}

#[test]
fn update_to_taken_key_fails() {
    let mut reg = sample_registry();
    let mut r = reg.get(1).unwrap();
    r.key = "D0003".to_string();
    assert!(matches!(reg.update(r), Err(StorageError::DuplicateKey)));
    assert_eq!(reg.get(1).unwrap().key, "D0001");
}

#[test]
fn delete_removes_one() {
    let mut reg = sample_registry();
    assert_eq!(reg.delete(2), 1);
    assert_eq!(reg.delete(2), 0);
    assert_eq!(reg.count(), 3);
    assert!(reg.get(2).is_none());
    // identities are not reused
    reg.insert(record("D0005", "new", "rtsp://e", "rtmp://e", 0)).ok().unwrap();
    assert_eq!(reg.get_by_key("D0005").unwrap().id, 5);
}

#[test]
fn keyword_filter_matches_any_text_field() {
    let reg = sample_registry();
    assert_eq!(keys(&reg.get_list(1, 10, Some("gate".to_string()))), vec!["D0001", "D0004"]);
    assert_eq!(keys(&reg.get_list(1, 10, Some("10.0.0.3".to_string()))), vec!["D0003"]);
    assert_eq!(keys(&reg.get_list(1, 10, Some("other".to_string()))), vec!["D0003"]);
    assert_eq!(keys(&reg.get_list(1, 10, Some("D000".to_string()))).len(), 4);
    assert!(reg.get_list(1, 10, Some("nothing".to_string())).is_empty());
    assert_eq!(reg.get_list(1, 10, Some(String::new())).len(), 4);
}

#[test]
fn keyword_is_not_sql() {
    let reg = sample_registry();
    assert!(reg.get_list(1, 10, Some("' OR 1=1 --".to_string())).is_empty());
    assert!(reg.get_list(1, 10, Some("%".to_string())).is_empty());
}

#[test]
fn pages_concatenate_to_full_list() {
    let reg = sample_registry();
    let p1 = reg.get_list(1, 3, None);
    let p2 = reg.get_list(2, 3, None);
    let p3 = reg.get_list(3, 3, None);
    assert_eq!(p1.len(), 3);
    assert_eq!(p2.len(), 1);
    assert!(p3.is_empty());
    let mut all = keys(&p1);
    all.extend(keys(&p2));
    assert_eq!(all, vec!["D0001", "D0002", "D0003", "D0004"]);
    assert!(reg.get_list(0, 3, None).is_empty());
    assert!(reg.get_list(1, 0, None).is_empty());
}

#[test]
fn pages_of_filtered_list() {
    let reg = sample_registry();
    assert_eq!(keys(&reg.get_list(1, 1, Some("srv".to_string()))), vec!["D0001"]);
    assert_eq!(keys(&reg.get_list(2, 1, Some("srv".to_string()))), vec!["D0002"]);
    assert_eq!(keys(&reg.get_list(3, 1, Some("srv".to_string()))), vec!["D0004"]);
}

#[test]
fn projections_and_counts() {
    let mut reg = sample_registry();
    assert_eq!(keys(&reg.get_enable_list()), vec!["D0002", "D0004"]);
    let mut r = reg.get(3).unwrap();
    r.reason = Some("ETIMEDOUT".to_string());
    r.retry_count = 1;
    reg.update(r).ok().unwrap();
    let mut r = reg.get(1).unwrap();
    r.reason = Some("EIO".to_string());
    r.retry_count = 3;
    reg.update(r).ok().unwrap();
    assert_eq!(keys(&reg.get_list_by_reason(3)), vec!["D0003"]);
    assert_eq!(keys(&reg.get_list_by_reason(4)), vec!["D0001", "D0003"]);
    assert_eq!(reg.count(), 4);
    assert_eq!(reg.count_enable(), 2);
    assert_eq!(reg.count_reason(), 2);
}

#[test]
fn enabled_list_is_bounded() {
    let mut reg = IpcService::new();
    for i in 0..70 {
        let k = format!("K{}", i);
        reg.insert(record(&k, "n", "rtsp://a", "rtmp://b", 1)).ok().unwrap();
    }
    assert_eq!(reg.get_enable_list().len(), MAX_ROWS);
    assert_eq!(reg.count_enable(), 70);
}

#[test]
fn restore_from_rows() {
    let mut a = record("A", "a", "rtsp://a", "rtmp://a", 0);
    a.id = 3;
    let mut b = record("B", "b", "rtsp://b", "rtmp://b", 1);
    b.id = 7;
    let mut reg = IpcService::from_rows(vec![a, b]).unwrap();
    assert_eq!(reg.get(7).unwrap().key, "B");
    reg.insert(record("C", "c", "rtsp://c", "rtmp://c", 0)).ok().unwrap();
    assert_eq!(reg.get_by_key("C").unwrap().id, 8);
}

#[test]
fn restore_rejects_bad_rows() {
    let mut a = record("A", "a", "rtsp://a", "rtmp://a", 0);
    a.id = 3;
    let mut b = record("A", "b", "rtsp://b", "rtmp://b", 1);
    b.id = 4;
    assert!(IpcService::from_rows(vec![a, b]).is_none());
    let mut c = record("C", "c", "rtsp://c", "rtmp://c", 0);
    c.id = 5;
    let mut d = record("D", "d", "rtsp://d", "rtmp://d", 0);
    d.id = 5;
    assert!(IpcService::from_rows(vec![c, d]).is_none());
    let mut e = record("E", "e", "rtsp://e", "rtmp://e", 0);
    e.id = 0;
    assert!(IpcService::from_rows(vec![e]).is_none());
}

#[test]
fn insert_fails_when_identities_run_out() {
    let mut last = record("A", "a", "rtsp://a", "rtmp://a", 0);
    last.id = i32::MAX - 1;
    let mut reg = IpcService::from_rows(vec![last]).unwrap();
    let r = reg.insert(record("B", "b", "rtsp://b", "rtmp://b", 0));
    assert!(matches!(r, Err(StorageError::IdsExhausted)));
    assert_eq!(reg.count(), 1);
    let mut top = record("C", "c", "rtsp://c", "rtmp://c", 0);
    top.id = i32::MAX;
    assert!(IpcService::from_rows(vec![top]).is_none());
}
