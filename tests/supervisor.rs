use dudu::control::{request_start, request_stop, insert_stream, update_stream, delete_stream, ControlError};
use dudu::ipc::{Ipc, IpcService};
use dudu::my_actor::{settle, Intent, MyActor, NOT_FOUND};
use dudu::start::{retry_abnormal, start_undone, status_check, WARM_UP_MS};

fn one_stream() -> IpcService {
    let mut reg = IpcService::new();
    insert_stream(
        &mut reg,
        "D0001".to_string(),
        "cam".to_string(),
        "rtsp://127.0.0.1:8554/a".to_string(),
        "rtmp://127.0.0.1/live/a".to_string(),
        100,
    )
    .ok()
    .unwrap();
    reg
}

fn fail(reg: &mut IpcService, id: i32, msg: &str, now: i64) {
    assert_eq!(settle(reg, id, &Err(msg.to_string()), now).ok(), Some(1));
}

#[test]
fn stop_without_pipeline_is_noop() {
    let reg = one_stream();
    let mut actor = MyActor::new();
    let (code, launch) = actor.handle(&reg, Intent { id: 1, desired: 0 });
    assert_eq!(code, 1);
    assert!(launch.is_none());
    assert!(actor.publisher_list.is_empty());
}

#[test]
fn start_twice_launches_once() {
    let reg = one_stream();
    let mut actor = MyActor::new();
    let (code1, l1) = actor.handle(&reg, Intent { id: 1, desired: 1 });
    let (code2, l2) = actor.handle(&reg, Intent { id: 1, desired: 1 });
    assert_eq!((code1, code2), (1, 1));
    let l1 = l1.unwrap();
    assert_eq!(l1.input_url, "rtsp://127.0.0.1:8554/a");
    assert_eq!(l1.output_url, "rtmp://127.0.0.1/live/a");
    assert!(l2.is_none());
    assert_eq!(actor.publisher_list.len(), 1);
    assert_eq!(actor.get_index(1), Some(0));
}

#[test]
fn stop_raises_signal_and_forgets_handle() {
    let reg = one_stream();
    let mut actor = MyActor::new();
    let launch = actor.handle(&reg, Intent { id: 1, desired: 1 }).1.unwrap();
    assert!(!launch.publisher.stop_requested());
    actor.handle(&reg, Intent { id: 1, desired: 0 });
    assert!(launch.publisher.stop_requested());
    assert!(actor.publisher_list.is_empty());
    assert_eq!(actor.get_index(1), None);
}

#[test]
fn unknown_stream_and_other_values() {
    let reg = one_stream();
    let mut actor = MyActor::new();
    let (code, launch) = actor.handle(&reg, Intent { id: 9, desired: 1 });
    assert_eq!(code, NOT_FOUND);
    assert!(launch.is_none());
    let (code, launch) = actor.handle(&reg, Intent { id: 1, desired: 7 });
    assert_eq!(code, 1);
    assert!(launch.is_none());
    assert!(actor.publisher_list.is_empty());
}

#[test]
fn finished_run_is_forgotten_but_newer_run_stays() {
    let reg = one_stream();
    let mut actor = MyActor::new();
    let first = actor.handle(&reg, Intent { id: 1, desired: 1 }).1.unwrap();
    actor.handle(&reg, Intent { id: 1, desired: 0 });
    let second = actor.handle(&reg, Intent { id: 1, desired: 1 }).1.unwrap();
    assert_ne!(first.publisher.run, second.publisher.run);
    assert!(!actor.finish(1, first.publisher.run));
    assert_eq!(actor.publisher_list.len(), 1);
    assert!(actor.finish(1, second.publisher.run));
    assert!(actor.publisher_list.is_empty());
}

#[test]
fn publisher_stop_returns_true() {
    let p = dudu::publisher::Publisher::new(4);
    assert_eq!(p.id, 4);
    assert!(!p.stop_requested());
    assert!(p.stop());
    assert!(p.stop_requested());
}

#[test]
fn scenario_start_then_clean_end() {
    let mut reg = one_stream();
    assert_eq!(reg.get(1).unwrap().enable, 0);
    assert_eq!(request_start(&mut reg, 1, 200).ok(), Some(Intent { id: 1, desired: 1 }));
    assert_eq!(reg.get(1).unwrap().enable, 1);
    assert_eq!(settle(&mut reg, 1, &Ok(()), 300).ok(), Some(1));
    let r = reg.get(1).unwrap();
    assert_eq!(r.enable, 0);
    assert_eq!(r.reason, None);
    assert_eq!(r.retry_count, 0);
    assert_eq!(r.update_time, Some(300));
}

#[test]
fn scenario_failure_then_retry_sweep() {
    let mut reg = one_stream();
    request_start(&mut reg, 1, 200).ok().unwrap();
    fail(&mut reg, 1, "ETIMEDOUT", 300);
    let r = reg.get(1).unwrap();
    assert_eq!(r.reason, Some("ETIMEDOUT".to_string()));
    assert_eq!(r.retry_count, 0);
    assert_eq!(r.enable, 0);
    let intents = retry_abnormal(&mut reg, 3, WARM_UP_MS, 400);
    assert_eq!(intents, vec![Intent { id: 1, desired: 1 }]);
    let r = reg.get(1).unwrap();
    assert_eq!(r.retry_count, 1);
    assert_eq!(r.enable, 1);
    assert_eq!(r.reason, None);
    assert_eq!(r.update_time, Some(400));
}

#[test]
fn failure_keeps_retry_count() {
    let mut reg = one_stream();
    let mut r = reg.get(1).unwrap();
    r.retry_count = 2;
    r.enable = 1;
    reg.update(r).ok().unwrap();
    fail(&mut reg, 1, "x", 10);
    let r = reg.get(1).unwrap();
    assert_eq!((r.enable, r.retry_count), (0, 2));
    assert_eq!(r.reason, Some("x".to_string()));
}

#[test]
fn settle_of_deleted_record_counts_zero() {
    let mut reg = one_stream();
    reg.delete(1);
    assert_eq!(settle(&mut reg, 1, &Ok(()), 5).ok(), Some(0));
}

#[test]
fn scenario_retry_cap_reached() {
    let mut reg = one_stream();
    request_start(&mut reg, 1, 1).ok().unwrap();
    fail(&mut reg, 1, "EIO", 2);
    for round in 1..=3 {
        let intents = retry_abnormal(&mut reg, 3, WARM_UP_MS + round, 10);
        assert_eq!(intents.len(), 1);
        fail(&mut reg, 1, "EIO", 20);
    }
    assert_eq!(reg.get(1).unwrap().retry_count, 3);
    for round in 0..3 {
        let intents = retry_abnormal(&mut reg, 3, WARM_UP_MS + 100 + round, 30);
        assert!(intents.is_empty());
    }
    let r = reg.get(1).unwrap();
    assert_eq!((r.retry_count, r.enable), (3, 0));
    assert_eq!(r.reason, Some("EIO".to_string()));
}

#[test]
fn warm_up_issues_nothing() {
    let mut reg = one_stream();
    request_start(&mut reg, 1, 1).ok().unwrap();
    fail(&mut reg, 1, "EIO", 2);
    assert!(retry_abnormal(&mut reg, 3, 0, 5).is_empty());
    assert!(retry_abnormal(&mut reg, 3, WARM_UP_MS - 1, 5).is_empty());
    assert_eq!(reg.get(1).unwrap().retry_count, 0);
    assert_eq!(retry_abnormal(&mut reg, 3, WARM_UP_MS, 5).len(), 1);
}

#[test]
fn status_check_clears_running_records() {
    let mut reg = one_stream();
    insert_stream(&mut reg, "D0002".to_string(), "b".to_string(), "rtsp://b".to_string(), "rtmp://b".to_string(), 1)
        .ok()
        .unwrap();
    let mut r = reg.get(1).unwrap();
    r.enable = 1;
    r.retry_count = 2;
    r.reason = Some("old".to_string());
    reg.update(r).ok().unwrap();
    let mut r = reg.get(2).unwrap();
    r.retry_count = 1;
    r.reason = Some("EIO".to_string());
    reg.update(r).ok().unwrap();
    assert_eq!(status_check(&mut reg), vec![1]);
    let a = reg.get(1).unwrap();
    assert_eq!((a.retry_count, a.reason.clone()), (0, None));
    let b = reg.get(2).unwrap();
    assert_eq!((b.retry_count, b.reason.clone()), (1, Some("EIO".to_string())));
}

#[test]
fn scenario_resume_on_start() {
    let mut reg = one_stream();
    insert_stream(&mut reg, "D0002".to_string(), "b".to_string(), "rtsp://b".to_string(), "rtmp://b".to_string(), 1)
        .ok()
        .unwrap();
    request_start(&mut reg, 2, 5).ok().unwrap();
    assert_eq!(start_undone(&reg), vec![Intent { id: 2, desired: 1 }]);
}

#[test]
fn scenario_second_start_already_pushing() {
    let mut reg = one_stream();
    assert!(request_start(&mut reg, 1, 1).is_ok());
    let second = request_start(&mut reg, 1, 2);
    assert!(matches!(second, Err(ControlError::AlreadyPushing)));
    assert_eq!(second.err().unwrap().error().code, 10003);
}

#[test]
fn stop_requests() {
    let mut reg = one_stream();
    assert!(matches!(request_stop(&mut reg, 1, 1), Err(ControlError::NotPushing)));
    assert!(matches!(request_stop(&mut reg, 5, 1), Err(ControlError::DataNotFound)));
    request_start(&mut reg, 1, 1).ok().unwrap();
    let mut r = reg.get(1).unwrap();
    r.retry_count = 2;
    reg.update(r).ok().unwrap();
    assert_eq!(request_stop(&mut reg, 1, 9).ok(), Some(Intent { id: 1, desired: 0 }));
    let r = reg.get(1).unwrap();
    assert_eq!((r.enable, r.retry_count, r.update_time), (0, 0, Some(9)));
}

#[test]
fn update_and_delete_refused_while_running() {
    let mut reg = one_stream();
    request_start(&mut reg, 1, 1).ok().unwrap();
    let u = update_stream(&mut reg, Some(1), "K".to_string(), "n".to_string(), "rtsp://n".to_string(), "rtmp://n".to_string(), 2);
    assert!(matches!(u, Err(ControlError::AlreadyPushing)));
    assert!(matches!(delete_stream(&mut reg, 1), Err(ControlError::AlreadyPushing)));
    request_stop(&mut reg, 1, 3).ok().unwrap();
    let u = update_stream(&mut reg, Some(1), "K".to_string(), "n".to_string(), "rtsp://n".to_string(), "rtmp://n".to_string(), 4);
    assert_eq!(u.ok(), Some(1));
    assert_eq!(reg.get(1).unwrap().key, "K");
    assert_eq!(reg.get(1).unwrap().update_time, Some(4));
    assert_eq!(delete_stream(&mut reg, 1).ok(), Some(1));
    assert!(matches!(delete_stream(&mut reg, 1), Err(ControlError::DataNotFound)));
}

#[test]
fn update_errors() {
    let mut reg = one_stream();
    let u = update_stream(&mut reg, None, "K".to_string(), "n".to_string(), "a".to_string(), "b".to_string(), 2);
    assert!(matches!(u, Err(ControlError::InvalidParameter)));
    assert_eq!(u.err().unwrap().error().code, 10001);
    let u = update_stream(&mut reg, Some(7), "K".to_string(), "n".to_string(), "a".to_string(), "b".to_string(), 2);
    assert!(matches!(u, Err(ControlError::DataNotFound)));
    insert_stream(&mut reg, "D0002".to_string(), "b".to_string(), "rtsp://b".to_string(), "rtmp://b".to_string(), 1)
        .ok()
        .unwrap();
    let u = update_stream(&mut reg, Some(1), "D0002".to_string(), "n".to_string(), "a".to_string(), "b".to_string(), 2);
    assert_eq!(u.err().unwrap().error().code, 60001);
}

#[test]
fn insert_stream_fresh_record() {
    let mut reg = one_stream();
    let r: Ipc = reg.get(1).unwrap();
    assert_eq!((r.enable, r.retry_count, r.create_time), (0, 0, 100));
    assert_eq!(r.reason, None);
    let dup = insert_stream(&mut reg, "D0001".to_string(), "x".to_string(), "a".to_string(), "b".to_string(), 1);
    assert_eq!(dup.err().unwrap().error().code, 60001);
}

#[test]
fn status_check_touches_at_most_the_bounded_listing() {
    let mut reg = IpcService::new();
    for i in 0..66 {
        insert_stream(&mut reg, format!("K{}", i), "n".to_string(), "rtsp://a".to_string(), "rtmp://b".to_string(), 1)
            .ok()
            .unwrap();
        let id = reg.get_by_key(&format!("K{}", i)).unwrap().id;
        request_start(&mut reg, id, 2).ok().unwrap();
        let mut r = reg.get(id).unwrap();
        r.retry_count = 1;
        reg.update(r).ok().unwrap();
    }
    assert_eq!(status_check(&mut reg).len(), 64);
    assert_eq!(reg.get(64).unwrap().retry_count, 0);
    assert_eq!(reg.get(65).unwrap().retry_count, 1);
}

#[test]
fn control_error_messages() {
    let mut reg = one_stream();
    assert_eq!(request_start(&mut reg, 9, 1).err().unwrap().error().message, "Data not found");
    assert_eq!(request_stop(&mut reg, 1, 1).err().unwrap().error().message, "Not pushing");
    request_start(&mut reg, 1, 1).ok().unwrap();
    let e = request_start(&mut reg, 1, 2).err().unwrap().error();
    assert_eq!((e.code, e.message), (10003, "Already pushing"));
    let e = delete_stream(&mut reg, 1).err().unwrap().error();
    assert_eq!((e.code, e.message), (10003, "Already pushing"));
    let e = update_stream(&mut reg, None, "K".to_string(), "n".to_string(), "a".to_string(), "b".to_string(), 2)
        .err()
        .unwrap()
        .error();
    assert_eq!((e.code, e.message), (10001, "Invalid parameter"));
}

#[test]
fn run_numbers_wrap() {
    let reg = one_stream();
    let mut actor = MyActor::new();
    actor.next_run = u64::MAX;
    let l = actor.handle(&reg, Intent { id: 1, desired: 1 }).1.unwrap();
    assert_eq!(l.publisher.run, u64::MAX);
    assert_eq!(actor.next_run, 0);
    assert!(actor.finish(1, u64::MAX));
}
