use redis_mux::handle::{
    batch_response_count, single_response, skip_leading, slot_outcome, MultiplexedConnection,
    MuxError, MAILBOX_CAPACITY,
};
use redis_mux::sequential::{
    check_auth_reply, check_select_reply, needs_select, Connection, ConnectionLike, ExitError,
    ExitTracker, SetupError,
};
use redis_mux::value::{message_of, unsubscribe_ack, Value};

fn ack(tag: Option<&str>, name: Option<&str>, remaining: i64) -> Value {
    let t = match tag {
        Some(s) => Value::Data(s.as_bytes().to_vec()),
        None => Value::Nil,
    };
    let n = match name {
        Some(s) => Value::Data(s.as_bytes().to_vec()),
        None => Value::Nil,
    };
    Value::Bulk(vec![t, n, Value::Int(remaining)])
}

#[test]
fn exit_with_two_subscriptions() {
    let mut t = ExitTracker::new();
    assert_eq!(t.observe(&ack(Some("unsubscribe"), Some("foo"), 1)), Ok(false));
    assert!(t.received_unsub);
    assert!(!t.received_punsub);
    assert_eq!(t.observe(&ack(Some("punsubscribe"), Some("bar*"), 0)), Ok(true));
    assert!(t.received_unsub && t.received_punsub);
}

#[test]
fn exit_without_subscriptions_takes_two_reads() {
    let mut t = ExitTracker::new();
    assert_eq!(t.observe(&ack(Some("unsubscribe"), None, 0)), Ok(false));
    assert_eq!(t.observe(&ack(Some("punsubscribe"), None, 0)), Ok(true));
}

#[test]
fn exit_waits_for_count_to_reach_zero() {
    let mut t = ExitTracker::new();
    assert_eq!(t.observe(&ack(Some("punsubscribe"), Some("a*"), 2)), Ok(false));
    assert_eq!(t.observe(&ack(Some("unsubscribe"), Some("b"), 1)), Ok(false));
    assert_eq!(t.observe(&ack(Some("unsubscribe"), Some("c"), 0)), Ok(true));
}

#[test]
fn exit_rejects_other_replies() {
    let mut t = ExitTracker::new();
    assert_eq!(t.observe(&Value::Okay), Err(ExitError::UnexpectedReply));
    assert_eq!(
        t.observe(&Value::Bulk(vec![Value::Int(1), Value::Nil, Value::Int(0)])),
        Err(ExitError::UnexpectedReply)
    );
    assert!(!t.received_unsub && !t.received_punsub);
}

#[test]
fn unknown_tag_sets_neither_kind() {
    let mut t = ExitTracker::new();
    assert_eq!(t.observe(&ack(None, None, 0)), Ok(false));
    assert_eq!(t.observe(&ack(Some("message"), None, 0)), Ok(false));
    assert!(!t.received_unsub && !t.received_punsub);
}

#[test]
fn reads_unsubscribe_ack() {
    let r = unsubscribe_ack(&ack(Some("unsubscribe"), Some("foo"), 3));
    assert_eq!(r, Some((b"unsubscribe".to_vec(), 3)));
    assert_eq!(unsubscribe_ack(&Value::Bulk(vec![Value::Nil])), None);
}

#[test]
fn pubsub_flag_follows_exit_outcome() {
    let mut c = Connection::new((), 3);
    assert!(!c.needs_exit());
    let mut c = {
        let p = c.into_pubsub();
        p.into_connection()
    };
    assert!(c.needs_exit());
    assert_eq!(c.exit_pubsub::<String>(Err("eof".to_string())), Err("eof".to_string()));
    assert!(c.needs_exit());
    assert_eq!(c.exit_pubsub::<String>(Ok(())), Ok(()));
    assert!(!c.needs_exit());
    assert_eq!(c.get_db(), 3);
    c = Connection::new((), 0);
    assert_eq!(c.get_db(), 0);
}

#[test]
fn offset_count_skip() {
    let values = vec![Value::Int(1), Value::Int(2), Value::Int(3)];
    assert_eq!(batch_response_count(1, 2), Some(3));
    let kept = skip_leading(values, 1);
    assert_eq!(kept.len(), 2);
    assert!(matches!(kept[0], Value::Int(2)));
    assert!(matches!(kept[1], Value::Int(3)));
}

#[test]
fn batch_count_overflow() {
    assert_eq!(batch_response_count(usize::MAX, 1), None);
    assert_eq!(batch_response_count(usize::MAX, 0), Some(usize::MAX));
}

#[test]
fn slot_outcomes() {
    assert_eq!(slot_outcome::<i64, String>(None), Err(MuxError::Closed));
    assert_eq!(slot_outcome::<i64, String>(Some(Ok(vec![1, 2]))), Ok(vec![1, 2]));
    assert_eq!(
        slot_outcome::<i64, String>(Some(Err("x".to_string()))),
        Err(MuxError::Failed("x".to_string()))
    );
    assert_eq!(single_response::<i64, String>(Ok(vec![8])), Ok(8));
    assert_eq!(single_response::<i64, String>(Err(MuxError::Closed)), Err(MuxError::Closed));
}

#[test]
fn multiplexed_handle_keeps_db() {
    let h = MultiplexedConnection::new(7u8, 4);
    let h2 = h.clone();
    assert_eq!(h2.get_db(), 4);
    assert_eq!(h2.pipeline, 7);
}

#[test]
fn handshake_checks() {
    assert_eq!(check_auth_reply::<String>(&Ok(Value::Okay)), Ok(()));
    assert_eq!(
        check_auth_reply::<String>(&Ok(Value::Nil)),
        Err(SetupError::AuthenticationFailed)
    );
    assert_eq!(
        check_auth_reply::<String>(&Err("io".to_string())),
        Err(SetupError::AuthenticationFailed)
    );
    assert_eq!(check_select_reply::<String>(&Ok(Value::Okay)), Ok(()));
    assert_eq!(
        check_select_reply::<String>(&Ok(Value::Status("ERR".to_string()))),
        Err(SetupError::ResponseError)
    );
    assert!(needs_select(2));
    assert!(!needs_select(0));
}

#[test]
fn mailbox_applies_backpressure() {
    let (tx, mut rx) = tokio::sync::mpsc::channel::<u32>(MAILBOX_CAPACITY);
    for i in 0..MAILBOX_CAPACITY {
        assert!(tx.try_send(i as u32).is_ok());
    }
    assert!(matches!(
        tx.try_send(99),
        Err(tokio::sync::mpsc::error::TrySendError::Full(99))
    ));
    assert_eq!(rx.try_recv().ok(), Some(0));
    assert!(tx.try_send(99).is_ok());
}

fn data(s: &str) -> Value {
    Value::Data(s.as_bytes().to_vec())
}

#[test]
fn reads_channel_message() {
    let m = message_of(Value::Bulk(vec![data("message"), data("foo"), data("hi")])).unwrap();
    assert!(matches!(&m.channel, Value::Data(d) if d == b"foo"));
    assert!(matches!(&m.payload, Value::Data(d) if d == b"hi"));
    assert!(m.pattern.is_none());
}

#[test]
fn reads_pattern_message() {
    let v = Value::Bulk(vec![data("pmessage"), data("f*"), data("foo"), data("hi")]);
    let m = message_of(v).unwrap();
    assert!(matches!(&m.pattern, Some(Value::Data(d)) if d == b"f*"));
    assert!(matches!(&m.channel, Value::Data(d) if d == b"foo"));
    assert!(matches!(&m.payload, Value::Data(d) if d == b"hi"));
}

#[test]
fn other_values_are_not_messages() {
    assert!(message_of(Value::Bulk(vec![data("subscribe"), data("foo"), Value::Int(1)])).is_none());
    assert!(message_of(Value::Bulk(vec![data("pmessage"), data("f*"), data("foo")])).is_none());
    assert!(message_of(Value::Bulk(vec![data("message"), data("foo")])).is_none());
    assert!(message_of(Value::Okay).is_none());
}
