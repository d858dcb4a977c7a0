use vstd::prelude::*;

verus! {

/// A decoded response value of the wire protocol.
#[derive(Debug)]
pub enum Value {
    Nil,
    Int(i64),
    Data(Vec<u8>),
    Bulk(Vec<Value>),
    Status(String),
    Okay,
}

/// The bytes a value stands for when read as a byte string: the payload of a
/// bulk string, nothing for nil.
pub open spec fn bytes_of(v: Value) -> Option<Seq<u8>> {
    match v {
        Value::Nil => Some(Seq::empty()),
        Value::Data(d) => Some(d@),
        _ => None,
    }
}

/// An acknowledgement of an unsubscribe command: a three-element record of a
/// kind tag, the name removed (read as anything) and the count of subscriptions
/// left. Gives the tag and the count, or nothing if the value has another shape.
pub open spec fn ack_of(v: Value) -> Option<(Seq<u8>, int)> {
    match v {
        Value::Bulk(items) => if items@.len() == 3 {
            match (bytes_of(items@[0]), items@[2]) {
                (Some(tag), Value::Int(n)) => Some((tag, n as int)),
                _ => None,
            }
        } else {
            None
        },
        _ => None,
    }
}

fn read_bytes(v: &Value) -> (r: Option<Vec<u8>>)
    ensures
        match bytes_of(*v) {
            None => r is None,
            Some(b) => r matches Some(x) && x@ == b,
        },
{
    match v {
        Value::Nil => Some(Vec::new()),
        Value::Data(d) => Some(d.clone()),
        _ => None,
    }
}

/// Reads an unsubscribe acknowledgement: its tag bytes and remaining count.
pub fn unsubscribe_ack(v: &Value) -> (r: Option<(Vec<u8>, i64)>)
    ensures
        match ack_of(*v) {
            None => r is None,
            Some((tag, n)) => r matches Some((t, m)) && t@ == tag && m as int == n,
        },
{
    match v {
        Value::Bulk(items) => {
            if items.len() == 3 {
                let tag = read_bytes(&items[0]);
                match (tag, &items[2]) {
                    (Some(t), Value::Int(n)) => Some((t, *n)),
                    _ => None,
                }
            } else {
                None
            }
        },
        _ => None,
    }
}

/// A message pushed to a connection in subscription mode.
#[derive(Debug)]
pub struct Msg {
    pub payload: Value,
    pub channel: Value,
    /// The pattern that matched, for a pattern subscription.
    pub pattern: Option<Value>,
}

/// The bytes of `message`.
pub open spec fn message_word() -> Seq<u8> {
    seq![109u8, 101u8, 115u8, 115u8, 97u8, 103u8, 101u8]
}

/// The bytes of `pmessage`.
pub open spec fn pmessage_word() -> Seq<u8> {
    seq![112u8] + message_word()
}

/// A value that is the byte string `w`.
pub open spec fn is_word(v: Value, w: Seq<u8>) -> bool {
    v matches Value::Data(d) && d@ == w
}

fn word_matches(v: &Value, w: &Vec<u8>) -> (r: bool)
    ensures
        r == is_word(*v, w@),
{
    match v {
        Value::Data(d) => {
            if d.len() != w.len() {
                assert(d@.len() != w@.len());
                return false;
            }
            let mut i: usize = 0;
            while i < d.len()
                invariant
                    *v matches Value::Data(x) && x@ == d@,
                    d@.len() == w@.len(),
                    0 <= i <= d@.len(),
                    forall|j: int| 0 <= j < i ==> d@[j] == w@[j],
                decreases d@.len() - i,
            {
                if d[i] != w[i] {
                    assert(d@[i as int] != w@[i as int]);
                    return false;
                }
                i = i + 1;
            }
            assert(d@ =~= w@);
            true
        },
        _ => false,
    }
}

/// Reads a pushed message: `[message, channel, payload]`, or
/// `[pmessage, pattern, channel, payload]`. Any other value is not a message.
pub fn message_of(v: Value) -> (r: Option<Msg>)
    ensures
        match v {
            Value::Bulk(items) => if items@.len() >= 3 && is_word(items@[0], message_word()) {
                r matches Some(m) && m.pattern is None && m.channel == items@[1] && m.payload
                    == items@[2]
            } else if items@.len() >= 4 && is_word(items@[0], pmessage_word()) {
                r matches Some(m) && m.pattern == Some(items@[1]) && m.channel == items@[2]
                    && m.payload == items@[3]
            } else {
                r is None
            },
            _ => r is None,
        },
{
    match v {
        Value::Bulk(mut items) => {
            let message: Vec<u8> = vec![109u8, 101u8, 115u8, 115u8, 97u8, 103u8, 101u8];
            let pmessage: Vec<u8> = vec![112u8, 109u8, 101u8, 115u8, 115u8, 97u8, 103u8, 101u8];
            assert(message@ =~= message_word());
            assert(pmessage@ =~= pmessage_word());
            let ghost all = items@;
            if items.len() >= 3 && word_matches(&items[0], &message) {
                let payload = items.remove(2);
                let channel = items.remove(1);
                Some(Msg { payload, channel, pattern: None })
            } else if items.len() >= 4 && word_matches(&items[0], &pmessage) {
                let payload = items.remove(3);
                let channel = items.remove(2);
                let pattern = items.remove(1);
                Some(Msg { payload, channel, pattern: Some(pattern) })
            } else {
                None
            }
        },
        _ => None,
    }
}

} // verus!
