use crate::value::{ack_of, unsubscribe_ack, Value};
use vstd::prelude::*;

verus! {

/// Capabilities shared by the sequential and the multiplexed connection.
pub trait ConnectionLike {
    /// The database index this connection was bound to when it was set up.
    fn get_db(&self) -> i64;
}

/// A connection with a single caller at a time, owning its transport `T`.
///
/// `pubsub` is raised while the connection is believed to be in subscription
/// mode: the next ordinary command first runs the exit sequence again.
pub struct Connection<T> {
    pub con: T,
    pub db: i64,
    pub pubsub: bool,
}

/// A connection in subscription mode.
pub struct PubSub<T>(pub Connection<T>);

impl<T> Connection<T> {
    /// A connection that is ready for ordinary commands.
    pub fn new(con: T, db: i64) -> (r: Self)
        ensures
            r.con == con,
            r.db == db,
            !r.pubsub,
    {
        Connection { con, db, pubsub: false }
    }

    /// Converts this connection into subscription mode.
    pub fn into_pubsub(self) -> (r: PubSub<T>)
        ensures
            r.0 == self,
    {
        PubSub::new(self)
    }

    /// Whether the exit sequence must run before the next ordinary command.
    pub fn needs_exit(&self) -> (r: bool)
        ensures
            r == self.pubsub,
    {
        self.pubsub
    }

    /// Settles the flag once the exit sequence has ended: cleared when it
    /// succeeded, raised when it failed so that the next command retries it.
    /// The outcome is handed back unchanged.
    pub fn exit_pubsub<E>(&mut self, outcome: Result<(), E>) -> (r: Result<(), E>)
        ensures
            r == outcome,
            final(self).pubsub == outcome is Err,
            final(self).con == old(self).con,
            final(self).db == old(self).db,
    {
        if outcome.is_ok() {
            self.pubsub = false;
        } else {
            self.pubsub = true;
        }
        outcome
    }
}

impl<T> ConnectionLike for Connection<T> {
    fn get_db(&self) -> (r: i64)
        ensures
            r == self.db,
    {
        self.db
    }
}

impl<T> PubSub<T> {
    pub fn new(con: Connection<T>) -> (r: Self)
        ensures
            r.0 == con,
    {
        PubSub(con)
    }

    /// Hands back the connection; the caller runs the exit sequence on it before
    /// any ordinary command, so it leaves with the flag raised.
    pub fn into_connection(self) -> (r: Connection<T>)
        ensures
            r.con == self.0.con,
            r.db == self.0.db,
            r.pubsub,
    {
        let mut c = self.0;
        c.pubsub = true;
        c
    }
}

/// A reply during the exit sequence that is not an unsubscribe acknowledgement.
#[derive(PartialEq, Eq, Structural, Debug, Clone, Copy)]
pub enum ExitError {
    UnexpectedReply,
}

/// Whether a tag names a channel unsubscription (first byte `u`).
pub open spec fn is_unsub_tag(tag: Seq<u8>) -> bool {
    tag.len() > 0 && tag[0] == 117u8
}

/// Whether a tag names a pattern unsubscription (first byte `p`).
pub open spec fn is_punsub_tag(tag: Seq<u8>) -> bool {
    tag.len() > 0 && tag[0] == 112u8
}

/// Progress through the replies of the exit sequence: which kinds of
/// acknowledgement have been seen so far.
pub struct ExitTracker {
    pub received_unsub: bool,
    pub received_punsub: bool,
}

impl ExitTracker {
    pub fn new() -> (r: Self)
        ensures
            !r.received_unsub,
            !r.received_punsub,
    {
        ExitTracker { received_unsub: false, received_punsub: false }
    }

    /// Takes one reply. Returns `Ok(true)` when the exit is complete: both kinds
    /// have been acknowledged and this reply leaves no subscription; `Ok(false)`
    /// when more replies must be read; an error when the reply has another shape.
    pub fn observe(&mut self, reply: &Value) -> (r: Result<bool, ExitError>)
        ensures
            match ack_of(*reply) {
                None => r == Err::<bool, ExitError>(ExitError::UnexpectedReply) && *final(self)
                    == *old(self),
                Some((tag, n)) => {
                    &&& final(self).received_unsub == (old(self).received_unsub || is_unsub_tag(
                        tag,
                    ))
                    &&& final(self).received_punsub == (old(self).received_punsub
                        || is_punsub_tag(tag))
                    &&& r == Ok::<bool, ExitError>(
                        final(self).received_unsub && final(self).received_punsub && n == 0,
                    )
                },
            },
    {
        match unsubscribe_ack(reply) {
            None => Err(ExitError::UnexpectedReply),
            Some((tag, remaining)) => {
                if tag.len() > 0 {
                    if tag[0] == 117u8 {
                        self.received_unsub = true;
                    } else if tag[0] == 112u8 {
                        self.received_punsub = true;
                    }
                }
                Ok(self.received_unsub && self.received_punsub && remaining == 0)
            },
        }
    }
}

/// Why setting up a connection failed.
#[derive(PartialEq, Eq, Structural, Debug, Clone, Copy)]
pub enum SetupError {
    /// The address does not resolve to any host.
    InvalidClientConfig,
    /// The server did not accept the credential.
    AuthenticationFailed,
    /// The server refused to switch to the configured database.
    ResponseError,
}

/// The reply to the credential command: only a plain acknowledgement lets the
/// handshake go on.
pub fn check_auth_reply<E>(reply: &Result<Value, E>) -> (r: Result<(), SetupError>)
    ensures
        r == if reply matches Ok(Value::Okay) {
            Ok::<(), SetupError>(())
        } else {
            Err(SetupError::AuthenticationFailed)
        },
{
    match reply {
        Ok(Value::Okay) => Ok(()),
        _ => Err(SetupError::AuthenticationFailed),
    }
}

/// Whether the handshake has to switch database: only for a non-default index.
pub fn needs_select(db: i64) -> (r: bool)
    ensures
        r == (db != 0),
{
    db != 0
}

/// The reply to the database switch: only a plain acknowledgement lets the
/// handshake go on.
pub fn check_select_reply<E>(reply: &Result<Value, E>) -> (r: Result<(), SetupError>)
    ensures
        r == if reply matches Ok(Value::Okay) {
            Ok::<(), SetupError>(())
        } else {
            Err(SetupError::ResponseError)
        },
{
    match reply {
        Ok(Value::Okay) => Ok(()),
        _ => Err(SetupError::ResponseError),
    }
}

} // verus!
