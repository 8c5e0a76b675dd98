//! The broadcast server's decision logic.
//!
//! Sockets, threads and locks live with the embedding program. This module
//! holds what can be stated and proved: the append-only message log that is
//! the single source of truth for delivery order, the per-connection
//! broadcast cursor, the classification of ingest outcomes, and the step
//! taken when a connection is accepted.

use vstd::prelude::*;

use crate::errors::MessageError;
use crate::identifier::Identifier;
use crate::identifier::IdentifierAllocator;
use crate::message::Message;

verus! {

/// The ordered, append-only sequence of messages shared by all connections
/// of one server instance. Entries are never mutated or removed.
pub struct MessageLog {
    entries: Vec<Message>,
}

impl View for MessageLog {
    type V = Seq<Message>;

    closed spec fn view(&self) -> Seq<Message> {
        self.entries@
    }
}

impl MessageLog {
    /// A log with no entries yet.
    pub fn new() -> (r: Self)
        ensures
            r@ =~= Seq::<Message>::empty(),
    {
        MessageLog { entries: Vec::new() }
    }

    /// How many messages the log holds.
    pub fn len(&self) -> (r: usize)
        ensures
            r == self@.len(),
    {
        self.entries.len()
    }

    /// Append one message at the tail; everything already in the log keeps
    /// its place.
    pub fn append(&mut self, message: Message)
        ensures
            final(self)@ == old(self)@.push(message),
    {
        self.entries.push(message);
    }

    /// The message at position `index`.
    pub fn get(&self, index: usize) -> (r: &Message)
        requires
            index < self@.len(),
        ensures
            *r == self@[index as int],
    {
        &self.entries[index]
    }
}

/// One connection's broadcast bookkeeping: how many log entries were already
/// delivered to it, and whether its broadcast path is still in sync. A
/// failed send desynchronizes the path for the rest of the run; ingest goes
/// on regardless.
pub struct ConnectionWorker {
    cursor: usize,
    synced: bool,
}

impl ConnectionWorker {
    /// How many log entries were delivered to this connection.
    pub closed spec fn spec_cursor(&self) -> usize {
        self.cursor
    }

    /// Whether the broadcast path is still in sync.
    pub closed spec fn spec_synced(&self) -> bool {
        self.synced
    }

    /// The prefix of the log this connection has observed.
    pub open spec fn delivered(&self, log: Seq<Message>) -> Seq<Message> {
        log.take(self.spec_cursor() as int)
    }

    /// A fresh connection: nothing delivered, in sync.
    pub fn new() -> (r: Self)
        ensures
            r.spec_cursor() == 0,
            r.spec_synced(),
    {
        ConnectionWorker { cursor: 0, synced: true }
    }

    /// Whether the log holds entries this connection still has to see.
    pub fn has_unseen(&self, log: &MessageLog) -> (r: bool)
        ensures
            r == (self.spec_synced() && (self.spec_cursor() as int) < log@.len()),
    {
        self.synced && self.cursor < log.len()
    }

    /// The next log entry to send to this connection, in log order; `None`
    /// once the connection is desynchronized or has seen the whole log.
    pub fn next_unsent<'a>(&self, log: &'a MessageLog) -> (r: Option<&'a Message>)
        ensures
            r is Some <==> (self.spec_synced() && (self.spec_cursor() as int) < log@.len()),
            r matches Some(m) ==> *m == log@[self.spec_cursor() as int],
    {
        if self.synced && self.cursor < log.len() {
            Some(log.get(self.cursor))
        } else {
            None
        }
    }

    /// Record one send attempt: a delivered entry advances the cursor by
    /// one; a failed send freezes the cursor and desynchronizes the path
    /// permanently.
    pub fn record_send(&mut self, delivered: bool)
        requires
            old(self).spec_cursor() < usize::MAX,
        ensures
            delivered ==> final(self).spec_cursor() == old(self).spec_cursor() + 1
                && final(self).spec_synced() == old(self).spec_synced(),
            !delivered ==> final(self).spec_cursor() == old(self).spec_cursor()
                && !final(self).spec_synced(),
    {
        if delivered {
            self.cursor += 1;
        } else {
            self.synced = false;
        }
    }
}

/// What a worker does with the outcome of one read-and-parse attempt.
#[derive(Clone, Copy, Debug, PartialEq, Eq, Structural)]
pub enum IngestAction {
    /// A whole frame arrived: append its message to the shared log.
    Append,
    /// No complete frame yet: try again on the next turn.
    NotReady,
    /// Anything else is fatal to this connection's worker alone.
    Fatal,
}

/// Decide a worker's next step from a parse outcome: a parsed message is
/// appended, a buffer still short of a whole frame is retried, and every
/// other rejection tears the one connection down.
pub fn classify_ingest(outcome: &Result<Message, MessageError>) -> (r: IngestAction)
    ensures
        outcome is Ok ==> r == IngestAction::Append,
        outcome matches Err(e) ==> r == (if e matches MessageError::TooShort(_) {
            IngestAction::NotReady
        } else {
            IngestAction::Fatal
        }),
{
    match outcome {
        Ok(_) => IngestAction::Append,
        Err(MessageError::TooShort(_)) => IngestAction::NotReady,
        Err(_) => IngestAction::Fatal,
    }
}

/// What accepting one connection does: allocate the next identifier and
/// build the welcome message that carries it to the new client.
pub fn accept_connection(alloc: &mut IdentifierAllocator) -> (r: (Identifier, Message))
    requires
        old(alloc).spec_next() >= 1,
        old(alloc).spec_next() < u32::MAX,
    ensures
        r.0@ == old(alloc).spec_next(),
        r.0@ != 0,
        final(alloc).spec_next() == old(alloc).spec_next() + 1,
        r.1.wf(),
        r.1.spec_identifier() == r.0@,
        r.1.spec_nickname() =~= Seq::<char>::empty(),
        r.1.spec_content() =~= Seq::<char>::empty(),
{
    let id = alloc.allocate();
    let welcome = Message::with_identifier(id);
    (id, welcome)
}

/// Observers never disagree: any two delivery prefixes of one log are
/// prefixes of one another, so all connections observe the log's entries in
/// the same relative order.
pub proof fn lemma_observers_consistent(log: Seq<Message>, c1: int, c2: int)
    requires
        0 <= c1 <= c2 <= log.len(),
    ensures
        log.take(c1) == log.take(c2).take(c1),
{
    assert(log.take(c1) =~= log.take(c2).take(c1));
}

/// Appending never rewrites history: a delivery prefix reads the same under
/// the grown log as under the log before the append.
pub proof fn lemma_append_preserves_prefix(log: Seq<Message>, message: Message, c: int)
    requires
        0 <= c <= log.len(),
    ensures
        log.push(message).take(c) == log.take(c),
{
    assert(log.push(message).take(c) =~= log.take(c));
}

} // verus!
