//! One step of receiving: what an incoming item does to the ledger and to the
//! tally of a receiving session. The session itself (the transport, saving
//! messages to the message store) runs outside the library and hands each
//! item here.

use vstd::prelude::*;
use crate::conversation::{account_text, uuid_text, MessageRecord};
use crate::ledger::{
    complete_keys, is_read, process_sync_reads, stamped, LedgerError, ReadKey, ReadLedger, Step, SyncRead,
};

verus! {

/// An item delivered by the transport.
#[derive(Debug, Clone, PartialEq, Eq)]
pub enum Incoming {
    /// Nothing more is queued.
    QueueEmpty,
    /// The address book was synchronised.
    Contacts,
    /// A message with user content.
    Data { sender: u128, timestamp: Option<u64>, body: Option<String> },
    /// Read entries synchronised from another device.
    SyncReads(Vec<SyncRead>),
    /// Anything else.
    Other,
}

/// What a receiving session has gathered so far.
#[derive(Debug, Clone, PartialEq, Eq)]
pub struct ReceiveTally {
    /// The content messages received, in order, with their read state.
    pub messages: Vec<MessageRecord>,
    /// How many synchronised read entries were applied.
    pub synced: usize,
    /// The queue was found empty.
    pub finished: bool,
}

/// `r` shows a received message of `sender`; its read flag is the answer of
/// the lookup that the step adds to the ledger's history: the chat is the sender's own
/// conversation, a missing timestamp reads as 0 and a missing body as empty
/// text; a received message is never outgoing.
pub open spec fn shows_received(
    r: MessageRecord,
    sender: u128,
    timestamp: Option<u64>,
    body: Option<String>,
) -> bool {
    let ts: u64 = match timestamp {
        Some(t) => t,
        None => 0,
    };
    &&& r.timestamp_ms == ts
    &&& r.chat_id@ == uuid_text(sender)
    &&& r.sender@ == uuid_text(sender)
    &&& r.timestamp == ts / 1000
    &&& r.text@ == match body {
        Some(b) => b@,
        None => Seq::<char>::empty(),
    }
    &&& !r.is_outgoing
}

/// Takes one incoming item into the session. Read entries are applied to the
/// ledger in one transaction; when that fails, its error is returned and the
/// session goes on with its tally unchanged.
pub fn on_incoming(
    ledger: &mut ReadLedger,
    tally: &mut ReceiveTally,
    item: Incoming,
    now: u64,
) -> (r: Option<LedgerError>)
    requires
        old(ledger).wf(),
        item matches Incoming::SyncReads(rs) ==> old(tally).synced + rs@.len() <= usize::MAX,
    ensures
        final(ledger).wf(),
        final(ledger).marked() == old(ledger).marked() || item is SyncReads,
        final(tally).finished == (old(tally).finished || item is QueueEmpty),
        match item {
            Incoming::Data { sender, timestamp, body } => {
                &&& r is None
                &&& final(tally).synced == old(tally).synced
                &&& final(tally).messages@.len() == old(tally).messages@.len() + 1
                &&& final(tally).messages@.drop_last() == old(tally).messages@
                &&& shows_received(final(tally).messages@.last(), sender, timestamp, body)
                &&& final(ledger).history() == old(ledger).history().push(
                    Step::Lookup(
                        uuid_text(sender),
                        final(tally).messages@.last().timestamp_ms,
                        final(tally).messages@.last().is_read,
                    ),
                )
            },
            Incoming::SyncReads(rs) => {
                &&& final(tally).messages@ == old(tally).messages@
                &&& rs@.len() == 0 ==> r is None && final(tally).synced == old(tally).synced
                    && final(ledger).history() == old(ledger).history()
                &&& r is None ==> final(ledger).read_times() == stamped(complete_keys(rs@), now).union_prefer_right(
                    old(ledger).read_times(),
                )
                &&& r is Some ==> final(ledger).read_times() == old(ledger).read_times()
                &&& r is None ==> final(tally).synced == old(tally).synced + complete_keys(rs@).len()
                    && final(ledger).marked() == old(ledger).marked() + complete_keys(rs@).to_set()
                &&& r is Some ==> final(tally).synced == old(tally).synced
                    && final(ledger).marked() == old(ledger).marked()
            },
            _ => {
                &&& r is None
                &&& final(ledger).history() == old(ledger).history()
                &&& final(tally).synced == old(tally).synced
                &&& final(tally).messages@ == old(tally).messages@
            },
        },
{
    match item {
        Incoming::QueueEmpty => {
            tally.finished = true;
            None
        },
        Incoming::Contacts => None,
        Incoming::Other => None,
        Incoming::Data { sender, timestamp, body } => {
            let ts: u64 = match timestamp {
                Some(t) => t,
                None => 0,
            };
            let sender_text = account_text(sender);
            let read = is_read(ledger, sender_text.as_str(), ts);
            let text = match body {
                Some(b) => b,
                None => String::new(),
            };
            let rec = MessageRecord {
                timestamp_ms: ts,
                chat_id: account_text(sender),
                sender: sender_text,
                timestamp: (ts / 1000) as i64,
                text,
                is_outgoing: false,
                is_read: read,
            };
            tally.messages.push(rec);
            proof {
                assert(tally.messages@.drop_last() =~= old(tally).messages@);
            }
            None
        },
        Incoming::SyncReads(rs) => {
            if rs.len() == 0 {
                proof {
                    assert(complete_keys(rs@) =~= Seq::<(Seq<char>, u64)>::empty()) by {
                        assert(rs@.len() == 0);
                    }
                    assert(old(ledger).marked() + Set::<(Seq<char>, u64)>::empty() =~= old(ledger).marked());
                    assert(stamped(complete_keys(rs@), now) =~= Map::<ReadKey, u64>::empty());
                    assert(Map::<ReadKey, u64>::empty().union_prefer_right(old(ledger).read_times())
                        =~= old(ledger).read_times());
                }
                return None;
            }
            match process_sync_reads(ledger, rs.as_slice(), now) {
                Ok(count) => {
                    proof {
                        lemma_complete_keys_len(rs@);
                    }
                    tally.synced = tally.synced + count;
                    None
                },
                Err(e) => Some(e),
            }
        },
    }
}

/// There are no more complete entries than entries.
pub proof fn lemma_complete_keys_len(reads: Seq<SyncRead>)
    ensures
        complete_keys(reads).len() <= reads.len(),
    decreases reads.len(),
{
    if reads.len() > 0 {
        lemma_complete_keys_len(reads.drop_last());
    }
}

} // verus!
