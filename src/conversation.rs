//! Thread-level operations: overlaying read state onto a thread's messages,
//! and marking a thread's incoming messages read.

use vstd::prelude::*;
use vstd::arithmetic::power::pow;
use crate::ledger::{
    batch_outcome, is_read, key_views, lemma_lookups_change_nothing, lookup_steps, mark_keys_read, replay,
    stamped, LedgerError, ReadKey, ReadLedger, Step,
};

verus! {

/// A message of a thread as the message store gives it.
#[derive(Debug, Clone, PartialEq, Eq)]
pub struct StoredMessage {
    /// The sending account.
    pub sender: u128,
    /// Whether the message carries user content (not a receipt or a control message).
    pub is_data: bool,
    /// Sending time in milliseconds, when the message states it.
    pub timestamp: Option<u64>,
    pub body: Option<String>,
}

/// A message as shown to the user, with its read state.
#[derive(Debug, Clone, PartialEq, Eq)]
pub struct MessageRecord {
    pub timestamp_ms: u64,
    pub chat_id: String,
    pub sender: String,
    /// Sending time in whole seconds.
    pub timestamp: i64,
    pub text: String,
    pub is_outgoing: bool,
    pub is_read: bool,
}

/// The hexadecimal digits, lower case.
pub open spec fn hex_digits() -> Seq<char> {
    seq!['0', '1', '2', '3', '4', '5', '6', '7', '8', '9', 'a', 'b', 'c', 'd', 'e', 'f']
}

/// Which of the 32 digits, most significant first, stands at position `i` of
/// the hyphenated form.
pub open spec fn digit_at(i: int) -> int {
    if i < 8 {
        i
    } else if i < 13 {
        i - 1
    } else if i < 18 {
        i - 2
    } else if i < 23 {
        i - 3
    } else {
        i - 4
    }
}

/// The `d`-th hexadecimal digit of `id`, most significant first.
pub open spec fn nibble(id: u128, d: int) -> int {
    (id as int / pow(16, (31 - d) as nat)) % 16
}

/// The canonical text of an account identifier: its 32 hexadecimal digits in
/// lower case, most significant first, in groups of 8, 4, 4, 4 and 12 joined
/// by hyphens.
pub open spec fn uuid_text(id: u128) -> Seq<char> {
    Seq::new(
        36,
        |i: int|
            if i == 8 || i == 13 || i == 18 || i == 23 {
                '-'
            } else {
                hex_digits()[nibble(id, digit_at(i))]
            },
    )
}

/// Relies on uuid::Uuid::from_u128 and the Display of uuid::Uuid, which
/// writes the hyphenated lower-case form.
#[verifier::external_body]
pub(crate) fn account_text(id: u128) -> (r: String)
    ensures
        r@ == uuid_text(id),
{
    uuid::Uuid::from_u128(id).to_string()
}

/// The ledger keys of the messages from other accounts that have content and
/// a timestamp, in order.
pub open spec fn incoming_keys(msgs: Seq<StoredMessage>, me: u128) -> Seq<ReadKey>
    decreases msgs.len(),
{
    if msgs.len() == 0 {
        Seq::empty()
    } else {
        let prev = incoming_keys(msgs.drop_last(), me);
        let m = msgs.last();
        match m.timestamp {
            Some(t) => if m.is_data && m.sender != me {
                prev.push((uuid_text(m.sender), t))
            } else {
                prev
            },
            None => prev,
        }
    }
}

/// The keys whose answer says unread, in order.
pub open spec fn unread_keys(keys: Seq<ReadKey>, answers: Seq<bool>) -> Seq<ReadKey>
    decreases keys.len(),
{
    if keys.len() == 0 {
        Seq::empty()
    } else {
        let prev = unread_keys(keys.drop_last(), answers);
        if answers[keys.len() - 1] {
            prev
        } else {
            prev.push(keys.last())
        }
    }
}

/// Keeps the pairs whose answer (one per pair, whether it is known read) says
/// unread.
pub fn select_unread(keys: &[(String, u64)], answers: &[bool]) -> (r: Vec<(String, u64)>)
    requires
        answers@.len() == keys@.len(),
    ensures
        key_views(r@) == unread_keys(key_views(keys@), answers@),
{
    let mut out: Vec<(String, u64)> = Vec::new();
    let mut i: usize = 0;
    while i < keys.len()
        invariant
            i <= keys@.len(),
            answers@.len() == keys@.len(),
            key_views(out@) == unread_keys(key_views(keys@).take(i as int), answers@),
        decreases keys@.len() - i,
    {
        proof {
            assert(key_views(keys@).take(i + 1).drop_last() =~= key_views(keys@).take(i as int));
        }
        if !answers[i] {
            let ghost before = out@;
            out.push((keys[i].0.clone(), keys[i].1));
            proof {
                assert(key_views(out@) =~= key_views(before).push((keys@[i as int].0@, keys@[i as int].1)));
            }
        }
        i = i + 1;
    }
    proof {
        assert(key_views(keys@).take(i as int) =~= key_views(keys@));
    }
    out
}

/// Marks read at time `now`, in one transaction, every incoming message of a
/// thread (from another account, with content and a timestamp) that the ledger
/// does not answer as read. Returns how many it marked. Whatever the ledger
/// answered, the keys written are exactly the incoming ones answered unread.
pub fn mark_thread_read(
    ledger: &mut ReadLedger,
    messages: &[StoredMessage],
    me: u128,
    now: u64,
) -> (r: Result<usize, LedgerError>)
    requires
        old(ledger).wf(),
    ensures
        final(ledger).wf(),
        incoming_keys(messages@, me).len() == 0 ==> r == Ok::<usize, LedgerError>(0)
            && final(ledger).history() == old(ledger).history(),
        r is Err ==> final(ledger).read_times() == old(ledger).read_times(),
        exists|answers: Seq<bool>|
            answers.len() == incoming_keys(messages@, me).len() && #[trigger] thread_marked(
                old(ledger).history() + lookup_steps(incoming_keys(messages@, me), answers),
                final(ledger).history(),
                old(ledger).read_times(),
                final(ledger).read_times(),
                unread_keys(incoming_keys(messages@, me), answers),
                now,
                r,
            ),
{
    let mut cand: Vec<(String, u64)> = Vec::new();
    let mut i: usize = 0;
    while i < messages.len()
        invariant
            i <= messages@.len(),
            key_views(cand@) == incoming_keys(messages@.take(i as int), me),
        decreases messages@.len() - i,
    {
        let m = &messages[i];
        proof {
            assert(messages@.take(i + 1).drop_last() =~= messages@.take(i as int));
        }
        if m.is_data && m.sender != me {
            if let Some(ts) = m.timestamp {
                let ghost before = cand@;
                let sender = account_text(m.sender);
                cand.push((sender, ts));
                proof {
                    assert(key_views(cand@) =~= key_views(before).push((uuid_text(m.sender), ts)));
                }
            }
        }
        i = i + 1;
    }
    proof {
        assert(messages@.take(i as int) =~= messages@);
    }
    let ghost kv = key_views(cand@);
    let mut answers: Vec<bool> = Vec::new();
    let mut j: usize = 0;
    while j < cand.len()
        invariant
            j <= cand@.len(),
            answers@.len() == j,
            kv == key_views(cand@),
            ledger.history() == old(ledger).history() + lookup_steps(kv.take(j as int), answers@),
            replay(ledger.history()) == replay(old(ledger).history()),
        decreases cand@.len() - j,
    {
        let ghost before = ledger.history();
        let a = is_read(ledger, cand[j].0.as_str(), cand[j].1);
        let ghost prev_answers = answers@;
        answers.push(a);
        proof {
            assert(lookup_steps(kv.take(j + 1), answers@) =~= lookup_steps(kv.take(j as int), prev_answers).push(
                Step::Lookup(cand@[j as int].0@, cand@[j as int].1, a),
            ));
            assert(old(ledger).history() + lookup_steps(kv.take(j + 1), answers@) =~= before.push(
                Step::Lookup(cand@[j as int].0@, cand@[j as int].1, a),
            ));
        }
        j = j + 1;
    }
    proof {
        assert(kv.take(j as int) =~= kv);
        lemma_lookups_change_nothing(old(ledger).history(), kv, answers@);
    }
    let to_mark = select_unread(cand.as_slice(), answers.as_slice());
    let ghost keys = unread_keys(incoming_keys(messages@, me), answers@);
    if to_mark.len() == 0 {
        proof {
            assert(keys.len() == 0);
            assert(stamped(keys, now) =~= Map::<ReadKey, u64>::empty());
            assert(old(ledger).read_times() =~= Map::<ReadKey, u64>::empty().union_prefer_right(
                old(ledger).read_times(),
            ));
            assert(thread_marked(
                old(ledger).history() + lookup_steps(incoming_keys(messages@, me), answers@),
                ledger.history(),
                old(ledger).read_times(),
                ledger.read_times(),
                keys,
                now,
                Ok::<usize, LedgerError>(0),
            ));
        }
        return Ok(0);
    }
    let r = mark_keys_read(ledger, to_mark.as_slice(), now);
    proof {
        assert(thread_marked(
            old(ledger).history() + lookup_steps(incoming_keys(messages@, me), answers@),
            ledger.history(),
            old(ledger).read_times(),
            ledger.read_times(),
            keys,
            now,
            r,
        ));
    }
    r
}

/// What marking the keys `keys` of a thread did: on success the count is
/// theirs and each new key carries `now`; with keys, the statements are those
/// of one batch; with none, the ledger was not touched.
pub open spec fn thread_marked(
    before: Seq<Step>,
    after: Seq<Step>,
    times_before: Map<ReadKey, u64>,
    times_after: Map<ReadKey, u64>,
    keys: Seq<ReadKey>,
    now: u64,
    r: Result<usize, LedgerError>,
) -> bool {
    &&& r is Ok ==> r->Ok_0 == keys.len() && times_after == stamped(keys, now).union_prefer_right(
        times_before,
    )
    &&& keys.len() > 0 ==> batch_outcome(before, after, keys, now, r is Ok)
    &&& keys.len() == 0 ==> r == Ok::<usize, LedgerError>(0) && after == before
}

/// The messages that carry user content, in order.
pub open spec fn data_messages(msgs: Seq<StoredMessage>) -> Seq<StoredMessage>
    decreases msgs.len(),
{
    if msgs.len() == 0 {
        Seq::empty()
    } else {
        let prev = data_messages(msgs.drop_last());
        if msgs.last().is_data {
            prev.push(msgs.last())
        } else {
            prev
        }
    }
}

/// `r` shows the message `m` of the chat `chat_id`: a missing timestamp reads
/// as 0 and a missing body as empty text; whole seconds are the milliseconds
/// divided by 1000; a message is outgoing when `me` sent it.
pub open spec fn shows(r: MessageRecord, m: StoredMessage, chat_id: Seq<char>, me: u128) -> bool {
    let ts: u64 = match m.timestamp {
        Some(t) => t,
        None => 0,
    };
    &&& r.timestamp_ms == ts
    &&& r.chat_id@ == chat_id
    &&& r.sender@ == uuid_text(m.sender)
    &&& r.timestamp == ts / 1000
    &&& r.text@ == match m.body {
        Some(b) => b@,
        None => Seq::<char>::empty(),
    }
    &&& r.is_outgoing == (m.sender == me)
}

/// The lookups behind a list of shown messages: each one's key and the read
/// flag shown, in order.
pub open spec fn shown_lookups(r: Seq<MessageRecord>) -> Seq<Step> {
    Seq::new(r.len(), |j: int| Step::Lookup(r[j].sender@, r[j].timestamp_ms, r[j].is_read))
}

/// Shows the content messages among the first `max_results` messages of a
/// thread, in order, each with its read state as the ledger answers it.
pub fn list_messages(
    ledger: &mut ReadLedger,
    chat_id: &str,
    messages: &[StoredMessage],
    me: u128,
    max_results: usize,
) -> (r: Vec<MessageRecord>)
    ensures
        ({
            let shown = data_messages(
                messages@.take(if max_results < messages@.len() { max_results as int } else { messages@.len() as int }),
            );
            &&& r@.len() == shown.len()
            &&& forall|j: int| 0 <= j < r@.len() ==> shows(#[trigger] r@[j], shown[j], chat_id@, me)
        }),
        final(ledger).history() == old(ledger).history() + shown_lookups(r@),
        replay(final(ledger).history()) == replay(old(ledger).history()),
{
    let n: usize = if max_results < messages.len() {
        max_results
    } else {
        messages.len()
    };
    let mut out: Vec<MessageRecord> = Vec::new();
    let mut i: usize = 0;
    while i < n
        invariant
            n <= messages@.len(),
            i <= n,
            out@.len() == data_messages(messages@.take(i as int)).len(),
            forall|j: int|
                0 <= j < out@.len() ==> shows(
                    #[trigger] out@[j],
                    data_messages(messages@.take(i as int))[j],
                    chat_id@,
                    me,
                ),
            ledger.history() == old(ledger).history() + shown_lookups(out@),
            replay(ledger.history()) == replay(old(ledger).history()),
        decreases n - i,
    {
        let m = &messages[i];
        proof {
            assert(messages@.take(i + 1).drop_last() =~= messages@.take(i as int));
        }
        if m.is_data {
            let ts: u64 = match m.timestamp {
                Some(t) => t,
                None => 0,
            };
            let text = match &m.body {
                Some(b) => b.clone(),
                None => String::new(),
            };
            let sender = account_text(m.sender);
            let ghost before = ledger.history();
            let read = is_read(ledger, sender.as_str(), ts);
            let rec = MessageRecord {
                timestamp_ms: ts,
                chat_id: String::from_str(chat_id),
                sender,
                timestamp: (ts / 1000) as i64,
                text,
                is_outgoing: m.sender == me,
                is_read: read,
            };
            let ghost prev = out@;
            out.push(rec);
            proof {
                assert(shown_lookups(out@) =~= shown_lookups(prev).push(
                    Step::Lookup(out@.last().sender@, ts, read),
                ));
                assert(old(ledger).history() + shown_lookups(out@) =~= before.push(
                    Step::Lookup(out@.last().sender@, ts, read),
                ));
            }
        }
        i = i + 1;
    }
    out
}

} // verus!
