//! The read-state ledger: a table keyed by (sender, message timestamp) that
//! records when a message was marked read, on this device or another linked
//! one. Writes of several records run in one transaction.
//!
//! Each ledger handle keeps a ghost record of the statements it has sent to
//! the store: lookups with their answers, the writes and commits that the
//! store accepted, and every rollback. Replaying that record gives the records (key and read time) this
//! handle has made durable, which is what the contracts of the writing
//! operations speak of.

use vstd::prelude::*;

verus! {

#[verifier::external_type_specification]
#[verifier::external_body]
pub struct ExConnection(rusqlite::Connection);

#[verifier::external_type_specification]
#[verifier::external_body]
pub struct ExSqlError(rusqlite::Error);

/// A ledger key: the sender's identifier and the message timestamp.
pub type ReadKey = (Seq<char>, u64);

/// A statement the ledger has sent to the store.
pub enum Step {
    /// Opening of the file, which then held these records; what they are is
    /// not known to the library.
    Opened(Map<(Seq<char>, u64), u64>),
    /// Creation of the table, when absent.
    Schema,
    /// A lookup of the key (sender, timestamp), and the answer given: read or
    /// not. It changes nothing.
    Lookup(Seq<char>, u64, bool),
    Begin,
    /// Insertion of the key (sender, timestamp) with the given read time,
    /// ignored when the key is present.
    Insert(Seq<char>, u64, u64),
    Commit,
    Rollback,
}

/// The durable records, key to read time, and the records of the open
/// transaction, if any.
pub type LedgerState = (Map<ReadKey, u64>, Option<Map<ReadKey, u64>>);

/// Effect of one statement. An insert adds its record only where neither the
/// durable records nor the open transaction hold its key: a record is never
/// updated in place.
pub open spec fn apply_step(st: LedgerState, s: Step) -> LedgerState {
    match s {
        Step::Opened(m) => (m, None),
        Step::Schema => st,
        Step::Lookup(_, _, _) => st,
        Step::Begin => (st.0, Some(Map::empty())),
        Step::Insert(sender, ts, at) => {
            let k = (sender, ts);
            match st.1 {
                Some(p) => (
                    st.0,
                    Some(
                        if st.0.contains_key(k) || p.contains_key(k) {
                            p
                        } else {
                            p.insert(k, at)
                        },
                    ),
                ),
                None => (
                    if st.0.contains_key(k) {
                        st.0
                    } else {
                        st.0.insert(k, at)
                    },
                    None,
                ),
            }
        },
        Step::Commit => match st.1 {
            Some(p) => (p.union_prefer_right(st.0), None),
            None => st,
        },
        // A failed ROLLBACK can leave the store's transaction open; the
        // records of an abandoned transaction are dropped from the model
        // either way, and the next BEGIN then fails.
        Step::Rollback => (st.0, None),
    }
}

/// Replays a record of statements: the records made durable, and those
/// written in a transaction still open at its end, if any.
pub open spec fn replay(log: Seq<Step>) -> LedgerState
    decreases log.len(),
{
    if log.len() == 0 {
        (Map::empty(), None)
    } else {
        apply_step(replay(log.drop_last()), log.last())
    }
}

pub proof fn lemma_replay_push(log: Seq<Step>, s: Step)
    ensures
        replay(log.push(s)) == apply_step(replay(log), s),
{
    assert(log.push(s).drop_last() =~= log);
}

/// Every key of `keys` with the read time `now`.
pub open spec fn stamped(keys: Seq<ReadKey>, now: u64) -> Map<ReadKey, u64> {
    Map::new(|k: ReadKey| keys.contains(k), |k: ReadKey| now)
}

/// The keys for one sender and a list of timestamps.
pub open spec fn sender_keys(sender: Seq<char>, timestamps: Seq<u64>) -> Seq<ReadKey> {
    timestamps.map_values(|t: u64| (sender, t))
}

/// One read entry of a synchronisation message from another device; either
/// field may be missing.
#[derive(Debug, Clone, PartialEq, Eq)]
pub struct SyncRead {
    pub sender_aci: Option<String>,
    pub timestamp: Option<u64>,
}

/// The keys of the entries that carry both a sender and a timestamp, in order.
pub open spec fn complete_keys(reads: Seq<SyncRead>) -> Seq<ReadKey>
    decreases reads.len(),
{
    if reads.len() == 0 {
        Seq::empty()
    } else {
        let prev = complete_keys(reads.drop_last());
        match (reads.last().sender_aci, reads.last().timestamp) {
            (Some(s), Some(t)) => prev.push((s@, t)),
            _ => prev,
        }
    }
}

/// A failure of the underlying store; writes report it, reads never do.
#[derive(Debug)]
pub enum LedgerError {
    StorageError(rusqlite::Error),
}

const CREATE_TABLE: &'static str = "CREATE TABLE IF NOT EXISTS read_sync (
                sender_aci TEXT NOT NULL,
                timestamp INTEGER NOT NULL,
                read_at INTEGER NOT NULL,
                PRIMARY KEY (sender_aci, timestamp)
            )";

const INSERT_IF_ABSENT: &'static str =
    "INSERT OR IGNORE INTO read_sync (sender_aci, timestamp, read_at) VALUES (?1, ?2, ?3)";

const LOOKUP: &'static str = "SELECT 1 FROM read_sync WHERE sender_aci = ?1 AND timestamp = ?2";

/// Relies on rusqlite::Connection::open: opens or creates the database file.
#[verifier::external_body]
fn connect(path: &str) -> (r: Result<rusqlite::Connection, rusqlite::Error>) {
    rusqlite::Connection::open(path)
}

/// Relies on rusqlite::Connection::execute_batch: runs statements without
/// parameters.
#[verifier::external_body]
fn run_statements(conn: &rusqlite::Connection, sql: &str) -> (r: Result<(), rusqlite::Error>) {
    conn.execute_batch(sql)
}

/// Relies on rusqlite::Connection::execute: runs one statement with a text and
/// two integer parameters, returning the number of rows changed.
#[verifier::external_body]
fn execute_with(
    conn: &rusqlite::Connection,
    sql: &str,
    text: &str,
    a: i64,
    b: i64,
) -> (r: Result<usize, rusqlite::Error>) {
    conn.execute(sql, (text, a, b))
}

/// Relies on rusqlite::Connection::query_row: the first column of the first
/// row that a query with a text and an integer parameter gives; an error when
/// it gives no row.
#[verifier::external_body]
fn first_value(
    conn: &rusqlite::Connection,
    sql: &str,
    text: &str,
    a: i64,
) -> (r: Result<i64, rusqlite::Error>) {
    conn.query_row(sql, (text, a), |row| row.get(0))
}

/// The integer column that holds a u64: the same 64 bits, read as signed.
fn as_column(v: u64) -> (r: i64)
    ensures
        r as int == if v <= i64::MAX {
            v as int
        } else {
            v as int - 0x1_0000_0000_0000_0000
        },
{
    if v <= 0x7fff_ffff_ffff_ffff {
        v as i64
    } else {
        let d: u64 = v - 0x8000_0000_0000_0000;
        d as i64 + i64::MIN
    }
}

/// An open ledger.
pub struct ReadLedger {
    conn: rusqlite::Connection,
    log: Ghost<Seq<Step>>,
}

impl ReadLedger {
    /// The statements this handle has sent to the store, in order: the
    /// opening, the schema statement, lookups with their answers, accepted
    /// writes and commits, and every rollback.
    pub closed spec fn history(&self) -> Seq<Step> {
        self.log@
    }

    /// The records as far as this handle knows them, key to read time: those
    /// the file held when it was opened, whatever they were, and those this
    /// handle has made durable since.
    pub open spec fn read_times(&self) -> Map<ReadKey, u64> {
        replay(self.history()).0
    }

    /// The keys of those records.
    pub open spec fn marked(&self) -> Set<ReadKey> {
        self.read_times().dom()
    }

    /// No transaction is left open.
    pub open spec fn wf(&self) -> bool {
        replay(self.history()).1 is None
    }

    fn record(&mut self, s: Ghost<Step>)
        ensures
            final(self).history() == old(self).history().push(s@),
            replay(final(self).history()) == apply_step(replay(old(self).history()), s@),
    {
        proof {
            lemma_replay_push(self.log@, s@);
        }
        self.log = Ghost(self.log@.push(s@));
    }

    fn begin(&mut self) -> (r: Result<(), rusqlite::Error>)
        ensures
            r is Ok ==> final(self).history() == old(self).history().push(Step::Begin),
            r is Err ==> final(self).history() == old(self).history(),
    {
        let r = run_statements(&self.conn, "BEGIN");
        if r.is_ok() {
            self.record(Ghost(Step::Begin));
        }
        r
    }

    fn commit(&mut self) -> (r: Result<(), rusqlite::Error>)
        ensures
            r is Ok ==> final(self).history() == old(self).history().push(Step::Commit),
            r is Err ==> final(self).history() == old(self).history(),
    {
        let r = run_statements(&self.conn, "COMMIT");
        if r.is_ok() {
            self.record(Ghost(Step::Commit));
        }
        r
    }

    /// Abandons the open transaction. Its outcome is not reported: the caller
    /// is already on an error path and reports the error that led there.
    fn rollback(&mut self)
        ensures
            final(self).history() == old(self).history().push(Step::Rollback),
    {
        let _ = run_statements(&self.conn, "ROLLBACK");
        self.record(Ghost(Step::Rollback));
    }

    fn insert(&mut self, sender: &str, timestamp: u64, now: u64) -> (r: Result<(), rusqlite::Error>)
        ensures
            r is Ok ==> final(self).history() == old(self).history().push(
                Step::Insert(sender@, timestamp, now),
            ),
            r is Err ==> final(self).history() == old(self).history(),
    {
        match execute_with(&self.conn, INSERT_IF_ABSENT, sender, as_column(timestamp), as_column(now)) {
            Ok(_) => {
                self.record(Ghost(Step::Insert(sender@, timestamp, now)));
                Ok(())
            },
            Err(e) => Err(e),
        }
    }
}

/// Opens the ledger stored at `path`, creating the file and, when absent, its
/// table (one record per key); opening again keeps what the file holds, so the
/// handle starts from the records the file held, whatever they are. Fails
/// when the file cannot be opened or the table cannot be created.
pub fn open_read_sync_db(path: &str) -> (r: Result<ReadLedger, LedgerError>)
    ensures
        r is Ok ==> r->Ok_0.history().len() == 2 && r->Ok_0.history()[0] is Opened
            && r->Ok_0.history()[1] == Step::Schema,
        r is Ok ==> r->Ok_0.wf(),
        r is Ok ==> r->Ok_0.read_times() == r->Ok_0.history()[0]->Opened_0,
{
    let conn = match connect(path) {
        Ok(c) => c,
        Err(e) => return Err(LedgerError::StorageError(e)),
    };
    match run_statements(&conn, CREATE_TABLE) {
        Ok(()) => {
            let ghost held: Map<ReadKey, u64> = arbitrary();
            let ledger = ReadLedger {
                conn,
                log: Ghost(Seq::empty().push(Step::Opened(held)).push(Step::Schema)),
            };
            proof {
                lemma_replay_push(Seq::empty(), Step::Opened(held));
                lemma_replay_push(Seq::empty().push(Step::Opened(held)), Step::Schema);
            }
            Ok(ledger)
        },
        Err(e) => Err(LedgerError::StorageError(e)),
    }
}

/// What a lookup outcome says of the key: read exactly when a row came back.
/// A failure of the store reads as unread.
pub fn lookup_answer(found: &Result<i64, rusqlite::Error>) -> (r: bool)
    ensures
        r == found is Ok,
{
    match found {
        Ok(_) => true,
        Err(_) => false,
    }
}

/// Whether the message of `sender_aci` sent at `timestamp` is known to be
/// read. Every call asks the store afresh, and the question and its answer
/// are added to the handle's history. Never fails: when the store cannot
/// answer, the message counts as unread.
pub fn is_read(ledger: &mut ReadLedger, sender_aci: &str, timestamp: u64) -> (r: bool)
    ensures
        final(ledger).history() == old(ledger).history().push(
            Step::Lookup(sender_aci@, timestamp, r),
        ),
        replay(final(ledger).history()) == replay(old(ledger).history()),
{
    let found = first_value(&ledger.conn, LOOKUP, sender_aci, as_column(timestamp));
    let r = lookup_answer(&found);
    ledger.record(Ghost(Step::Lookup(sender_aci@, timestamp, r)));
    r
}

/// The lookups of `keys` with their answers, in order.
pub open spec fn lookup_steps(keys: Seq<ReadKey>, answers: Seq<bool>) -> Seq<Step> {
    Seq::new(keys.len(), |i: int| Step::Lookup(keys[i].0, keys[i].1, answers[i]))
}

/// Lookups change no record.
pub proof fn lemma_lookups_change_nothing(log: Seq<Step>, keys: Seq<ReadKey>, answers: Seq<bool>)
    ensures
        replay(log + lookup_steps(keys, answers)) == replay(log),
    decreases keys.len(),
{
    if keys.len() == 0 {
        assert(log + lookup_steps(keys, answers) =~= log);
    } else {
        let pre = keys.drop_last();
        let k = keys.last();
        lemma_lookups_change_nothing(log, pre, answers);
        assert(log + lookup_steps(keys, answers) =~= (log + lookup_steps(pre, answers)).push(
            Step::Lookup(k.0, k.1, answers[keys.len() - 1]),
        ));
        lemma_replay_push(log + lookup_steps(pre, answers), Step::Lookup(k.0, k.1, answers[keys.len() - 1]));
    }
}

/// The records after inserting `k` at time `now` into `m` where absent.
pub open spec fn insert_if_absent(m: Map<ReadKey, u64>, k: ReadKey, now: u64) -> Map<ReadKey, u64> {
    if m.contains_key(k) {
        m
    } else {
        m.insert(k, now)
    }
}

/// Records one message as read at time `now` (seconds); a message already
/// recorded keeps its first record.
pub fn mark_as_read(ledger: &mut ReadLedger, sender_aci: &str, timestamp: u64, now: u64) -> (r:
    Result<(), LedgerError>)
    requires
        old(ledger).wf(),
    ensures
        final(ledger).wf(),
        r is Ok ==> final(ledger).history() == old(ledger).history().push(
            Step::Insert(sender_aci@, timestamp, now),
        ),
        r is Err ==> final(ledger).history() == old(ledger).history(),
        r is Ok ==> final(ledger).read_times() == insert_if_absent(
            old(ledger).read_times(),
            (sender_aci@, timestamp),
            now,
        ),
        r is Ok ==> final(ledger).marked() == old(ledger).marked().insert((sender_aci@, timestamp)),
        r is Err ==> final(ledger).read_times() == old(ledger).read_times(),
{
    let r = ledger.insert(sender_aci, timestamp, now);
    proof {
        lemma_replay_push(old(ledger).history(), Step::Insert(sender_aci@, timestamp, now));
        let m = old(ledger).read_times();
        let k = (sender_aci@, timestamp);
        assert(insert_if_absent(m, k, now).dom() =~= m.dom().insert(k));
    }
    match r {
        Ok(()) => Ok(()),
        Err(e) => Err(LedgerError::StorageError(e)),
    }
}

/// The insert statements for a list of keys, all with the read time `now`.
pub open spec fn insert_steps(keys: Seq<ReadKey>, now: u64) -> Seq<Step> {
    keys.map_values(|k: ReadKey| Step::Insert(k.0, k.1, now))
}

/// The records that a transaction writing `keys` at `now` holds while open:
/// those of its keys that were not durable before.
pub open spec fn pending_records(
    durable: Map<ReadKey, u64>,
    keys: Seq<ReadKey>,
    now: u64,
) -> Map<ReadKey, u64> {
    Map::new(|k: ReadKey| keys.contains(k) && !durable.contains_key(k), |k: ReadKey| now)
}

/// After a transaction is begun and some keys inserted, the new ones are
/// pending and nothing new is durable.
pub proof fn lemma_open_batch(log: Seq<Step>, keys: Seq<ReadKey>, now: u64)
    ensures
        replay(log.push(Step::Begin) + insert_steps(keys, now)) == (
            replay(log).0,
            Some(pending_records(replay(log).0, keys, now)),
        ),
    decreases keys.len(),
{
    let c = replay(log).0;
    if keys.len() == 0 {
        assert(log.push(Step::Begin) + insert_steps(keys, now) =~= log.push(Step::Begin));
        lemma_replay_push(log, Step::Begin);
        assert(pending_records(c, keys, now) =~= Map::<ReadKey, u64>::empty());
    } else {
        let pre = keys.drop_last();
        let k = keys.last();
        lemma_open_batch(log, pre, now);
        assert(log.push(Step::Begin) + insert_steps(keys, now) =~= (log.push(Step::Begin)
            + insert_steps(pre, now)).push(Step::Insert(k.0, k.1, now)));
        lemma_replay_push(log.push(Step::Begin) + insert_steps(pre, now), Step::Insert(k.0, k.1, now));
        assert(keys =~= pre.push(k));
        assert forall|x: ReadKey| keys.contains(x) <==> (pre.contains(x) || x == k) by {
            if keys.contains(x) {
                let j = choose|j: int| 0 <= j < keys.len() && keys[j] == x;
                if j < keys.len() - 1 {
                    assert(pre[j] == x);
                }
            }
            if pre.contains(x) {
                let j = choose|j: int| 0 <= j < pre.len() && pre[j] == x;
                assert(keys[j] == x);
            }
            if x == k {
                assert(keys[keys.len() - 1] == x);
            }
        }
        let p = pending_records(c, pre, now);
        if c.contains_key(k) || p.contains_key(k) {
            assert(pending_records(c, keys, now) =~= p);
        } else {
            assert(pending_records(c, keys, now) =~= p.insert(k, now));
        }
    }
}

/// Marking a message read twice leaves the store as marking it once does;
/// the message is read after either, and keeps the read time of its first
/// record.
pub proof fn mark_twice_is_mark_once(
    log: Seq<Step>,
    sender: Seq<char>,
    timestamp: u64,
    first: u64,
    second: u64,
)
    requires
        replay(log).1 is None,
    ensures
        replay(log.push(Step::Insert(sender, timestamp, first)).push(
            Step::Insert(sender, timestamp, second),
        )) == replay(log.push(Step::Insert(sender, timestamp, first))),
        replay(log.push(Step::Insert(sender, timestamp, first))).0.contains_key((sender, timestamp)),
        replay(log.push(Step::Insert(sender, timestamp, first))).0[(sender, timestamp)] == if replay(
            log,
        ).0.contains_key((sender, timestamp)) {
            replay(log).0[(sender, timestamp)]
        } else {
            first
        },
{
    let once = log.push(Step::Insert(sender, timestamp, first));
    lemma_replay_push(log, Step::Insert(sender, timestamp, first));
    lemma_replay_push(once, Step::Insert(sender, timestamp, second));
}

/// A batch that fails after any of its writes and is rolled back leaves none
/// of them durable: the records are those from before, and no transaction
/// stays open.
pub proof fn failed_batch_leaves_nothing(log: Seq<Step>, written: Seq<ReadKey>, now: u64)
    ensures
        replay((log.push(Step::Begin) + insert_steps(written, now)).push(Step::Rollback)) == (
            replay(log).0,
            None::<Map<ReadKey, u64>>,
        ),
{
    lemma_open_batch(log, written, now);
    lemma_replay_push(log.push(Step::Begin) + insert_steps(written, now), Step::Rollback);
}

/// A batch that commits makes every one of its keys durable: new keys with
/// the batch's read time, keys already recorded with their own.
pub proof fn committed_batch_adds_all(log: Seq<Step>, keys: Seq<ReadKey>, now: u64)
    ensures
        replay((log.push(Step::Begin) + insert_steps(keys, now)).push(Step::Commit)) == (
            stamped(keys, now).union_prefer_right(replay(log).0),
            None::<Map<ReadKey, u64>>,
        ),
        stamped(keys, now).union_prefer_right(replay(log).0).dom() == replay(log).0.dom()
            + keys.to_set(),
{
    let c = replay(log).0;
    lemma_open_batch(log, keys, now);
    lemma_replay_push(log.push(Step::Begin) + insert_steps(keys, now), Step::Commit);
    assert(pending_records(c, keys, now).union_prefer_right(c) =~= stamped(keys, now).union_prefer_right(c));
    assert(stamped(keys, now).union_prefer_right(c).dom() =~= c.dom() + keys.to_set());
}

/// How a batch of writes of `keys` at `now` ends, from the statements it
/// added to `before`: it began, wrote every key and committed; or it was
/// abandoned after some writes and rolled back; or it could not begin.
pub open spec fn batch_outcome(
    before: Seq<Step>,
    after: Seq<Step>,
    keys: Seq<ReadKey>,
    now: u64,
    committed: bool,
) -> bool {
    if committed {
        after == (before.push(Step::Begin) + insert_steps(keys, now)).push(Step::Commit)
    } else {
        after == before || exists|written: Seq<ReadKey>|
            after == (before.push(Step::Begin) + insert_steps(written, now)).push(Step::Rollback)
    }
}

/// The keys that a list of (sender, timestamp) pairs stands for.
pub open spec fn key_views(keys: Seq<(String, u64)>) -> Seq<ReadKey> {
    keys.map_values(|k: (String, u64)| (k.0@, k.1))
}

/// Records every timestamp of `timestamps` as read for `sender_aci` at time
/// `now`, in one transaction: all of them become durable or none does;
/// records already present keep their read time. The count is the number of
/// timestamps handed in, those already recorded included.
pub fn mark_sender_read(
    ledger: &mut ReadLedger,
    sender_aci: &str,
    timestamps: &[u64],
    now: u64,
) -> (r: Result<i64, LedgerError>)
    requires
        old(ledger).wf(),
        timestamps@.len() <= i64::MAX,
    ensures
        final(ledger).wf(),
        batch_outcome(old(ledger).history(), final(ledger).history(), sender_keys(sender_aci@, timestamps@), now, r is Ok),
        r is Ok ==> final(ledger).read_times() == stamped(sender_keys(sender_aci@, timestamps@), now).union_prefer_right(old(ledger).read_times()),
        r is Ok ==> final(ledger).marked() == old(ledger).marked() + sender_keys(sender_aci@, timestamps@).to_set(),
        r is Err ==> final(ledger).read_times() == old(ledger).read_times(),
        r is Ok ==> r->Ok_0 == timestamps@.len(),
{
    let ghost start = ledger.history();
    let ghost keys = sender_keys(sender_aci@, timestamps@);
    if let Err(e) = ledger.begin() {
        return Err(LedgerError::StorageError(e));
    }
    let mut count: i64 = 0;
    let mut i: usize = 0;
    while i < timestamps.len()
        invariant
            i <= timestamps@.len(),
            timestamps@.len() <= i64::MAX,
            count == i,
            keys == sender_keys(sender_aci@, timestamps@),
            start == old(ledger).history(),
            ledger.history() == start.push(Step::Begin) + insert_steps(keys.take(i as int), now),
        decreases timestamps@.len() - i,
    {
        let ts = timestamps[i];
        if let Err(e) = ledger.insert(sender_aci, ts, now) {
            ledger.rollback();
            proof {
                failed_batch_leaves_nothing(start, keys.take(i as int), now);
            }
            return Err(LedgerError::StorageError(e));
        }
        proof {
            assert(insert_steps(keys.take(i + 1), now) =~= insert_steps(keys.take(i as int), now).push(
                Step::Insert(sender_aci@, ts, now),
            ));
        }
        count = count + 1;
        i = i + 1;
    }
    proof {
        assert(keys.take(i as int) =~= keys);
    }
    match ledger.commit() {
        Ok(()) => {
            proof {
                committed_batch_adds_all(start, keys, now);
            }
            Ok(count)
        },
        Err(e) => {
            ledger.rollback();
            proof {
                failed_batch_leaves_nothing(start, keys, now);
            }
            Err(LedgerError::StorageError(e))
        },
    }
}

/// Applies the read entries of a synchronisation message at time `now` in one
/// transaction: all complete entries become durable or none does. Entries
/// without a sender or a timestamp are skipped; the count is the number of
/// complete entries.
pub fn process_sync_reads(ledger: &mut ReadLedger, reads: &[SyncRead], now: u64) -> (r: Result<
    usize,
    LedgerError,
>)
    requires
        old(ledger).wf(),
    ensures
        final(ledger).wf(),
        batch_outcome(old(ledger).history(), final(ledger).history(), complete_keys(reads@), now, r is Ok),
        r is Ok ==> final(ledger).read_times() == stamped(complete_keys(reads@), now).union_prefer_right(old(ledger).read_times()),
        r is Ok ==> final(ledger).marked() == old(ledger).marked() + complete_keys(reads@).to_set(),
        r is Err ==> final(ledger).read_times() == old(ledger).read_times(),
        r is Ok ==> r->Ok_0 == complete_keys(reads@).len(),
{
    let ghost start = ledger.history();
    if let Err(e) = ledger.begin() {
        return Err(LedgerError::StorageError(e));
    }
    let mut count: usize = 0;
    let mut i: usize = 0;
    while i < reads.len()
        invariant
            i <= reads@.len(),
            count == complete_keys(reads@.take(i as int)).len(),
            complete_keys(reads@.take(i as int)).len() <= i,
            start == old(ledger).history(),
            ledger.history() == start.push(Step::Begin) + insert_steps(
                complete_keys(reads@.take(i as int)),
                now,
            ),
        decreases reads@.len() - i,
    {
        let read = &reads[i];
        proof {
            assert(reads@.take(i + 1).drop_last() =~= reads@.take(i as int));
        }
        if let Some(sender) = &read.sender_aci {
            if let Some(ts) = read.timestamp {
                if let Err(e) = ledger.insert(sender.as_str(), ts, now) {
                    ledger.rollback();
                    proof {
                        failed_batch_leaves_nothing(start, complete_keys(reads@.take(i as int)), now);
                    }
                    return Err(LedgerError::StorageError(e));
                }
                proof {
                    assert(insert_steps(complete_keys(reads@.take(i as int)).push((sender@, ts)), now)
                        =~= insert_steps(complete_keys(reads@.take(i as int)), now).push(
                        Step::Insert(sender@, ts, now),
                    ));
                }
                count = count + 1;
            }
        }
        i = i + 1;
    }
    proof {
        assert(reads@.take(i as int) =~= reads@);
    }
    match ledger.commit() {
        Ok(()) => {
            proof {
                committed_batch_adds_all(start, complete_keys(reads@), now);
            }
            Ok(count)
        },
        Err(e) => {
            ledger.rollback();
            proof {
                failed_batch_leaves_nothing(start, complete_keys(reads@), now);
            }
            Err(LedgerError::StorageError(e))
        },
    }
}

/// Records every (sender, timestamp) pair of `keys` as read at time `now`, in
/// one transaction: all of them become durable or none does; records already
/// present keep their read time. The count is the number of pairs.
pub fn mark_keys_read(ledger: &mut ReadLedger, keys: &[(String, u64)], now: u64) -> (r: Result<
    usize,
    LedgerError,
>)
    requires
        old(ledger).wf(),
    ensures
        final(ledger).wf(),
        batch_outcome(old(ledger).history(), final(ledger).history(), key_views(keys@), now, r is Ok),
        r is Ok ==> final(ledger).read_times() == stamped(key_views(keys@), now).union_prefer_right(old(ledger).read_times()),
        r is Ok ==> final(ledger).marked() == old(ledger).marked() + key_views(keys@).to_set(),
        r is Err ==> final(ledger).read_times() == old(ledger).read_times(),
        r is Ok ==> r->Ok_0 == keys@.len(),
{
    let ghost start = ledger.history();
    let ghost views = key_views(keys@);
    if let Err(e) = ledger.begin() {
        return Err(LedgerError::StorageError(e));
    }
    let mut i: usize = 0;
    while i < keys.len()
        invariant
            i <= keys@.len(),
            views == key_views(keys@),
            start == old(ledger).history(),
            ledger.history() == start.push(Step::Begin) + insert_steps(views.take(i as int), now),
        decreases keys@.len() - i,
    {
        let sender = &keys[i].0;
        let ts = keys[i].1;
        if let Err(e) = ledger.insert(sender.as_str(), ts, now) {
            ledger.rollback();
            proof {
                failed_batch_leaves_nothing(start, views.take(i as int), now);
            }
            return Err(LedgerError::StorageError(e));
        }
        proof {
            assert(insert_steps(views.take(i + 1), now) =~= insert_steps(views.take(i as int), now).push(
                Step::Insert(sender@, ts, now),
            ));
        }
        i = i + 1;
    }
    proof {
        assert(views.take(i as int) =~= views);
    }
    let count = keys.len();
    match ledger.commit() {
        Ok(()) => {
            proof {
                committed_batch_adds_all(start, views, now);
            }
            Ok(count)
        },
        Err(e) => {
            ledger.rollback();
            proof {
                failed_batch_leaves_nothing(start, views, now);
            }
            Err(LedgerError::StorageError(e))
        },
    }
}

} // verus!
