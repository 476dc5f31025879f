//! Persisting records in batches: a batch is gathered from a channel,
//! turned into one script of insert queries, and run as a transaction that
//! is retried a few times before the work is given up.
use crossbeam::channel::Receiver;
use vstd::prelude::*;

verus! {

#[verifier::external_type_specification]
#[verifier::external_body]
#[verifier::reject_recursive_types(T)]
pub struct ExCrossbeamReceiver<T>(Receiver<T>);

/// How many times a transaction is tried.
pub const MAX_RETRY: usize = 3;

/// A batch grows past this many records only by the one that ends it.
pub const MAX_BATCH_LEN: usize = 100;

/// A record that can be written to the database.
pub trait Persistable {
    /// The query that inserts this record.
    spec fn insert_query(&self) -> Seq<char>;

    /// The text that identifies this record in the log.
    spec fn indicator(&self) -> Seq<char>;

    /// The key this record is inserted under.
    spec fn insert_key(&self) -> Seq<char>;

    /// The value this record inserts.
    spec fn insert_value(&self) -> Seq<char>;

    /// The key this record is inserted under.
    fn get_insert_key(&self) -> (res: String)
        ensures
            res@ == self.insert_key();

    /// The value this record inserts.
    fn get_insert_value(&self) -> (res: String)
        ensures
            res@ == self.insert_value();

    /// The query that inserts this record.
    fn generate_batch_insert_query(&self) -> (res: String)
        ensures
            res@ == self.insert_query();

    /// The text that identifies this record in the log.
    fn get_indicator(&self) -> (res: String)
        ensures
            res@ == self.indicator();
}

/// A record given by its key, value, insert query and log label.
pub struct PersistRecord {
    pub key: String,
    pub value: String,
    pub query: String,
    pub indicator: String,
}

impl Persistable for PersistRecord {
    open spec fn insert_query(&self) -> Seq<char> {
        self.query@
    }

    open spec fn indicator(&self) -> Seq<char> {
        self.indicator@
    }

    open spec fn insert_key(&self) -> Seq<char> {
        self.key@
    }

    open spec fn insert_value(&self) -> Seq<char> {
        self.value@
    }

    fn get_insert_key(&self) -> (res: String) {
        self.key.clone()
    }

    fn get_insert_value(&self) -> (res: String) {
        self.value.clone()
    }

    fn generate_batch_insert_query(&self) -> (res: String) {
        self.query.clone()
    }

    fn get_indicator(&self) -> (res: String) {
        self.indicator.clone()
    }
}

/// The error a transaction gives up with after its tries.
#[derive(Debug)]
pub struct RetryErr {
    pub message: String,
    pub retries: usize,
}

/// The error a connection lookup fails with.
#[derive(Debug)]
pub enum PostgresConnectionError {
    /// No configuration is known for the client.
    ConfigNotFoundErr { key: String },
}

/// The parts joined with `sep` between each two.
pub open spec fn joined(parts: Seq<Seq<char>>, sep: Seq<char>) -> Seq<char>
    decreases parts.len(),
{
    if parts.len() == 0 {
        Seq::empty()
    } else if parts.len() == 1 {
        parts[0]
    } else {
        joined(parts.drop_last(), sep) + sep + parts.last()
    }
}

/// The text of each string.
pub open spec fn texts(v: Seq<String>) -> Seq<Seq<char>> {
    v.map_values(|s: String| s@)
}

/// Joins the queries with `;` between each two.
fn join_with_semicolons(queries: &[String]) -> (res: String)
    ensures
        res@ == joined(texts(queries@), seq![';']),
{
    let n = queries.len();
    if n == 0 {
        return String::new();
    }
    let mut res = queries[0].clone();
    let mut i: usize = 1;
    assert(texts(queries@).take(1) =~= seq![queries@[0]@]);
    while i < n
        invariant
            n == queries@.len(),
            1 <= i <= n,
            res@ == joined(texts(queries@).take(i as int), seq![';']),
        decreases n - i,
    {
        res.append(";");
        res.append(queries[i].as_str());
        let ghost t = texts(queries@).take(i + 1);
        assert(t.drop_last() =~= texts(queries@).take(i as int));
        assert(t.last() == queries@[i as int]@);
        assert(";"@ =~= seq![';']) by {
            reveal_strlit(";");
        }
        i = i + 1;
    }
    assert(texts(queries@).take(n as int) =~= texts(queries@));
    res
}

/// Takes the next record waiting in the channel, if one waits
/// (`Receiver::try_recv`). What comes back depends on the other threads;
/// nothing is claimed of it.
#[verifier::external_body]
fn channel_try_recv<T>(rx: &Receiver<T>) -> (res: Option<T>) {
    rx.try_recv().ok()
}

/// One step of gathering a batch, given what one look at the channel
/// found: a record found is added to the batch, and the gathering goes on
/// while the batch has not grown past the limit; nothing found ends it.
pub fn collect_step<T>(buffer: &mut Vec<T>, received: Option<T>) -> (more: bool)
    ensures
        received matches Some(m) ==> final(buffer)@ == old(buffer)@.push(m)
            && more == (final(buffer)@.len() <= MAX_BATCH_LEN),
        received is None ==> final(buffer)@ == old(buffer)@ && !more,
{
    match received {
        Some(m) => {
            buffer.push(m);
            buffer.len() <= MAX_BATCH_LEN
        },
        None => false,
    }
}

/// Gathers a batch: the record already received, then those waiting in the
/// channel, each added by `collect_step`, until none waits or the batch has
/// grown past the limit.
pub fn collect_batch<T>(first: T, receiver: &Receiver<T>) -> (res: Vec<T>)
    ensures
        1 <= res@.len() <= MAX_BATCH_LEN + 1,
        res@[0] == first,
{
    let mut buffer: Vec<T> = Vec::new();
    buffer.push(first);
    loop
        invariant_except_break
            1 <= buffer@.len() <= MAX_BATCH_LEN,
            buffer@[0] == first,
        ensures
            1 <= buffer@.len() <= MAX_BATCH_LEN + 1,
            buffer@[0] == first,
        decreases MAX_BATCH_LEN + 1 - buffer@.len(),
    {
        let received = channel_try_recv(receiver);
        if !collect_step(&mut buffer, received) {
            break;
        }
    }
    buffer
}

/// The insert queries of the records.
pub open spec fn batch_queries<P: Persistable>(msgs: Seq<P>) -> Seq<Seq<char>> {
    msgs.map_values(|m: P| m.insert_query())
}

/// The script for a batch, with the indicators of its first and last
/// records: the insert queries of the records in order, joined by `;`.
pub fn prepare_batch<P: Persistable>(msgs: &Vec<P>) -> (res: (String, String, String))
    requires
        msgs@.len() > 0,
    ensures
        res.0@ == joined(batch_queries(msgs@), seq![';']),
        res.1@ == msgs@[0].indicator(),
        res.2@ == msgs@.last().indicator(),
{
    let begin_info = msgs[0].get_indicator();
    let end_info = msgs[msgs.len() - 1].get_indicator();
    let mut queries: Vec<String> = Vec::new();
    let n = msgs.len();
    let mut i: usize = 0;
    while i < n
        invariant
            n == msgs@.len(),
            i <= n,
            texts(queries@) == batch_queries(msgs@.subrange(0, i as int)),
        decreases n - i,
    {
        let q = msgs[i].generate_batch_insert_query();
        let ghost before = queries@;
        queries.push(q);
        assert(q@ == msgs@[i as int].insert_query());
        assert(msgs@.subrange(0, i + 1) =~= msgs@.subrange(0, i as int).push(msgs@[i as int]));
        assert(texts(queries@) =~= texts(before).push(q@));
        assert(batch_queries(msgs@.subrange(0, i + 1)) =~= batch_queries(msgs@.subrange(0, i as int)).push(msgs@[i as int].insert_query()));
        i = i + 1;
    }
    assert(msgs@.subrange(0, n as int) =~= msgs@);
    let script = join_with_semicolons(queries.as_slice());
    (script, begin_info, end_info)
}

/// How one try of a transaction went.
#[derive(Clone, Copy, Debug, PartialEq, Eq, Structural)]
pub enum TryOutcome {
    /// No connection could be had: the error ends the work at once.
    NoConnection,
    /// The transaction could not be opened, run or committed.
    Failed,
    /// The transaction was committed.
    Committed,
}

/// What to do after a try of a transaction.
#[derive(Debug)]
pub enum RetryStep {
    /// The work is done.
    Done,
    /// Hand back the connection error.
    ConnectionError,
    /// Wait, then make try number `next`.
    Retry { next: usize },
    /// Every try failed.
    GiveUp(RetryErr),
}

/// The message a transaction gives up with.
pub open spec fn give_up_message() -> Seq<char> {
    seq!['P', 'G', ' ', 't', 'r', 'a', 'n', 's', 'a', 'c', 't', 'i', 'o', 'n']
}

/// The decision after try number `retry` (from 0) of a transaction: a
/// commit ends the work, a missing connection is an error at once, and a
/// failure is tried again until `MAX_RETRY` tries have been made.
pub fn transaction_step(retry: usize, outcome: TryOutcome) -> (res: RetryStep)
    requires
        retry < MAX_RETRY,
    ensures
        outcome == TryOutcome::Committed ==> res == RetryStep::Done,
        outcome == TryOutcome::NoConnection ==> res == RetryStep::ConnectionError,
        outcome == TryOutcome::Failed && retry + 1 < MAX_RETRY ==> res == (RetryStep::Retry { next: (retry + 1) as usize }),
        outcome == TryOutcome::Failed && retry + 1 == MAX_RETRY ==> (res matches RetryStep::GiveUp(e)
            && e.message@ == give_up_message() && e.retries == MAX_RETRY),
{
    match outcome {
        TryOutcome::Committed => RetryStep::Done,
        TryOutcome::NoConnection => RetryStep::ConnectionError,
        TryOutcome::Failed => {
            if retry + 1 < MAX_RETRY {
                RetryStep::Retry { next: retry + 1 }
            } else {
                let message = "PG transaction".to_owned();
                proof {
                    reveal_strlit("PG transaction");
                }
                assert(message@ =~= give_up_message());
                RetryStep::GiveUp(RetryErr { message, retries: MAX_RETRY })
            }
        },
    }
}

} // verus!
