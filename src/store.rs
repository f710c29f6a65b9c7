use vstd::prelude::*;
use vstd::string::StringExecFns;
use crate::error::StoreErrorType;
use crate::keys::{create_key, key_text, int_text, timestamp_text, BlobId};
use crate::rows::{DbMessage, DbMessageWithoutData, DbProcessScheduler, DbScheduler, NewMessage};

verus! {

/// A scheduler: a surrogate id once stored, a unique url, and how many
/// processes it owns.
pub struct Scheduler {
    pub row_id: Option<i32>,
    pub url: String,
    pub process_count: i32,
}

/// A process bound to the scheduler with surrogate id `scheduler_row_id`.
pub struct ProcessScheduler {
    pub row_id: Option<i32>,
    pub process_id: String,
    pub scheduler_row_id: i32,
}

/// Turns a `None` of a point lookup into `NotFound`, naming what was sought.
pub fn found<T>(row: Option<T>, what: &str) -> (r: Result<T, StoreErrorType>)
    ensures
        row is Some <==> r is Ok,
        row is Some ==> r == Ok::<T, StoreErrorType>(row->0),
        r is Err ==> r->Err_0 is NotFound && r->Err_0.text()@ == what@ + " not found"@,
{
    match row {
        Some(v) => Ok(v),
        None => {
            let mut text = String::from_str(what);
            text.append(" not found");
            Err(StoreErrorType::NotFound(text))
        },
    }
}

/// The scheduler a stored row describes.
pub fn scheduler_from_row(row: DbScheduler) -> (r: Scheduler)
    ensures
        r.row_id == Some(row.row_id),
        r.url == row.url,
        r.process_count == row.process_count,
{
    Scheduler { row_id: Some(row.row_id), url: row.url, process_count: row.process_count }
}

/// The schedulers stored rows describe, in the same order.
pub fn schedulers_from_rows(rows: Vec<DbScheduler>) -> (r: Vec<Scheduler>)
    ensures
        r.len() == rows.len(),
        forall|i: int|
            0 <= i < rows.len() ==> (#[trigger] r[i]).row_id == Some(rows[i].row_id) && r[i].url
                == rows[i].url && r[i].process_count == rows[i].process_count,
{
    let mut rows = rows;
    let ghost orig = rows@;
    let mut out: Vec<Scheduler> = Vec::new();
    let n = rows.len();
    // Taken from the back so that each row moves out without a copy.
    while rows.len() > 0
        invariant
            n == orig.len(),
            rows@ == orig.take(rows.len() as int),
            out.len() == n - rows.len(),
            forall|j: int|
                0 <= j < out.len() ==> (#[trigger] out[j]).row_id == Some(
                    orig[n - 1 - j].row_id,
                ) && out[j].url == orig[n - 1 - j].url && out[j].process_count == orig[n - 1
                    - j].process_count,
        decreases rows.len(),
    {
        let row = rows.pop().unwrap();
        proof {
            assert(orig.take(rows.len() as int) == orig.take(rows.len() + 1).drop_last());
        }
        out.push(scheduler_from_row(row));
    }
    let mut res: Vec<Scheduler> = Vec::new();
    while out.len() > 0
        invariant
            n == orig.len(),
            out.len() + res.len() == n,
            forall|j: int|
                0 <= j < out.len() ==> (#[trigger] out[j]).row_id == Some(
                    orig[n - 1 - j].row_id,
                ) && out[j].url == orig[n - 1 - j].url && out[j].process_count == orig[n - 1
                    - j].process_count,
            forall|j: int|
                0 <= j < res.len() ==> (#[trigger] res[j]).row_id == Some(orig[j].row_id)
                    && res[j].url == orig[j].url && res[j].process_count == orig[j].process_count,
        decreases out.len(),
    {
        let s = out.pop().unwrap();
        res.push(s);
    }
    res
}

/// The binding of a process to its scheduler a stored row describes.
pub fn process_scheduler_from_row(row: DbProcessScheduler) -> (r: ProcessScheduler)
    ensures
        r.row_id == Some(row.row_id),
        r.process_id == row.process_id,
        r.scheduler_row_id == row.scheduler_row_id,
{
    ProcessScheduler {
        row_id: Some(row.row_id),
        process_id: row.process_id,
        scheduler_row_id: row.scheduler_row_id,
    }
}

/// What the duplicate-payload guard decides, given whether the incoming
/// message carries a payload and what the lookup of its id found: whether
/// the earliest stored row for that id carries one.
pub open spec fn guard_allows(carries_payload: bool, lookup: Result<bool, StoreErrorType>) -> bool {
    !carries_payload || lookup == Ok::<bool, StoreErrorType>(false) || (lookup is Err
        && lookup->Err_0 is NotFound)
}

/// The duplicate-payload guard. A message without payload (an assignment)
/// always passes. One with a payload fails with `MessageExists` where the
/// stored row for its id carries a payload, passes where that row carries
/// none or there is no row, and fails with `DatabaseError` where the lookup
/// failed otherwise.
pub fn check_existing_message(carries_payload: bool, lookup: &Result<bool, StoreErrorType>) -> (r:
    Result<(), StoreErrorType>)
    ensures
        r is Ok <==> guard_allows(carries_payload, *lookup),
        carries_payload && *lookup == Ok::<bool, StoreErrorType>(true) ==> r is Err
            && r->Err_0 is MessageExists,
        carries_payload && lookup is Err && !(lookup->Err_0 is NotFound) ==> r is Err
            && r->Err_0 is DatabaseError,
{
    if !carries_payload {
        return Ok(());
    }
    match lookup {
        Ok(true) => Err(StoreErrorType::MessageExists(String::from_str("Message already exists"))),
        Ok(false) => Ok(()),
        Err(StoreErrorType::NotFound(_)) => Ok(()),
        Err(_) => Err(StoreErrorType::DatabaseError(String::from_str("Error checking message"))),
    }
}

/// Once a message with a payload for id `M` is stored, so that the lookup of
/// `M` finds a row with a payload, a second save of `M` with a payload is
/// refused with `MessageExists`, and one without a payload passes.
pub proof fn lemma_duplicate_payload_refused(second_carries_payload: bool)
    ensures
        second_carries_payload ==> !guard_allows(
            second_carries_payload,
            Ok::<bool, StoreErrorType>(true),
        ),
        !second_carries_payload ==> guard_allows(
            second_carries_payload,
            Ok::<bool, StoreErrorType>(true),
        ),
{
}

/// The reply to an insert-if-absent of a process, scheduler or binding: any
/// number of rows written, none included, is a success.
pub fn saved_reply(written: Result<usize, StoreErrorType>) -> (r: Result<String, StoreErrorType>)
    ensures
        written is Ok <==> r is Ok,
        r is Ok ==> r->Ok_0@ == "saved"@,
        written is Err ==> r is Err && r->Err_0 == written->Err_0,
{
    proof {
        reveal_strlit("saved");
    }
    match written {
        Ok(_) => Ok(String::from_str("saved")),
        Err(e) => Err(e),
    }
}

/// The reply to the insert of a message row: an insert that wrote no row is
/// a `DatabaseError`.
pub fn message_insert_reply(written: Result<usize, StoreErrorType>) -> (r: Result<(), StoreErrorType>)
    ensures
        r is Ok <==> (written is Ok && written->Ok_0 > 0),
        written is Ok && written->Ok_0 == 0 ==> r->Err_0 is DatabaseError,
        written is Err ==> r is Err && r->Err_0 == written->Err_0,
{
    match written {
        Ok(0) => Err(StoreErrorType::DatabaseError(String::from_str("Error saving message"))),
        Ok(_) => Ok(()),
        Err(e) => Err(e),
    }
}

/// The blob-tier key under which saving a message writes its payload.
pub fn message_blob_key(m: &NewMessage) -> (r: String)
    ensures
        r@ == key_text(m.message_id@, Some(m.assignment_id@), m.process_id@, int_text(m.timestamp as int)),
{
    let ts = timestamp_text(m.timestamp);
    let aid = Some(m.assignment_id.clone());
    create_key(m.message_id.as_str(), &aid, m.process_id.as_str(), ts.as_str())
}

/// The blob identity under which saving a message writes its payload: the
/// message id, the assignment id, the process id and the timestamp's text.
pub fn message_blob_id(m: &NewMessage) -> (r: BlobId)
    ensures
        crate::blob::id_view(r) == (
            m.message_id@,
            Some(m.assignment_id@),
            m.process_id@,
            int_text(m.timestamp as int),
        ),
{
    (m.message_id.clone(), Some(m.assignment_id.clone()), m.process_id.clone(), timestamp_text(m.timestamp))
}

/// Whether row `i` of `rows` is the latest of process `pid`: it belongs to
/// `pid` and no row of `pid` has a greater surrogate insertion id.
pub open spec fn is_latest(rows: Seq<DbMessageWithoutData>, pid: Seq<char>, i: int) -> bool {
    &&& 0 <= i < rows.len()
    &&& rows[i].process_id@ == pid
    &&& forall|j: int|
        0 <= j < rows.len() && (#[trigger] rows[j]).process_id@ == pid ==> rows[j].row_id
            <= rows[i].row_id
}

/// The latest row of a process among `rows`, by surrogate insertion id and
/// not by timestamp; `None` where the process has no row.
pub fn latest_row(rows: &Vec<DbMessageWithoutData>, pid: &String) -> (r: Option<usize>)
    ensures
        r is Some ==> is_latest(rows@, pid@, r->0 as int),
        r is None <==> forall|j: int| 0 <= j < rows.len() ==> (#[trigger] rows[j]).process_id@ != pid@,
{
    let mut best: Option<usize> = None;
    let mut i: usize = 0;
    while i < rows.len()
        invariant
            i <= rows.len(),
            best is Some ==> best->0 < i && is_latest(rows@.take(i as int), pid@, best->0 as int),
            best is None <==> forall|j: int| 0 <= j < i ==> (#[trigger] rows[j]).process_id@ != pid@,
        decreases rows.len() - i,
    {
        let ghost pre = rows@.take(i as int);
        let ghost next = rows@.take(i + 1);
        if rows[i].process_id == *pid {
            match best {
                Some(b) => {
                    if rows[i].row_id > rows[b].row_id {
                        best = Some(i);
                    }
                },
                None => {
                    best = Some(i);
                },
            }
        }
        proof {
            assert forall|j: int| 0 <= j < i + 1 implies next[j] == rows@[j] by {}
            assert forall|j: int| 0 <= j < i implies pre[j] == rows@[j] by {}
        }
        i += 1;
    }
    proof {
        assert(rows@.take(rows.len() as int) == rows@);
    }
    best
}

/// Whether a row answers to the identifier `x`: as its message id or as its
/// assignment id.
pub open spec fn answers_to(row: DbMessageWithoutData, x: Seq<char>) -> bool {
    row.message_id@ == x || (row.assignment_id matches Some(a) && a@ == x)
}

/// Whether row `i` of `rows` is the canonical resolution of `x`: it answers
/// to `x` and no row that does has an earlier timestamp.
pub open spec fn is_earliest_match(rows: Seq<DbMessageWithoutData>, x: Seq<char>, i: int) -> bool {
    &&& 0 <= i < rows.len()
    &&& answers_to(rows[i], x)
    &&& forall|j: int|
        0 <= j < rows.len() && answers_to(#[trigger] rows[j], x) ==> rows[i].timestamp
            <= rows[j].timestamp
}

fn row_answers_to(row: &DbMessageWithoutData, x: &String) -> (r: bool)
    ensures
        r == answers_to(*row, x@),
{
    if row.message_id == *x {
        return true;
    }
    match &row.assignment_id {
        Some(a) => *a == *x,
        None => false,
    }
}

/// The row that resolves identifier `x` among `rows`: of those whose message
/// id or assignment id is `x`, one with the earliest timestamp; `None` where
/// no row answers to `x`.
pub fn earliest_match(rows: &Vec<DbMessageWithoutData>, x: &String) -> (r: Option<usize>)
    ensures
        r is Some ==> is_earliest_match(rows@, x@, r->0 as int),
        r is None <==> forall|j: int| 0 <= j < rows.len() ==> !answers_to(#[trigger] rows[j], x@),
{
    let mut best: Option<usize> = None;
    let mut i: usize = 0;
    while i < rows.len()
        invariant
            i <= rows.len(),
            best is Some ==> best->0 < i && is_earliest_match(rows@.take(i as int), x@, best->0 as int),
            best is None <==> forall|j: int| 0 <= j < i ==> !answers_to(#[trigger] rows[j], x@),
        decreases rows.len() - i,
    {
        let ghost pre = rows@.take(i as int);
        let ghost next = rows@.take(i + 1);
        if row_answers_to(&rows[i], x) {
            match best {
                Some(b) => {
                    if rows[i].timestamp < rows[b].timestamp {
                        best = Some(i);
                    }
                },
                None => {
                    best = Some(i);
                },
            }
        }
        proof {
            assert forall|j: int| 0 <= j < i + 1 implies next[j] == rows@[j] by {}
            assert forall|j: int| 0 <= j < i implies pre[j] == rows@[j] by {}
        }
        i += 1;
    }
    proof {
        assert(rows@.take(rows.len() as int) == rows@);
    }
    best
}

/// Once saving a message has written its payload into the blob tier, a probe
/// for the stored row's identity finds that payload: the key the save
/// writes is the key the probe and the page reads look up.
pub proof fn lemma_saved_payload_found(
    m: NewMessage,
    row: DbMessageWithoutData,
    blob: Map<Seq<char>, Seq<u8>>,
)
    requires
        row.message_id@ == m.message_id@,
        row.assignment_id is Some && row.assignment_id->0@ == m.assignment_id@,
        row.process_id@ == m.process_id@,
        row.timestamp == m.timestamp,
    ensures
        ({
            let after = blob.insert(
                key_text(m.message_id@, Some(m.assignment_id@), m.process_id@, int_text(m.timestamp as int)),
                m.bundle@,
            );
            let probe = key_text(
                row.message_id@,
                crate::keys::opt_view(row.assignment_id),
                row.process_id@,
                int_text(row.timestamp as int),
            );
            after.contains_key(probe) && after[probe] == m.bundle@
        }),
{
}

/// How many entries of `s` equal `x`.
pub open spec fn count_of(s: Seq<Seq<char>>, x: Seq<char>) -> nat
    decreases s.len(),
{
    if s.len() == 0 {
        0
    } else {
        count_of(s.drop_last(), x) + if s.last() == x {
            1nat
        } else {
            0nat
        }
    }
}

/// The process ids stored after an insert-if-absent of `pid`.
pub open spec fn insert_if_absent(ids: Seq<Seq<char>>, pid: Seq<char>) -> Seq<Seq<char>> {
    if ids.contains(pid) {
        ids
    } else {
        ids.push(pid)
    }
}

proof fn lemma_count_contains(s: Seq<Seq<char>>, x: Seq<char>)
    ensures
        s.contains(x) <==> count_of(s, x) > 0,
    decreases s.len(),
{
    if s.len() > 0 {
        let p = s.drop_last();
        lemma_count_contains(p, x);
        if p.contains(x) {
            let i = choose|i: int| 0 <= i < p.len() && p[i] == x;
            assert(s[i] == x);
        }
        if s.contains(x) && s.last() != x {
            let i = choose|i: int| 0 <= i < s.len() && s[i] == x;
            assert(p[i] == x);
        }
        if s.last() == x {
            assert(s[s.len() - 1] == x);
        }
    }
}

/// Saving a process whose id is stored at most once, twice over, leaves
/// exactly one stored row with that id; each save replies with success
/// (`saved_reply`), whether it wrote a row or not.
pub proof fn lemma_process_saved_once(ids: Seq<Seq<char>>, pid: Seq<char>)
    requires
        count_of(ids, pid) <= 1,
    ensures
        count_of(insert_if_absent(insert_if_absent(ids, pid), pid), pid) == 1,
{
    lemma_count_contains(ids, pid);
    let once = insert_if_absent(ids, pid);
    if !ids.contains(pid) {
        assert(once.drop_last() == ids);
        assert(once.contains(pid)) by {
            assert(once[once.len() - 1] == pid);
        }
    }
    lemma_count_contains(once, pid);
}

/// A stored message as the migration tools read it: message id, assignment
/// id, payload, process id, document, and the timestamp's decimal text.
pub type MessageExport = (String, Option<String>, Vec<u8>, String, serde_json::Value, String);

/// Lays a stored message out for the migration tools.
pub fn message_export(row: DbMessage) -> (r: MessageExport)
    ensures
        r.0 == row.message_id,
        r.1 == row.assignment_id,
        r.2 == row.bundle,
        r.3 == row.process_id,
        r.4 == row.message_data,
        r.5@ == int_text(row.timestamp as int),
{
    let ts = timestamp_text(row.timestamp);
    (row.message_id, row.assignment_id, row.bundle, row.process_id, row.message_data, ts)
}

} // verus!
