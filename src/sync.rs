use vstd::prelude::*;
use crate::blob::IdView;

verus! {

/// What the last fetch of a tail-sync step brought back.
pub enum SyncEvent {
    /// The row at the offset, and whether the blob tier already holds it.
    Found { in_blob: bool },
    /// No row at the offset: the table ended.
    Missing,
    /// The fetch failed; the row is skipped.
    FetchFailed,
}

/// A tail-sync run: it walks the message table from the newest row back,
/// writes each row that the blob tier lacks, and stops at the first row that
/// the tier already holds.
pub struct TailSync {
    pub total: i64,
    pub offset: i64,
    pub synced: u64,
    pub stopped: bool,
}

/// The run after one event: a row the blob tier holds, or the end of the
/// table, stops it; a row it lacks is written and counted; a failed fetch is
/// skipped.
pub open spec fn after_event(s: TailSync, ev: SyncEvent) -> TailSync {
    match ev {
        SyncEvent::Found { in_blob } => if in_blob {
            TailSync { total: s.total, offset: s.offset, synced: s.synced, stopped: true }
        } else {
            TailSync {
                total: s.total,
                offset: (s.offset + 1) as i64,
                synced: (s.synced + 1) as u64,
                stopped: false,
            }
        },
        SyncEvent::Missing => TailSync {
            total: s.total,
            offset: s.offset,
            synced: s.synced,
            stopped: true,
        },
        SyncEvent::FetchFailed => TailSync {
            total: s.total,
            offset: (s.offset + 1) as i64,
            synced: s.synced,
            stopped: false,
        },
    }
}

impl TailSync {
    pub open spec fn wf(&self) -> bool {
        0 <= self.synced <= self.offset <= self.total || (self.total < 0 && self.offset == 0
            && self.synced == 0)
    }

    /// Starts a run over a table of `total` rows.
    pub fn new(total: i64) -> (r: TailSync)
        ensures
            r.wf(),
            r.total == total,
            r.offset == 0,
            r.synced == 0,
            !r.stopped,
    {
        TailSync { total, offset: 0, synced: 0, stopped: false }
    }

    /// The offset from the newest row to fetch next, or `None` once the run
    /// is over.
    pub fn next_fetch(&self) -> (r: Option<i64>)
        ensures
            r == (if !self.stopped && self.offset < self.total {
                Some(self.offset)
            } else {
                None
            }),
    {
        if !self.stopped && self.offset < self.total {
            Some(self.offset)
        } else {
            None
        }
    }

    /// Takes in what the fetch at the current offset brought back; returns
    /// whether that row's payload must be written into the blob tier.
    pub fn on_event(&mut self, ev: SyncEvent) -> (write: bool)
        requires
            old(self).wf(),
            !old(self).stopped,
            old(self).offset < old(self).total,
        ensures
            final(self).wf(),
            *final(self) == after_event(*old(self), ev),
            write == (ev matches SyncEvent::Found { in_blob } && !in_blob),
    {
        match ev {
            SyncEvent::Found { in_blob } => {
                if in_blob {
                    self.stopped = true;
                    false
                } else {
                    self.offset = self.offset + 1;
                    self.synced = self.synced + 1;
                    true
                }
            },
            SyncEvent::Missing => {
                self.stopped = true;
                false
            },
            SyncEvent::FetchFailed => {
                self.offset = self.offset + 1;
                false
            },
        }
    }
}

/// The rows a tail-sync run writes, given the table's rows newest first and
/// the identities the blob tier holds: every row up to the first one held.
pub open spec fn sync_writes(rows: Seq<IdView>, blob: Set<IdView>) -> Seq<IdView>
    decreases rows.len(),
{
    if rows.len() == 0 {
        seq![]
    } else if blob.contains(rows[0]) {
        seq![]
    } else {
        seq![rows[0]] + sync_writes(rows.drop_first(), blob)
    }
}

/// A run driven to its end over the rows `rows` (newest first, one per
/// offset, every fetch succeeding) against a blob tier holding `blob`.
pub open spec fn run_over(s: TailSync, rows: Seq<IdView>, blob: Set<IdView>) -> TailSync
    decreases (if s.offset < s.total { s.total - s.offset } else { 0 }) * 2 + if s.stopped {
        0int
    } else {
        1int
    },
{
    if s.stopped || s.offset >= s.total || s.offset < 0 {
        s
    } else {
        run_over(
            after_event(s, SyncEvent::Found { in_blob: blob.contains(rows[s.offset as int]) }),
            rows,
            blob,
        )
    }
}

/// The run that starts over a table of the rows `rows`.
pub open spec fn start_over(rows: Seq<IdView>) -> TailSync {
    TailSync { total: rows.len() as i64, offset: 0, synced: 0, stopped: false }
}

proof fn lemma_run_from(s: TailSync, rows: Seq<IdView>, blob: Set<IdView>)
    requires
        s.total == rows.len(),
        0 <= s.offset <= s.total,
        s.synced == s.offset,
        !s.stopped,
    ensures
        run_over(s, rows, blob).synced == s.offset + sync_writes(rows.skip(s.offset as int), blob).len(),
    decreases s.total - s.offset,
{
    let rest = rows.skip(s.offset as int);
    if s.offset == s.total {
        assert(rest.len() == 0);
        assert(run_over(s, rows, blob) == s);
    } else {
        assert(rest[0] == rows[s.offset as int]);
        let n = after_event(s, SyncEvent::Found { in_blob: blob.contains(rows[s.offset as int]) });
        assert(run_over(s, rows, blob) == run_over(n, rows, blob));
        if blob.contains(rows[s.offset as int]) {
            assert(run_over(n, rows, blob) == n);
            assert(sync_writes(rest, blob).len() == 0);
        } else {
            lemma_run_from(n, rows, blob);
            assert(rest.drop_first() =~= rows.skip(s.offset + 1));
            assert(sync_writes(rest, blob) == seq![rest[0]] + sync_writes(rest.drop_first(), blob));
        }
    }
}

/// A run over the rows of a table writes exactly the rows newest first up to
/// the first one the blob tier holds; a second run right after it writes
/// nothing, since by then the newest row is held, from before or by the
/// first run's writes.
pub proof fn lemma_tail_sync_twice(rows: Seq<IdView>, blob: Set<IdView>)
    requires
        rows.len() <= i64::MAX,
    ensures
        run_over(start_over(rows), rows, blob).synced == sync_writes(rows, blob).len(),
        run_over(start_over(rows), rows, blob + sync_writes(rows, blob).to_set()).synced == 0,
{
    let w = sync_writes(rows, blob);
    let blob2 = blob + w.to_set();
    lemma_run_from(start_over(rows), rows, blob);
    lemma_run_from(start_over(rows), rows, blob2);
    assert(rows.skip(0) =~= rows);
    if rows.len() > 0 {
        if !blob.contains(rows[0]) {
            assert(w[0] == rows[0]);
            assert(w.to_set().contains(rows[0]));
        }
        assert(blob2.contains(rows[0]));
    }
}

} // verus!
