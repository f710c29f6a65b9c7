use vstd::prelude::*;
use vstd::string::*;
use crate::error::StoreErrorType;
use crate::paging::{parse_cursor, parsed_i64};

verus! {

/// Whether `i` is the index of the first `-` of `s`, or its length where
/// there is none.
pub open spec fn is_first_dash(s: Seq<char>, i: int) -> bool {
    &&& 0 <= i <= s.len()
    &&& forall|k: int| 0 <= k < i ==> s[k] != '-'
    &&& i < s.len() ==> s[i] == '-'
}

/// The index of the first `-` of `s`, or its length.
pub open spec fn first_dash(s: Seq<char>) -> int {
    choose|i: int| is_first_dash(s, i)
}

proof fn lemma_first_dash_unique(s: Seq<char>, i: int)
    requires
        is_first_dash(s, i),
    ensures
        first_dash(s) == i,
{
    let j = first_dash(s);
    assert(is_first_dash(s, j));
    if j < i {
        assert(s[j] != '-');
    } else if i < j {
        assert(s[i] != '-');
    }
}

/// The offset range an operator names, `"<from>"` or `"<from>-<to>"`: the
/// text before the first `-` and, where there is one, the text up to the
/// next `-`, each a decimal integer.
pub open spec fn range_of(s: Seq<char>) -> Option<(i64, Option<i64>)> {
    let i = first_dash(s);
    match parsed_i64(s.take(i)) {
        None => None,
        Some(f) => if i == s.len() {
            Some((f, None))
        } else {
            let rest = s.skip(i + 1);
            match parsed_i64(rest.take(first_dash(rest))) {
                Some(t) => Some((f, Some(t))),
                None => None,
            }
        },
    }
}

/// The index of the first `-` of `s` at or after `start`, or its length.
fn find_dash(s: &str, start: usize) -> (r: usize)
    requires
        start <= s@.len(),
    ensures
        is_first_dash(s@.skip(start as int), r - start),
        start <= r <= s@.len(),
{
    let n = s.unicode_len();
    let mut i = start;
    while i < n && s.get_char(i) != '-'
        invariant
            n == s@.len(),
            start <= i <= n,
            forall|k: int| start <= k < i ==> s@[k] != '-',
        decreases n - i,
    {
        i += 1;
    }
    proof {
        let t = s@.skip(start as int);
        assert forall|k: int| 0 <= k < i - start implies t[k] != '-' by {
            assert(t[k] == s@[start + k]);
        }
        if i < n {
            assert(t[i - start] == s@[i as int]);
        }
    }
    i
}

/// Reads an operator's offset range; a part that is no integer is an
/// `IntError`.
#[verifier::rlimit(40)]
pub fn parse_range(range: &str) -> (r: Result<(i64, Option<i64>), StoreErrorType>)
    ensures
        r is Ok <==> range_of(range@) is Some,
        r is Ok ==> r->Ok_0 == range_of(range@)->0,
        r is Err ==> r->Err_0 is IntError,
{
    let s = range;
    let n = s.unicode_len();
    let i = find_dash(s, 0);
    proof {
        assert(s@.skip(0) == s@);
        lemma_first_dash_unique(s@, i as int);
        assert(s@.take(i as int) == s@.subrange(0, i as int));
    }
    let from = parse_cursor(s.substring_char(0, i))?;
    if i == n {
        return Ok((from, None));
    }
    let j = find_dash(s, i + 1);
    proof {
        let rest = s@.skip(i + 1);
        lemma_first_dash_unique(rest, j - (i + 1));
        assert(rest.take(j - (i + 1)) == s@.subrange(i + 1, j as int));
    }
    let to = parse_cursor(s.substring_char(i + 1, j))?;
    Ok((from, Some(to)))
}

/// How many rows a range migration moves: from `from` up to `to`, or to the
/// end of the table, and never beyond its `count` rows.
pub open spec fn total_of(from: int, to: Option<i64>, count: int) -> int {
    match to {
        Some(t) => if t > count {
            count - from
        } else {
            t - from
        },
        None => count - from,
    }
}

/// The number of rows a range migration moves, with `to` clamped to the
/// table's row count.
pub fn migration_total(from: i64, to: Option<i64>, count: i64) -> (r: i64)
    requires
        from >= 0,
        count >= 0,
        to matches Some(t) ==> t >= 0,
    ensures
        r == total_of(from as int, to, count as int),
{
    match to {
        Some(t) => if t > count {
            count - from
        } else {
            t - from
        },
        None => count - from,
    }
}

/// The end of the batch that starts at `start`: a full batch, cut at `to`
/// where the operator gave one.
pub open spec fn batch_end(start: int, batch_size: int, to: Option<i64>) -> int {
    match to {
        Some(t) => if start + batch_size < t {
            start + batch_size
        } else {
            t as int
        },
        None => start + batch_size,
    }
}

/// Whether `batches` are the offset ranges `[start, end)` of a migration of
/// `total` rows from `from`, in steps of `batch_size`.
pub open spec fn is_batch_plan(
    batches: Seq<(i64, i64)>,
    from: int,
    total: int,
    to: Option<i64>,
    batch_size: int,
) -> bool {
    &&& (total <= 0 ==> batches.len() == 0)
    &&& (total > 0 ==> batches.len() * batch_size >= total && (batches.len() - 1) * batch_size
        < total)
    &&& forall|i: int|
        0 <= i < batches.len() ==> (#[trigger] batches[i]).0 == from + i * batch_size
            && batches[i].1 == batch_end(batches[i].0 as int, batch_size, to)
}

/// The offset ranges a range migration fetches, one bulk fetch each.
pub fn migration_batches(from: i64, total: i64, to: Option<i64>, batch_size: i64) -> (r: Vec<
    (i64, i64),
>)
    requires
        batch_size > 0,
        from >= 0,
        from + total + batch_size <= i64::MAX,
    ensures
        is_batch_plan(r@, from as int, total as int, to, batch_size as int),
{
    let mut out: Vec<(i64, i64)> = Vec::new();
    if total <= 0 {
        return out;
    }
    let stop = from + total;
    let mut start = from;
    while start < stop
        invariant
            batch_size > 0,
            total > 0,
            stop == from + total,
            from + total + batch_size <= i64::MAX,
            start == from + out.len() * batch_size,
            out.len() > 0 ==> (out.len() - 1) * batch_size < total,
            out.len() == 0 ==> start == from,
            start <= stop + batch_size,
            forall|i: int|
                0 <= i < out.len() ==> (#[trigger] out[i]).0 == from + i * batch_size
                    && out[i].1 == batch_end(out[i].0 as int, batch_size as int, to),
        decreases stop + batch_size - start,
    {
        let end: i64 = match to {
            Some(t) => if start + batch_size < t {
                start + batch_size
            } else {
                t
            },
            None => start + batch_size,
        };
        proof {
            assert((out.len() + 1) * batch_size == out.len() * batch_size + batch_size)
                by (nonlinear_arith);
        }
        out.push((start, end));
        start = start + batch_size;
    }
    out
}

/// Every offset that a range migration moves lies in exactly one of its
/// batches, so a migration of `[from, to)` writes each of those rows once.
pub proof fn lemma_batches_cover_once(
    batches: Seq<(i64, i64)>,
    from: int,
    total: int,
    to: Option<i64>,
    batch_size: int,
    o: int,
)
    requires
        batch_size > 0,
        is_batch_plan(batches, from, total, to, batch_size),
        to matches Some(t) ==> from + total <= t,
        from <= o < from + total,
    ensures
        exists|i: int| 0 <= i < batches.len() && batches[i].0 <= o < #[trigger] batches[i].1,
        forall|i: int, j: int|
            0 <= i < batches.len() && 0 <= j < batches.len() && (#[trigger] batches[i]).0 <= o
                < batches[i].1 && (#[trigger] batches[j]).0 <= o < batches[j].1 ==> i == j,
{
    let d = o - from;
    let i = d / batch_size;
    vstd::arithmetic::div_mod::lemma_fundamental_div_mod(d, batch_size);
    vstd::arithmetic::div_mod::lemma_mod_bound(d, batch_size);
    assert(i * batch_size <= d < (i + 1) * batch_size) by (nonlinear_arith)
        requires
            d == batch_size * i + d % batch_size,
            0 <= d % batch_size < batch_size,
    ;
    assert(i < batches.len()) by {
        if i >= batches.len() {
            assert(i * batch_size >= batches.len() * batch_size) by (nonlinear_arith)
                requires
                    i >= batches.len(),
                    batch_size > 0,
            ;
        }
    }
    assert(0 <= i) by (nonlinear_arith)
        requires
            i * batch_size <= d,
            d >= 0,
            d < (i + 1) * batch_size,
            batch_size > 0,
    ;
    assert(batches[i].0 <= o < batches[i].1);
    assert forall|a: int, b: int|
        0 <= a < batches.len() && 0 <= b < batches.len() && (#[trigger] batches[a]).0 <= o
            < batches[a].1 && (#[trigger] batches[b]).0 <= o < batches[b].1 implies a == b by {
        if a < b {
            assert(from + b * batch_size >= from + a * batch_size + batch_size) by (nonlinear_arith)
                requires
                    a < b,
                    batch_size > 0,
            ;
        } else if b < a {
            assert(from + a * batch_size >= from + b * batch_size + batch_size) by (nonlinear_arith)
                requires
                    b < a,
                    batch_size > 0,
            ;
        }
    }
}

/// Whether the progress reporter of a range migration may stop: the shared
/// counter has reached the number of rows to move.
pub fn progress_finished(processed: usize, total: i64) -> (r: bool)
    ensures
        r == (processed as int >= total as int),
{
    if total < 0 {
        true
    } else {
        processed as u64 >= total as u64
    }
}

/// The blob tier's contents after the puts of `writes`, in order.
pub open spec fn apply_writes(blob: Map<Seq<char>, Seq<u8>>, writes: Seq<(Seq<char>, Seq<u8>)>) -> Map<
    Seq<char>,
    Seq<u8>,
>
    decreases writes.len(),
{
    if writes.len() == 0 {
        blob
    } else {
        apply_writes(blob, writes.drop_last()).insert(writes.last().0, writes.last().1)
    }
}

proof fn lemma_writes_override(blob: Map<Seq<char>, Seq<u8>>, writes: Seq<(Seq<char>, Seq<u8>)>)
    ensures
        apply_writes(blob, writes) == blob.union_prefer_right(apply_writes(Map::empty(), writes)),
    decreases writes.len(),
{
    if writes.len() == 0 {
        assert(blob.union_prefer_right(Map::empty()) =~= blob);
    } else {
        lemma_writes_override(blob, writes.drop_last());
        let l = apply_writes(Map::empty(), writes.drop_last());
        let (k, v) = writes.last();
        assert(blob.union_prefer_right(l).insert(k, v) =~= blob.union_prefer_right(l.insert(k, v)));
    }
}

/// Running a migration of the same range again puts the same bytes under
/// the same keys: the blob tier's contents do not change.
pub proof fn lemma_rerun_leaves_blob_unchanged(
    blob: Map<Seq<char>, Seq<u8>>,
    writes: Seq<(Seq<char>, Seq<u8>)>,
)
    ensures
        apply_writes(apply_writes(blob, writes), writes) == apply_writes(blob, writes),
{
    let once = apply_writes(blob, writes);
    let l = apply_writes(Map::empty(), writes);
    lemma_writes_override(blob, writes);
    lemma_writes_override(once, writes);
    assert(blob.union_prefer_right(l).union_prefer_right(l) =~= blob.union_prefer_right(l));
}

} // verus!
