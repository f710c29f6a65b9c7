use vstd::prelude::*;
use crate::error::StoreErrorType;
use vstd::string::StringExecFns;

verus! {

/// The page size used when a caller gives none.
pub const DEFAULT_PAGE_SIZE: i32 = 5000;

pub open spec fn is_digit(c: char) -> bool {
    '0' <= c && c <= '9'
}

/// The value of a string of decimal digits.
pub open spec fn digits_value(s: Seq<char>) -> int
    decreases s.len(),
{
    if s.len() == 0 {
        0
    } else {
        digits_value(s.drop_last()) * 10 + ((s.last() as u32) - ('0' as u32))
    }
}

/// The integer a decimal text denotes: an optional sign, then one or more
/// digits.
pub open spec fn decimal_of(s: Seq<char>) -> Option<int> {
    let neg = s.len() > 0 && s[0] == '-';
    let body = if s.len() > 0 && (s[0] == '-' || s[0] == '+') {
        s.drop_first()
    } else {
        s
    };
    if body.len() > 0 && forall|i: int| 0 <= i < body.len() ==> is_digit(#[trigger] body[i]) {
        Some(if neg { -digits_value(body) } else { digits_value(body) })
    } else {
        None
    }
}

/// The `i64` a decimal text denotes, if it is one and it fits.
pub open spec fn parsed_i64(s: Seq<char>) -> Option<i64> {
    match decimal_of(s) {
        Some(v) => if i64::MIN <= v <= i64::MAX {
            Some(v as i64)
        } else {
            None
        },
        None => None,
    }
}

/// Relies on `str::parse::<i64>` (std's `FromStr for i64`): an optional
/// sign and at least one decimal digit, within the range of `i64`; the error
/// carries std's description of the failure.
#[verifier::external_body]
fn parse_i64(s: &str) -> (r: Result<i64, String>)
    ensures
        r is Ok <==> parsed_i64(s@) is Some,
        r is Ok ==> parsed_i64(s@) == Some(r->Ok_0),
{
    s.parse::<i64>().map_err(|e| e.to_string())
}

/// Reads a pagination cursor or an offset; a text that is no `i64` is an
/// `IntError`.
pub fn parse_cursor(s: &str) -> (r: Result<i64, StoreErrorType>)
    ensures
        r is Ok <==> parsed_i64(s@) is Some,
        r is Ok ==> parsed_i64(s@) == Some(r->Ok_0),
        r is Err ==> r->Err_0 is IntError,
{
    match parse_i64(s) {
        Ok(v) => Ok(v),
        Err(e) => {
            let mut text = String::from_str("data store int error: ");
            text.append(e.as_str());
            Err(StoreErrorType::IntError(text))
        },
    }
}

/// The bounds of a page query, each read from its optional cursor text.
pub open spec fn bound_of(c: Option<String>) -> Option<Option<i64>> {
    match c {
        Some(s) => match parsed_i64(s@) {
            Some(v) => Some(Some(v)),
            None => None,
        },
        None => Some(None),
    }
}

/// Reads the optional `from` and `to` cursors of a page query.
pub fn parse_bounds(from: &Option<String>, to: &Option<String>) -> (r: Result<
    (Option<i64>, Option<i64>),
    StoreErrorType,
>)
    ensures
        r is Ok <==> bound_of(*from) is Some && bound_of(*to) is Some,
        r is Ok ==> r->Ok_0 == (bound_of(*from)->0, bound_of(*to)->0),
        r is Err ==> r->Err_0 is IntError,
{
    let f = match from {
        Some(s) => Some(parse_cursor(s.as_str())?),
        None => None,
    };
    let t = match to {
        Some(s) => Some(parse_cursor(s.as_str())?),
        None => None,
    };
    Ok((f, t))
}


/// What a page query asks of the relational store: rows with
/// `from < timestamp <= to` (each bound only where given), oldest first, at
/// most `fetch` of them, where `fetch` is one more than the page size.
pub struct PageQuery {
    pub from: Option<i64>,
    pub to: Option<i64>,
    pub limit: usize,
    pub fetch: i64,
}

/// The page size a caller's optional limit stands for.
pub open spec fn page_size_of(limit: Option<i32>) -> int {
    match limit {
        Some(l) => l as int,
        None => DEFAULT_PAGE_SIZE as int,
    }
}

/// Builds a page query from the caller's cursors and limit: a cursor that is
/// no integer is an `IntError`, a negative limit a `DatabaseError`, as the
/// relational engine reports it.
pub fn page_query(from: &Option<String>, to: &Option<String>, limit: Option<i32>) -> (r: Result<
    PageQuery,
    StoreErrorType,
>)
    ensures
        r is Ok <==> bound_of(*from) is Some && bound_of(*to) is Some && page_size_of(limit) >= 0,
        r is Ok ==> {
            &&& r->Ok_0.from == bound_of(*from)->0
            &&& r->Ok_0.to == bound_of(*to)->0
            &&& r->Ok_0.limit == page_size_of(limit)
            &&& r->Ok_0.fetch == page_size_of(limit) + 1
        },
        r is Err && bound_of(*from) is Some && bound_of(*to) is Some ==> r->Err_0 is DatabaseError,
        r is Err && !(bound_of(*from) is Some && bound_of(*to) is Some) ==> r->Err_0 is IntError,
{
    let (f, t) = parse_bounds(from, to)?;
    let size: i32 = match limit {
        Some(l) => l,
        None => DEFAULT_PAGE_SIZE,
    };
    if size < 0 {
        return Err(StoreErrorType::DatabaseError(String::from_str("LIMIT must not be negative")));
    }
    Ok(PageQuery { from: f, to: t, limit: size as usize, fetch: size as i64 + 1 })
}

/// Whether a timestamp lies in the window `from < ts <= to`.
pub open spec fn in_window(ts: i64, from: Option<i64>, to: Option<i64>) -> bool {
    &&& (from matches Some(f) ==> f < ts)
    &&& (to matches Some(t) ==> ts <= t)
}

/// The page kept from an over-fetched run of rows: the first `limit` of
/// them, and whether there were more.
pub open spec fn page_of<T>(rows: Seq<T>, limit: nat) -> (Seq<T>, bool) {
    if rows.len() > limit {
        (rows.take(limit as int), true)
    } else {
        (rows, false)
    }
}

/// Cuts rows fetched one beyond the page size down to the page, and tells
/// whether a next page exists: it does exactly when the probe row came back.
pub fn split_page<T>(rows: Vec<T>, limit: usize) -> (r: (Vec<T>, bool))
    ensures
        (r.0@, r.1) == page_of(rows@, limit as nat),
{
    let mut rows = rows;
    let has_next = rows.len() > limit;
    if has_next {
        rows.truncate(limit);
    }
    (rows, has_next)
}


/// The rows a query limited to `n` rows returns from a window.
pub open spec fn first_n<T>(w: Seq<T>, n: int) -> Seq<T> {
    if n < w.len() {
        w.take(n)
    } else {
        w
    }
}

/// Over-fetching one row beyond the page size `limit` from a window of `N`
/// rows gives a page of `limit` rows and a next page where `limit < N`, and
/// the whole window with no next page otherwise.
pub proof fn lemma_page_counts<T>(window: Seq<T>, limit: nat)
    ensures
        limit < window.len() ==> page_of(first_n(window, limit + 1int), limit).0.len() == limit
            && page_of(first_n(window, limit + 1int), limit).1,
        limit >= window.len() ==> page_of(window, limit).0 == window && !page_of(window, limit).1,
{
}

/// Whether timestamps strictly increase along `ts`.
pub open spec fn strictly_increasing(ts: Seq<i64>) -> bool {
    forall|i: int, j: int| 0 <= i < j < ts.len() ==> ts[i] < ts[j]
}

/// Whether `k` splits `ts` into the timestamps up to `v` and those after it.
pub open spec fn is_cut(ts: Seq<i64>, v: i64, k: int) -> bool {
    &&& 0 <= k <= ts.len()
    &&& forall|i: int| 0 <= i < k ==> ts[i] <= v
    &&& forall|i: int| k <= i < ts.len() ==> ts[i] > v
}

/// How many of the ordered timestamps `ts` are at most `v`.
pub open spec fn cut(ts: Seq<i64>, v: i64) -> int {
    choose|k: int| is_cut(ts, v, k)
}

pub open spec fn lower(ts: Seq<i64>, from: Option<i64>) -> int {
    match from {
        Some(f) => cut(ts, f),
        None => 0,
    }
}

pub open spec fn upper(ts: Seq<i64>, to: Option<i64>) -> int {
    match to {
        Some(t) => cut(ts, t),
        None => ts.len() as int,
    }
}

/// The timestamps of a page query's window over a process's ordered
/// timestamps `ts`: those with `from < t <= to`, oldest first.
pub open spec fn window(ts: Seq<i64>, from: Option<i64>, to: Option<i64>) -> Seq<i64> {
    if lower(ts, from) <= upper(ts, to) {
        ts.subrange(lower(ts, from), upper(ts, to))
    } else {
        seq![]
    }
}

proof fn lemma_cut(ts: Seq<i64>, v: i64)
    requires
        strictly_increasing(ts),
    ensures
        is_cut(ts, v, cut(ts, v)),
    decreases ts.len(),
{
    if ts.len() == 0 {
        assert(is_cut(ts, v, 0));
    } else {
        let p = ts.drop_last();
        lemma_cut(p, v);
        let k = cut(p, v);
        if ts.last() <= v {
            assert(is_cut(ts, v, ts.len() as int));
        } else {
            assert(is_cut(p, v, k));
            assert forall|i: int| 0 <= i < ts.len() - 1 implies ts[i] == p[i] by {}
            assert(is_cut(ts, v, k));
        }
    }
}

/// Over ordered timestamps, the window holds exactly the timestamps `t` of
/// `ts` with `from < t <= to`, in their order.
pub proof fn lemma_window_is_filter(ts: Seq<i64>, from: Option<i64>, to: Option<i64>)
    requires
        strictly_increasing(ts),
    ensures
        window(ts, from, to) == ts.filter(|t: i64| in_window(t, from, to)),
{
    if let Some(f) = from {
        lemma_cut(ts, f);
    }
    if let Some(t) = to {
        lemma_cut(ts, t);
    }
    lemma_filter_range(ts, from, to, ts.len() as int);
    assert(ts.take(ts.len() as int) == ts);
}

proof fn lemma_filter_range(ts: Seq<i64>, from: Option<i64>, to: Option<i64>, n: int)
    requires
        strictly_increasing(ts),
        0 <= n <= ts.len(),
        from matches Some(f) ==> is_cut(ts, f, lower(ts, from)),
        to matches Some(t) ==> is_cut(ts, t, upper(ts, to)),
    ensures
        ts.take(n).filter(|t: i64| in_window(t, from, to)) == if lower(ts, from) <= upper(ts, to) {
            ts.subrange(
                if lower(ts, from) < n { lower(ts, from) } else { n },
                if upper(ts, to) < n { upper(ts, to) } else { n },
            )
        } else {
            seq![]
        },
    decreases n,
{
    let p = |t: i64| in_window(t, from, to);
    let lo = lower(ts, from);
    let hi = upper(ts, to);
    reveal(Seq::filter);
    if n == 0 {
        assert(ts.take(0).filter(p) =~= seq![]);
        if lo <= hi {
            assert(ts.subrange(0, 0) =~= seq![]);
        }
    } else {
        lemma_filter_range(ts, from, to, n - 1);
        let pre = ts.take(n);
        assert(pre.drop_last() =~= ts.take(n - 1));
        assert(pre.last() == ts[n - 1]);
        // ts[n - 1] is in the window exactly when lo <= n - 1 < hi
        if lo <= n - 1 && n - 1 < hi {
            assert(in_window(ts[n - 1], from, to));
        } else {
            assert(!in_window(ts[n - 1], from, to));
        }
        if lo <= hi {
            let a = if lo < n - 1 { lo } else { n - 1 };
            let b = if hi < n - 1 { hi } else { n - 1 };
            let a2 = if lo < n { lo } else { n };
            let b2 = if hi < n { hi } else { n };
            if lo <= n - 1 && n - 1 < hi {
                assert(ts.subrange(a2, b2) =~= ts.subrange(a, b).push(ts[n - 1]));
            } else {
                assert(ts.subrange(a2, b2) =~= ts.subrange(a, b));
            }
        }
    }
}

proof fn lemma_cut_unique(ts: Seq<i64>, v: i64, k: int)
    requires
        is_cut(ts, v, k),
    ensures
        cut(ts, v) == k,
{
    let c = cut(ts, v);
    assert(is_cut(ts, v, c));
    if c < k {
        assert(ts[c] > v);
    } else if k < c {
        assert(ts[k] > v);
    }
}

/// Feeding the last timestamp of a full page back as the next `from` gives
/// exactly the rest of the window: no row twice, none left out.
pub proof fn lemma_next_page_continues(ts: Seq<i64>, from: Option<i64>, to: Option<i64>, limit: nat)
    requires
        strictly_increasing(ts),
        0 < limit < window(ts, from, to).len(),
    ensures
        window(ts, Some(window(ts, from, to)[limit - 1]), to) == window(ts, from, to).skip(
            limit as int,
        ),
{
    let lo = lower(ts, from);
    let hi = upper(ts, to);
    if let Some(f) = from {
        lemma_cut(ts, f);
    }
    if let Some(t) = to {
        lemma_cut(ts, t);
    }
    let w = window(ts, from, to);
    let k = lo + limit;
    let v = w[limit - 1];
    assert(0 <= lo && lo + limit < hi <= ts.len());
    assert(v == ts[k - 1]);
    assert forall|i: int| 0 <= i < k implies ts[i] <= v by {
        if i < k - 1 {
            assert(ts[i] < ts[k - 1]);
        }
    }
    assert forall|i: int| k <= i < ts.len() implies ts[i] > v by {
        assert(ts[k - 1] < ts[i]);
    }
    assert(is_cut(ts, v, k));
    lemma_cut_unique(ts, v, k);
    assert(window(ts, Some(v), to) == ts.subrange(k, hi));
    assert(ts.subrange(k, hi) == w.skip(limit as int));
}

/// The timestamps read by walking at most `pages` pages of a window: each
/// page holds at most `limit` rows, the walk goes on only while a page says
/// a next one exists, and the next page starts after the last timestamp of
/// the one before.
pub open spec fn walk(ts: Seq<i64>, from: Option<i64>, to: Option<i64>, limit: nat, pages: nat) -> Seq<
    i64,
>
    decreases pages,
{
    let w = window(ts, from, to);
    let (page, next) = page_of(first_n(w, limit + 1int), limit);
    if pages == 0 || limit == 0 {
        seq![]
    } else if !next {
        page
    } else {
        page + walk(ts, Some(page.last()), to, limit, (pages - 1) as nat)
    }
}

/// Walking the pages of a window, each fed the last timestamp of the page
/// before as its `from`, reads every timestamp of the window once, in order,
/// and stops there; as many pages as the window has rows always suffice.
pub proof fn lemma_walk_reads_window(
    ts: Seq<i64>,
    from: Option<i64>,
    to: Option<i64>,
    limit: nat,
    pages: nat,
)
    requires
        strictly_increasing(ts),
        limit > 0,
        pages >= window(ts, from, to).len(),
        pages > 0,
    ensures
        walk(ts, from, to, limit, pages) == window(ts, from, to),
    decreases pages,
{
    let w = window(ts, from, to);
    if w.len() > limit {
        let page = w.take(limit as int);
        assert(first_n(w, limit + 1int).take(limit as int) == page);
        assert(page.last() == w[limit - 1]);
        lemma_next_page_continues(ts, from, to, limit);
        lemma_walk_reads_window(ts, Some(w[limit - 1]), to, limit, (pages - 1) as nat);
        assert(page + w.skip(limit as int) == w);
    } else {
    }
}

} // verus!
