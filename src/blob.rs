use vstd::prelude::*;
use dashmap::DashMap;
use crate::keys::{BlobId, int_text, opt_view, timestamp_text};
use crate::rows::DbMessageWithoutData;

verus! {

#[verifier::external_type_specification]
#[verifier::external_body]
#[verifier::reject_recursive_types(K)]
#[verifier::reject_recursive_types(V)]
#[verifier::reject_recursive_types(S)]
pub struct ExDashMap<K, V, S>(dashmap::DashMap<K, V, S>);

/// A blob identity as plain values.
pub type IdView = (Seq<char>, Option<Seq<char>>, Seq<char>, Seq<char>);

pub open spec fn id_view(id: BlobId) -> IdView {
    (id.0@, opt_view(id.1), id.2@, id.3@)
}

/// What a map of fetched payloads holds, by blob identity.
pub uninterp spec fn fetched_contents(m: DashMap<BlobId, Vec<u8>>) -> Map<IdView, Seq<u8>>;

/// Relies on `DashMap::get`: the value stored under an equal key, if any.
#[verifier::external_body]
fn fetched_get(m: &DashMap<BlobId, Vec<u8>>, id: &BlobId) -> (r: Option<Vec<u8>>)
    ensures
        r is Some <==> fetched_contents(*m).contains_key(id_view(*id)),
        r is Some ==> r->0@ == fetched_contents(*m)[id_view(*id)],
{
    m.get(id).map(|v| v.value().clone())
}

/// The blob identity of a message row.
pub open spec fn row_id_view(m: DbMessageWithoutData) -> IdView {
    (m.message_id@, opt_view(m.assignment_id), m.process_id@, int_text(m.timestamp as int))
}

/// The blob identity of a message row, to look its payload up.
pub fn row_blob_id(m: &DbMessageWithoutData) -> (r: BlobId)
    ensures
        id_view(r) == row_id_view(*m),
{
    (m.message_id.clone(), clone_opt(&m.assignment_id), m.process_id.clone(), timestamp_text(m.timestamp))
}

pub fn clone_opt(o: &Option<String>) -> (r: Option<String>)
    ensures
        opt_view(r) == opt_view(*o),
{
    match o {
        Some(s) => Some(s.clone()),
        None => None,
    }
}

/// The blob identities of a run of message rows, in order.
pub fn blob_ids(rows: &Vec<DbMessageWithoutData>) -> (r: Vec<BlobId>)
    ensures
        r.len() == rows.len(),
        forall|i: int| 0 <= i < rows.len() ==> id_view(#[trigger] r[i]) == row_id_view(rows[i]),
{
    let mut out: Vec<BlobId> = Vec::new();
    let mut i: usize = 0;
    while i < rows.len()
        invariant
            i <= rows.len(),
            out.len() == i,
            forall|j: int| 0 <= j < i ==> id_view(#[trigger] out[j]) == row_id_view(rows[j]),
        decreases rows.len() - i,
    {
        out.push(row_blob_id(&rows[i]));
        i += 1;
    }
    out
}

/// The payload found in the blob tier for each row, in order; `None` where
/// the tier misses, which calls for a fallback to the relational store.
pub fn payloads_from_blobs(
    rows: &Vec<DbMessageWithoutData>,
    fetched: &DashMap<BlobId, Vec<u8>>,
) -> (r: Vec<Option<Vec<u8>>>)
    ensures
        r.len() == rows.len(),
        forall|i: int|
            0 <= i < rows.len() ==> (#[trigger] r[i] is Some <==> fetched_contents(*fetched).contains_key(
                row_id_view(rows[i]),
            )),
        forall|i: int|
            0 <= i < rows.len() && #[trigger] r[i] is Some ==> r[i]->0@ == fetched_contents(
                *fetched,
            )[row_id_view(rows[i])],
{
    let mut out: Vec<Option<Vec<u8>>> = Vec::new();
    let mut i: usize = 0;
    while i < rows.len()
        invariant
            i <= rows.len(),
            out.len() == i,
            forall|j: int|
                0 <= j < i ==> (#[trigger] out[j] is Some <==> fetched_contents(
                    *fetched,
                ).contains_key(row_id_view(rows[j]))),
            forall|j: int|
                0 <= j < i && #[trigger] out[j] is Some ==> out[j]->0@ == fetched_contents(
                    *fetched,
                )[row_id_view(rows[j])],
        decreases rows.len() - i,
    {
        let id = row_blob_id(&rows[i]);
        out.push(fetched_get(fetched, &id));
        i += 1;
    }
    out
}

/// How many entries of a run are misses.
pub open spec fn misses<T>(h: Seq<Option<T>>) -> nat
    decreases h.len(),
{
    if h.len() == 0 {
        0
    } else {
        misses(h.drop_last()) + if h.last() is None {
            1nat
        } else {
            0nat
        }
    }
}

/// The payload of entry `i` once the misses are filled, in order, from the
/// rows fetched from the relational store.
pub open spec fn merged_at(h: Seq<Option<Vec<u8>>>, fallback: Seq<Vec<u8>>, i: int) -> Seq<u8> {
    match h[i] {
        Some(b) => b@,
        None => fallback[misses(h.take(i)) as int]@,
    }
}

/// Fills each blob-tier miss with the next payload fetched from the
/// relational store, keeping the order of the rows.
pub fn merge_payloads(hits: &Vec<Option<Vec<u8>>>, fallback: &Vec<Vec<u8>>) -> (r: Vec<Vec<u8>>)
    requires
        fallback.len() == misses(hits@),
    ensures
        r.len() == hits.len(),
        forall|i: int| 0 <= i < hits.len() ==> (#[trigger] r[i])@ == merged_at(hits@, fallback@, i),
{
    let mut out: Vec<Vec<u8>> = Vec::new();
    let mut i: usize = 0;
    let mut k: usize = 0;
    while i < hits.len()
        invariant
            i <= hits.len(),
            out.len() == i,
            k == misses(hits@.take(i as int)),
            fallback.len() == misses(hits@),
            forall|j: int| 0 <= j < i ==> (#[trigger] out[j])@ == merged_at(hits@, fallback@, j),
        decreases hits.len() - i,
    {
        proof {
            assert(hits@.take(i + 1).drop_last() == hits@.take(i as int));
            lemma_misses_prefix(hits@, i + 1);
        }
        match &hits[i] {
            Some(b) => {
                out.push(b.clone());
            },
            None => {
                out.push(fallback[k].clone());
                k = k + 1;
            },
        }
        i += 1;
    }
    out
}

proof fn lemma_misses_prefix<T>(h: Seq<Option<T>>, n: int)
    requires
        0 <= n <= h.len(),
    ensures
        misses(h.take(n)) <= misses(h),
    decreases h.len() - n,
{
    if n < h.len() {
        lemma_misses_prefix(h, n + 1);
        assert(h.take(n + 1).drop_last() == h.take(n));
    } else {
        assert(h.take(n) == h);
    }
}

/// Where the blob tier mirrors the relational payloads, a page read through
/// the tier, with its misses filled from the relational store, carries the
/// same bytes as a page read from the relational store alone.
pub proof fn lemma_tier_read_matches_relational(
    rows: Seq<DbMessageWithoutData>,
    bundles: Seq<Seq<u8>>,
    contents: Map<IdView, Seq<u8>>,
    hits: Seq<Option<Vec<u8>>>,
    fallback: Seq<Vec<u8>>,
)
    requires
        bundles.len() == rows.len(),
        hits.len() == rows.len(),
        forall|i: int|
            0 <= i < rows.len() && contents.contains_key(row_id_view(#[trigger] rows[i]))
                ==> contents[row_id_view(rows[i])] == bundles[i],
        forall|i: int|
            0 <= i < rows.len() ==> (#[trigger] hits[i] is Some <==> contents.contains_key(
                row_id_view(rows[i]),
            )),
        forall|i: int|
            0 <= i < rows.len() && #[trigger] hits[i] is Some ==> hits[i]->0@ == contents[row_id_view(
                rows[i],
            )],
        forall|i: int|
            0 <= i < rows.len() && #[trigger] hits[i] is None ==> fallback[misses(hits.take(i)) as int]@
                == bundles[i],
    ensures
        forall|i: int| 0 <= i < rows.len() ==> #[trigger] merged_at(hits, fallback, i) == bundles[i],
{
}

} // verus!
