//! The streaming checksum walk: a single forward pass over a table snapshot,
//! restricted to a key range, folding each visited record's key and value
//! bytes into the seeded accumulator, with an optional record limit.

use vstd::prelude::*;
use crate::accum::{ChecksumAccumulator, seeded_digest};
use crate::range::{KeyRange, RangeView, key_in_range, opt_key_view, lemma_inverted_range_is_empty,
    lemma_bounded_endpoints_included, lemma_bounded_excludes_outside};
use crate::order::{lex_lt, lex_le};

verus! {

/// First seed of the checksum's fixed hasher state.
pub const SEED_K0: u64 = 1;

/// Second seed of the checksum's fixed hasher state.
pub const SEED_K1: u64 = 2;

/// Third seed of the checksum's fixed hasher state.
pub const SEED_K2: u64 = 3;

/// Fourth seed of the checksum's fixed hasher state.
pub const SEED_K3: u64 = 4;

/// A progress report is emitted once every this many visited records.
pub const PROGRESS_INTERVAL: usize = 100000;

/// One stored record: its raw key and raw value bytes, as physically stored.
pub struct Record {
    pub key: Vec<u8>,
    pub value: Vec<u8>,
}

/// Mathematical model of a record: its key and value byte sequences.
#[verifier::ext_equal]
pub struct RecordView {
    pub key: Seq<u8>,
    pub value: Seq<u8>,
}

impl View for Record {
    type V = RecordView;

    open spec fn view(&self) -> RecordView {
        RecordView { key: self.key@, value: self.value@ }
    }
}

/// The model of a table snapshot: each record's view, in iteration order.
pub open spec fn views_of(t: Seq<Record>) -> Seq<RecordView> {
    t.map_values(|r: Record| r@)
}

/// The records of `t`, in order, whose keys lie in range `r`.
pub open spec fn selected(t: Seq<RecordView>, r: RangeView) -> Seq<RecordView>
    decreases t.len(),
{
    if t.len() == 0 {
        Seq::empty()
    } else if key_in_range(r, t.first().key) {
        seq![t.first()] + selected(t.drop_first(), r)
    } else {
        selected(t.drop_first(), r)
    }
}

/// The records a walk visits: the in-range records of `t`, in order, cut off
/// after `limit` of them.
pub open spec fn visited_records(t: Seq<RecordView>, r: RangeView, limit: nat) -> Seq<RecordView>
    decreases t.len(),
{
    if t.len() == 0 || limit == 0 {
        Seq::empty()
    } else if key_in_range(r, t.first().key) {
        seq![t.first()] + visited_records(t.drop_first(), r, (limit - 1) as nat)
    } else {
        visited_records(t.drop_first(), r, limit)
    }
}

/// The number of records a walk over `n` records may visit at most: the
/// configured limit, or all of them when none is configured.
pub open spec fn effective_limit(n: nat, limit: Option<usize>) -> nat {
    match limit {
        Option::None => n,
        Option::Some(l) => l as nat,
    }
}

/// The write calls the walk feeds to the accumulator for the visited
/// records `rs`: each record contributes one call with its key bytes, then
/// one call with its value bytes, in visitation order.
pub open spec fn fed_chunks(rs: Seq<RecordView>) -> Seq<Seq<u8>>
    decreases rs.len(),
{
    if rs.len() == 0 {
        Seq::empty()
    } else {
        seq![rs.first().key, rs.first().value] + fed_chunks(rs.drop_first())
    }
}

/// Everything one walk reports. `elapsed_millis` is advisory wall-clock time
/// and carries no contract.
pub struct WalkResult {
    pub checksum: u64,
    pub elapsed_millis: u128,
    pub record_count: usize,
    pub first_key: Option<Vec<u8>>,
    pub end_key: Option<Vec<u8>>,
}

/// What a walk over table model `t`, range `r` and limit `limit` must
/// report: the checksum is the seeded digest of the visited records' key
/// and value write calls, the count is the number of visited records, and
/// the first and last keys
/// are those of the first and last visited records, absent when none was.
pub open spec fn walk_result_matches(
    res: WalkResult,
    t: Seq<RecordView>,
    r: RangeView,
    limit: Option<usize>,
) -> bool {
    let vis = visited_records(t, r, effective_limit(t.len(), limit));
    &&& res.record_count == vis.len()
    &&& res.checksum == seeded_digest(SEED_K0, SEED_K1, SEED_K2, SEED_K3, fed_chunks(vis))
    &&& (vis.len() == 0 ==> res.first_key is None && res.end_key is None)
    &&& (vis.len() > 0 ==> (res.first_key matches Option::Some(k) && k@ == vis.first().key))
    &&& (vis.len() > 0 ==> (res.end_key matches Option::Some(k) && k@ == vis.last().key))
}

/// A sink for advisory progress reports during a walk. No contract: reports
/// have no bearing on the walk's result.
pub trait ProgressSink {
    /// Called with the number of records visited so far.
    fn report(&mut self, visited: usize);
}

/// A sink that discards progress reports.
pub struct SilentProgress;

impl ProgressSink for SilentProgress {
    fn report(&mut self, _visited: usize) {
    }
}

/// An owned copy of a raw key.
#[verifier::loop_isolation(false)]
fn copy_bytes(src: &Vec<u8>) -> (r: Vec<u8>)
    ensures
        r@ == src@,
{
    let mut out: Vec<u8> = Vec::new();
    let mut j: usize = 0;
    while j < src.len()
        invariant
            j <= src@.len(),
            out@ == src@.take(j as int),
        decreases src@.len() - j,
    {
        out.push(src[j]);
        assert(out@ =~= src@.take(j as int + 1));
        j = j + 1;
    }
    assert(src@.take(src@.len() as int) =~= src@);
    out
}

/// Appending a record feeds one write call with its key bytes and then one
/// with its value bytes, after everything fed before.
proof fn lemma_fed_chunks_push(rs: Seq<RecordView>, x: RecordView)
    ensures
        fed_chunks(rs.push(x)) == fed_chunks(rs).push(x.key).push(x.value),
    decreases rs.len(),
{
    let p = rs.push(x);
    if rs.len() == 0 {
        assert(p.first() == x);
        assert(p.drop_first() =~= Seq::<RecordView>::empty());
        assert(fed_chunks(p.drop_first()) =~= Seq::<Seq<u8>>::empty());
        assert(fed_chunks(p) == seq![x.key, x.value] + fed_chunks(p.drop_first()));
        assert(fed_chunks(rs) =~= Seq::<Seq<u8>>::empty());
        assert((seq![x.key, x.value] + fed_chunks(p.drop_first())) =~= fed_chunks(rs).push(
            x.key,
        ).push(x.value));
    } else {
        assert(p.first() == rs.first());
        assert(p.drop_first() =~= rs.drop_first().push(x));
        lemma_fed_chunks_push(rs.drop_first(), x);
        assert(fed_chunks(p) == seq![p.first().key, p.first().value] + fed_chunks(
            p.drop_first(),
        ));
        assert(fed_chunks(p) =~= fed_chunks(rs).push(x.key).push(x.value));
    }
}

/// Executes one read-only walk over `table`, restricted to `range`, stopping
/// after `limit` records when one is configured, and reports the checksum,
/// the record count, the first and last visited keys and the elapsed time.
#[verifier::loop_isolation(false)]
pub fn get_checksum<S: ProgressSink>(
    table: &Vec<Record>,
    range: &KeyRange,
    limit: Option<usize>,
    progress: &mut S,
) -> (res: WalkResult)
    ensures
        walk_result_matches(res, views_of(table@), range@, limit),
{
    let start_time = std::time::Instant::now();
    let limit_n: usize = match limit {
        Option::Some(l) => l,
        Option::None => table.len(),
    };
    let ghost t = views_of(table@);
    let ghost lim = effective_limit(t.len(), limit);
    assert(lim == limit_n as nat);

    let mut acc = ChecksumAccumulator::with_seeds(SEED_K0, SEED_K1, SEED_K2, SEED_K3);
    let mut count: usize = 0;
    let mut first_key: Option<Vec<u8>> = Option::None;
    let mut end_key: Option<Vec<u8>> = Option::None;
    let mut i: usize = 0;
    let ghost mut vis: Seq<RecordView> = Seq::empty();

    assert(t.skip(0) =~= t);
    assert(vis + visited_records(t, range@, lim) =~= visited_records(t, range@, lim));

    while i < table.len() && count < limit_n
        invariant
            i <= table@.len(),
            count <= i,
            count <= limit_n,
            count == vis.len(),
            visited_records(t, range@, lim) == vis + visited_records(
                t.skip(i as int),
                range@,
                (lim - count) as nat,
            ),
            acc.seeds() == (SEED_K0, SEED_K1, SEED_K2, SEED_K3),
            acc.fed() == fed_chunks(vis),
            count == 0 ==> first_key is None && end_key is None,
            count > 0 ==> (first_key matches Option::Some(k) && k@ == vis.first().key),
            count > 0 ==> (end_key matches Option::Some(k) && k@ == vis.last().key),
        decreases table@.len() - i,
    {
        let rec = &table[i];
        let ghost rest = t.skip(i as int);
        proof {
            assert(rest.len() == t.len() - i);
            assert(rest.first() == t[i as int]);
            assert(t[i as int] == table@[i as int]@);
            assert(rest.drop_first() =~= t.skip(i as int + 1));
        }
        if range.contains_key(rec.key.as_slice()) {
            proof {
                assert(key_in_range(range@, rest.first().key));
                assert(visited_records(rest, range@, (lim - count) as nat) == seq![rest.first()]
                    + visited_records(rest.drop_first(), range@, (lim - count - 1) as nat));
            }
            if count % PROGRESS_INTERVAL == 0 {
                progress.report(count);
            }
            acc.write_bytes(rec.key.as_slice());
            acc.write_bytes(rec.value.as_slice());
            if first_key.is_none() {
                first_key = Option::Some(copy_bytes(&rec.key));
            }
            end_key = Option::Some(copy_bytes(&rec.key));
            proof {
                lemma_fed_chunks_push(vis, rec@);
                assert(vis + (seq![rec@] + visited_records(
                    rest.drop_first(),
                    range@,
                    (lim - count - 1) as nat,
                )) =~= vis.push(rec@) + visited_records(
                    rest.drop_first(),
                    range@,
                    (lim - count - 1) as nat,
                ));
                vis = vis.push(rec@);
            }
            count = count + 1;
        } else {
            proof {
                assert(!key_in_range(range@, rest.first().key));
                assert(visited_records(rest, range@, (lim - count) as nat) == visited_records(
                    rest.drop_first(),
                    range@,
                    (lim - count) as nat,
                ));
            }
        }
        i = i + 1;
    }

    proof {
        if count == limit_n {
            assert(visited_records(t.skip(i as int), range@, 0) =~= Seq::<RecordView>::empty());
        } else {
            assert(t.skip(i as int).len() == 0);
            assert(visited_records(t.skip(i as int), range@, (lim - count) as nat)
                =~= Seq::<RecordView>::empty());
        }
        assert(vis + Seq::<RecordView>::empty() =~= vis);
        assert(vis == visited_records(t, range@, lim));
    }

    let checksum = acc.digest();
    let elapsed = start_time.elapsed();
    WalkResult {
        checksum,
        elapsed_millis: elapsed.as_millis(),
        record_count: count,
        first_key,
        end_key,
    }
}

/// For a fixed table snapshot, range and limit, any two walk reports agree
/// on the checksum, the record count, and the first and last visited keys.
pub proof fn lemma_walk_deterministic(
    a: WalkResult,
    b: WalkResult,
    t: Seq<RecordView>,
    r: RangeView,
    limit: Option<usize>,
)
    requires
        walk_result_matches(a, t, r, limit),
        walk_result_matches(b, t, r, limit),
    ensures
        a.checksum == b.checksum,
        a.record_count == b.record_count,
        opt_key_view(a.first_key) == opt_key_view(b.first_key),
        opt_key_view(a.end_key) == opt_key_view(b.end_key),
{
}

/// A walk without a limit visits exactly the in-range records; a limit cuts
/// that sequence off after `limit` records and no earlier.
pub proof fn lemma_limit_truncation(t: Seq<RecordView>, r: RangeView, limit: nat)
    ensures
        limit >= selected(t, r).len() ==> visited_records(t, r, limit) == selected(t, r),
        limit <= selected(t, r).len() ==> visited_records(t, r, limit) == selected(t, r).take(
            limit as int,
        ),
        visited_records(t, r, limit).len() == if limit <= selected(t, r).len() {
            limit
        } else {
            selected(t, r).len()
        },
        0 < limit && limit <= selected(t, r).len() ==> visited_records(t, r, limit).last()
            == selected(t, r)[limit as int - 1],
    decreases t.len(),
{
    if limit == 0 {
        assert(visited_records(t, r, 0) =~= Seq::<RecordView>::empty());
        assert(selected(t, r).take(0) =~= Seq::<RecordView>::empty());
    } else if t.len() == 0 {
        assert(selected(t, r) =~= Seq::<RecordView>::empty());
        assert(selected(t, r).take(0) =~= Seq::<RecordView>::empty());
    } else {
        lemma_limit_truncation(t.drop_first(), r, limit);
        if key_in_range(r, t.first().key) {
            lemma_limit_truncation(t.drop_first(), r, (limit - 1) as nat);
            let selr = selected(t.drop_first(), r);
            if limit - 1 <= selr.len() {
                assert((seq![t.first()] + selr).take(limit as int) =~= seq![t.first()]
                    + selr.take(limit - 1));
            }
        }
    }
}

/// Every record a walk visits comes from the table and has an in-range key,
/// and every table record with an in-range key is visited by a walk without
/// a limit.
pub proof fn lemma_selected_characterization(t: Seq<RecordView>, r: RangeView)
    ensures
        selected(t, r).len() <= t.len(),
        forall|i: int| 0 <= i < selected(t, r).len() ==> key_in_range(
            r,
            (#[trigger] selected(t, r)[i]).key,
        ),
        forall|i: int| 0 <= i < selected(t, r).len() ==> t.contains(#[trigger] selected(t, r)[i]),
        forall|j: int| 0 <= j < t.len() && key_in_range(r, (#[trigger] t[j]).key) ==> selected(
            t,
            r,
        ).contains(t[j]),
    decreases t.len(),
{
    if t.len() > 0 {
        let rest = t.drop_first();
        lemma_selected_characterization(rest, r);
        let s = selected(t, r);
        let sr = selected(rest, r);
        assert forall|i: int| 0 <= i < s.len() implies t.contains(#[trigger] s[i]) by {
            if key_in_range(r, t.first().key) {
                if i == 0 {
                    assert(t[0] == s[0]);
                } else {
                    assert(s[i] == sr[i - 1]);
                    lemma_contains_shift(t, sr[i - 1]);
                }
            } else {
                assert(s[i] == sr[i]);
                lemma_contains_shift(t, sr[i]);
            }
        }
        assert forall|j: int|
            0 <= j < t.len() && key_in_range(r, (#[trigger] t[j]).key) implies s.contains(
            t[j],
        ) by {
            if j == 0 {
                assert(s[0] == t[0]);
                assert(s.contains(t[0]));
            } else {
                assert(rest[j - 1] == t[j]);
                assert(sr.contains(t[j]));
                let w = choose|w: int| 0 <= w < sr.len() && sr[w] == t[j];
                if key_in_range(r, t.first().key) {
                    assert(s[w + 1] == sr[w]);
                } else {
                    assert(s[w] == sr[w]);
                }
            }
        }
    }
}

/// A record of the tail of `t` is a record of `t`.
proof fn lemma_contains_shift(t: Seq<RecordView>, x: RecordView)
    requires
        t.len() > 0,
        t.drop_first().contains(x),
    ensures
        t.contains(x),
{
    let i = choose|i: int| 0 <= i < t.drop_first().len() && t.drop_first()[i] == x;
    assert(t[i + 1] == x);
}

/// An unbounded walk without a limit visits the entire table.
pub proof fn lemma_unbounded_visits_all(t: Seq<RecordView>)
    ensures
        selected(t, RangeView::Unbounded) == t,
    decreases t.len(),
{
    if t.len() > 0 {
        lemma_unbounded_visits_all(t.drop_first());
        assert(seq![t.first()] + t.drop_first() =~= t);
    }
}

/// In a walk without a limit over the whole table, unbounded at both ends,
/// every record of the table is visited, in table order.
pub proof fn lemma_unbounded_walk_visits_table(t: Seq<RecordView>)
    ensures
        visited_records(t, RangeView::Unbounded, effective_limit(t.len(), Option::None)) == t,
{
    lemma_unbounded_visits_all(t);
    lemma_limit_truncation(t, RangeView::Unbounded, t.len());
}

/// In a walk without a limit over a bounded range whose ends are ordered, a
/// record whose key is exactly the start key or exactly the end key is
/// visited.
pub proof fn lemma_bounded_walk_includes_endpoints(
    t: Seq<RecordView>,
    k1: Seq<u8>,
    k2: Seq<u8>,
    j: int,
)
    requires
        lex_le(k1, k2),
        0 <= j < t.len(),
        t[j].key == k1 || t[j].key == k2,
    ensures
        visited_records(t, RangeView::Bounded(k1, k2), effective_limit(t.len(), Option::None))
            .contains(t[j]),
{
    lemma_bounded_endpoints_included(k1, k2);
    lemma_selected_characterization(t, RangeView::Bounded(k1, k2));
    lemma_limit_truncation(t, RangeView::Bounded(k1, k2), t.len());
}

/// No walk over a bounded range visits a record whose key lies strictly
/// below the start key or strictly above the end key, whatever the limit.
pub proof fn lemma_bounded_walk_excludes_outside(
    t: Seq<RecordView>,
    k1: Seq<u8>,
    k2: Seq<u8>,
    x: RecordView,
    limit: nat,
)
    requires
        lex_lt(x.key, k1) || lex_lt(k2, x.key),
    ensures
        !visited_records(t, RangeView::Bounded(k1, k2), limit).contains(x),
{
    let r = RangeView::Bounded(k1, k2);
    let vis = visited_records(t, r, limit);
    lemma_bounded_excludes_outside(k1, k2, x.key);
    lemma_selected_characterization(t, r);
    lemma_limit_truncation(t, r, limit);
    if vis.contains(x) {
        let i = choose|i: int| 0 <= i < vis.len() && vis[i] == x;
        assert(selected(t, r)[i] == x);
        assert(key_in_range(r, selected(t, r)[i].key));
    }
}

/// A bounded range whose start lies strictly above its end yields a walk
/// that visits no record, whatever the table and the limit.
pub proof fn lemma_inverted_range_walk(t: Seq<RecordView>, k1: Seq<u8>, k2: Seq<u8>, limit: nat)
    requires
        lex_lt(k2, k1),
    ensures
        visited_records(t, RangeView::Bounded(k1, k2), limit) == Seq::<RecordView>::empty(),
    decreases t.len(),
{
    if t.len() > 0 && limit > 0 {
        lemma_inverted_range_is_empty(k1, k2, t.first().key);
        lemma_inverted_range_walk(t.drop_first(), k1, k2, limit);
    }
}

} // verus!


