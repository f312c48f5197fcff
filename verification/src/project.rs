//! Projection of alignment records into ribbon geometry: one
//! representative record is chosen per query contig, the representatives
//! are ordered by target start, each query lane receives a within-block
//! offset, and every record's query interval is reflected and swapped
//! according to its two orientation flags.

use vstd::prelude::*;
use vstd::pervasive::VecAdditionalExecFns;
use crate::records::{AlnRecord, SeqLenEntry, table_lookup};
use crate::resolve::{span_of, valid_spans};

verus! {

/// The orientation-aware transform of a query interval: if the contig's
/// overall strand is reverse, the interval is reflected across the
/// contig; the endpoints are then swapped exactly when the alignment
/// strand disagrees with the contig strand.
pub open spec fn project_spec(qs: u32, qe: u32, qlen: u32, orientation: u32, ctg_orientation: u32) -> (
    int,
    int,
) {
    let a = if ctg_orientation == 1 {
        qlen - qe
    } else {
        qs as int
    };
    let b = if ctg_orientation == 1 {
        qlen - qs
    } else {
        qe as int
    };
    if orientation != ctg_orientation {
        (b, a)
    } else {
        (a, b)
    }
}

/// Applies the orientation-aware transform to one query interval.
pub fn project_interval(qs: u32, qe: u32, qlen: u32, orientation: u32, ctg_orientation: u32) -> (r: (
    u32,
    u32,
))
    requires
        qs <= qe,
        qe <= qlen,
    ensures
        (r.0 as int, r.1 as int) == project_spec(qs, qe, qlen, orientation, ctg_orientation),
{
    let (a, b) = if ctg_orientation == 1 {
        (qlen - qe, qlen - qs)
    } else {
        (qs, qe)
    };
    if orientation != ctg_orientation {
        (b, a)
    } else {
        (a, b)
    }
}

/// Reverse-strand projection reflects the query interval across the
/// contig, and a further endpoint swap happens exactly when the
/// alignment strand disagrees with the contig strand; forward-strand
/// projection leaves the interval as given, up to the same swap.
pub proof fn lemma_projection_orientation(qs: u32, qe: u32, qlen: u32, o: u32, co: u32)
    requires
        qe <= qlen,
    ensures
        ({
            let r = project_spec(qs, qe, qlen, o, co);
            &&& (co == 1 && o == co) ==> r == (qlen - qe as int, qlen - qs as int)
            &&& (co == 1 && o != co) ==> r == (qlen - qs as int, qlen - qe as int)
            &&& (co != 1 && o == co) ==> r == (qs as int, qe as int)
            &&& (co != 1 && o != co) ==> r == (qe as int, qs as int)
        }),
{
}

/// The alternate-lane transform for a query's own alternate alignments:
/// the segment is drawn from the record's end toward its start, each
/// endpoint reflected when the contig lane itself sits on the reverse
/// strand.
pub open spec fn alt_project_spec(aqs: u32, aqe: u32, qlen: u32, lane_orientation: u32) -> (
    int,
    int,
) {
    let b = if lane_orientation == 0 {
        aqe as int
    } else {
        qlen - aqe
    };
    let e = if lane_orientation == 0 {
        aqs as int
    } else {
        qlen - aqs
    };
    (b, e)
}

/// Applies the alternate-lane transform to one alternate record's query
/// interval.
pub fn alt_project_interval(aqs: u32, aqe: u32, qlen: u32, lane_orientation: u32) -> (r: (u32, u32))
    requires
        aqs <= aqe,
        aqe <= qlen,
    ensures
        (r.0 as int, r.1 as int) == alt_project_spec(aqs, aqe, qlen, lane_orientation),
{
    if lane_orientation == 0 {
        (aqe, aqs)
    } else {
        (qlen - aqe, qlen - aqs)
    }
}

/// The first position in `s` holding a record of query `q`, or the
/// length if there is none.
pub open spec fn rep_pos(s: Seq<AlnRecord>, q: Seq<char>) -> int
    decreases s.len(),
{
    if s.len() == 0 {
        0
    } else if s[0].q_name@ == q {
        0
    } else {
        1 + rep_pos(s.drop_first(), q)
    }
}

pub proof fn lemma_rep_pos(s: Seq<AlnRecord>, q: Seq<char>)
    ensures
        0 <= rep_pos(s, q) <= s.len(),
        rep_pos(s, q) < s.len() ==> s[rep_pos(s, q)].q_name@ == q,
        forall|j: int| 0 <= j < rep_pos(s, q) ==> s[j].q_name@ != q,
    decreases s.len(),
{
    if s.len() > 0 && s[0].q_name@ != q {
        lemma_rep_pos(s.drop_first(), q);
        assert forall|j: int| 0 <= j < rep_pos(s, q) implies s[j].q_name@ != q by {
            if j > 0 {
                assert(s.drop_first()[j - 1] == s[j]);
            }
        }
    }
}

/// The representatives of the first `n` block records: one record per
/// query, the widest query span winning and the first seen winning exact
/// ties, listed in order of each query's first appearance.
pub open spec fn reps_upto(s: Seq<AlnRecord>, n: int) -> Seq<AlnRecord>
    decreases n,
{
    if n <= 0 {
        Seq::<AlnRecord>::empty()
    } else {
        let p = reps_upto(s, n - 1);
        let r = s[n - 1];
        let i = rep_pos(p, r.q_name@);
        if i < p.len() {
            if span_of(r) > span_of(p[i]) {
                p.update(i, r)
            } else {
                p
            }
        } else {
            p.push(r)
        }
    }
}

pub open spec fn reps(s: Seq<AlnRecord>) -> Seq<AlnRecord> {
    reps_upto(s, s.len() as int)
}

proof fn lemma_reps_upto_len(s: Seq<AlnRecord>, n: int)
    requires
        0 <= n <= s.len(),
    ensures
        reps_upto(s, n).len() <= n,
    decreases n,
{
    if n > 0 {
        lemma_reps_upto_len(s, n - 1);
        lemma_rep_pos(reps_upto(s, n - 1), s[n - 1].q_name@);
    }
}

/// A block never has more representatives than records.
pub proof fn lemma_reps_len(s: Seq<AlnRecord>)
    ensures
        reps(s).len() <= s.len(),
{
    lemma_reps_upto_len(s, s.len() as int);
}

proof fn lemma_reps_upto_have_query(s: Seq<AlnRecord>, n: int, j: int)
    requires
        0 <= j < n <= s.len(),
    ensures
        exists|k: int|
            0 <= k < reps_upto(s, n).len() && #[trigger] reps_upto(s, n)[k].q_name@
                == s[j].q_name@,
    decreases n,
{
    let p = reps_upto(s, n - 1);
    let r = s[n - 1];
    let i = rep_pos(p, r.q_name@);
    lemma_rep_pos(p, r.q_name@);
    if j == n - 1 {
        if i < p.len() {
            assert(reps_upto(s, n)[i].q_name@ == s[j].q_name@);
        } else {
            assert(reps_upto(s, n)[p.len() as int].q_name@ == s[j].q_name@);
        }
    } else {
        lemma_reps_upto_have_query(s, n - 1, j);
        let k = choose|k: int| 0 <= k < p.len() && #[trigger] p[k].q_name@ == s[j].q_name@;
        if i < p.len() {
            if span_of(r) > span_of(p[i]) {
                if k == i {
                    assert(reps_upto(s, n)[k].q_name@ == s[j].q_name@);
                } else {
                    assert(reps_upto(s, n)[k].q_name@ == s[j].q_name@);
                }
            } else {
                assert(reps_upto(s, n)[k].q_name@ == s[j].q_name@);
            }
        } else {
            assert(reps_upto(s, n)[k].q_name@ == s[j].q_name@);
        }
    }
}

/// Every query of the block keeps a representative.
pub proof fn lemma_reps_have_query(s: Seq<AlnRecord>, j: int)
    requires
        0 <= j < s.len(),
    ensures
        exists|k: int|
            0 <= k < reps(s).len() && #[trigger] reps(s)[k].q_name@ == s[j].q_name@,
{
    lemma_reps_upto_have_query(s, s.len() as int, j);
    let k = choose|k: int|
        0 <= k < reps_upto(s, s.len() as int).len() && #[trigger] reps_upto(
            s,
            s.len() as int,
        )[k].q_name@ == s[j].q_name@;
    assert(reps(s)[k].q_name@ == s[j].q_name@);
}

/// Finds the first record of query `q` in `v`.
fn find_rep_pos(v: &Vec<AlnRecord>, q: &String) -> (r: Option<usize>)
    ensures
        match r {
            Some(i) => i == rep_pos(v@, q@) && i < v@.len(),
            None => rep_pos(v@, q@) == v@.len(),
        },
{
    proof {
        lemma_rep_pos(v@, q@);
    }
    let mut i: usize = 0;
    while i < v.len()
        invariant
            0 <= i <= v@.len(),
            forall|j: int| 0 <= j < i ==> v@[j].q_name@ != q@,
            0 <= rep_pos(v@, q@) <= v@.len(),
            rep_pos(v@, q@) < v@.len() ==> v@[rep_pos(v@, q@)].q_name@ == q@,
            forall|j: int| 0 <= j < rep_pos(v@, q@) ==> v@[j].q_name@ != q@,
        decreases v.len() - i,
    {
        if v[i].q_name == *q {
            proof {
                let p = rep_pos(v@, q@);
                if p < i {
                    assert(v@[p].q_name@ != q@);
                }
                if p > i {
                    assert(v@[i as int].q_name@ != q@);
                }
            }
            return Some(i);
        }
        i = i + 1;
    }
    None
}

/// Picks, per query contig of the block, the single record of widest
/// query span, the first seen winning ties, in order of first
/// appearance.
pub fn best_records(block: &Vec<AlnRecord>) -> (out: Vec<AlnRecord>)
    requires
        valid_spans(block@),
    ensures
        out@ == reps(block@),
        forall|k: int| 0 <= k < out@.len() ==> block@.contains(out@[k]),
{
    let mut out: Vec<AlnRecord> = Vec::new();
    let mut n: usize = 0;
    while n < block.len()
        invariant
            0 <= n <= block@.len(),
            valid_spans(block@),
            out@ == reps_upto(block@, n as int),
            forall|k: int| 0 <= k < out@.len() ==> block@.contains(out@[k]),
        decreases block.len() - n,
    {
        let r = &block[n];
        proof {
            assert(block@.contains(block@[n as int]));
        }
        match find_rep_pos(&out, &r.q_name) {
            Some(i) => {
                if (r.qe - r.qs) > (out[i].qe - out[i].qs) {
                    proof {
                        let k = choose|k: int|
                            0 <= k < block@.len() && block@[k] == out@[i as int];
                        assert(block@[k].qs <= block@[k].qe);
                    }
                    out.set(i, r.duplicate());
                }
            },
            None => {
                out.push(r.duplicate());
            },
        }
        n = n + 1;
    }
    out
}

/// The least position whose record starts strictly beyond `v` on the
/// target, or the length if none does.
pub open spec fn first_gt_ts(s: Seq<AlnRecord>, v: u32) -> int
    decreases s.len(),
{
    if s.len() == 0 {
        0
    } else if s[0].ts > v {
        0
    } else {
        1 + first_gt_ts(s.drop_first(), v)
    }
}

pub proof fn lemma_first_gt_ts(s: Seq<AlnRecord>, v: u32)
    ensures
        0 <= first_gt_ts(s, v) <= s.len(),
        first_gt_ts(s, v) < s.len() ==> s[first_gt_ts(s, v)].ts > v,
        forall|j: int| 0 <= j < first_gt_ts(s, v) ==> s[j].ts <= v,
    decreases s.len(),
{
    if s.len() > 0 && !(s[0].ts > v) {
        lemma_first_gt_ts(s.drop_first(), v);
        assert forall|j: int| 0 <= j < first_gt_ts(s, v) implies s[j].ts <= v by {
            if j > 0 {
                assert(s.drop_first()[j - 1] == s[j]);
            }
        }
    }
}

/// One stable insertion step of the sort by target start: the record is
/// placed before the first record starting strictly later, after any
/// equal starts.
pub open spec fn ins_ts(s: Seq<AlnRecord>, r: AlnRecord) -> Seq<AlnRecord> {
    s.insert(first_gt_ts(s, r.ts), r)
}

/// The stable sort of the first `n` records by target start.
pub open spec fn sort_ts_upto(s: Seq<AlnRecord>, n: int) -> Seq<AlnRecord>
    decreases n,
{
    if n <= 0 {
        Seq::<AlnRecord>::empty()
    } else {
        ins_ts(sort_ts_upto(s, n - 1), s[n - 1])
    }
}

pub open spec fn sort_ts(s: Seq<AlnRecord>) -> Seq<AlnRecord> {
    sort_ts_upto(s, s.len() as int)
}

pub open spec fn sorted_by_ts(s: Seq<AlnRecord>) -> bool {
    forall|i: int, j: int| 0 <= i < j < s.len() ==> s[i].ts <= s[j].ts
}

/// Sorts a block's representatives by target start, keeping the stable
/// order of equal starts.
pub fn sort_records_by_ts(v: &Vec<AlnRecord>) -> (out: Vec<AlnRecord>)
    ensures
        out@ == sort_ts(v@),
        out@.len() == v@.len(),
        sorted_by_ts(out@),
        forall|k: int| 0 <= k < out@.len() ==> v@.contains(out@[k]),
{
    let mut out: Vec<AlnRecord> = Vec::new();
    let mut n: usize = 0;
    while n < v.len()
        invariant
            0 <= n <= v@.len(),
            out@ == sort_ts_upto(v@, n as int),
            out@.len() == n,
            sorted_by_ts(out@),
            forall|k: int| 0 <= k < out@.len() ==> v@.contains(out@[k]),
        decreases v.len() - n,
    {
        let r = &v[n];
        proof {
            lemma_first_gt_ts(out@, r.ts);
            assert(v@.contains(v@[n as int]));
        }
        let mut j: usize = 0;
        while j < out.len() && out[j].ts <= r.ts
            invariant
                0 <= j <= out@.len(),
                n < v@.len(),
                r == v@[n as int],
                forall|k: int| 0 <= k < j ==> out@[k].ts <= r.ts,
                0 <= first_gt_ts(out@, r.ts) <= out@.len(),
                first_gt_ts(out@, r.ts) < out@.len() ==> out@[first_gt_ts(out@, r.ts)].ts > r.ts,
                forall|k: int| 0 <= k < first_gt_ts(out@, r.ts) ==> out@[k].ts <= r.ts,
            decreases out.len() - j,
        {
            j = j + 1;
        }
        proof {
            let fg = first_gt_ts(out@, r.ts);
            if fg < j {
                assert(out@[fg].ts <= r.ts);
            }
            if fg > j {
                assert(out@[j as int].ts <= r.ts);
            }
            assert(j == fg);
            out@.insert_ensures(j as int, *r);
        }
        let ghost old_out = out@;
        out.insert(j, r.duplicate());
        proof {
            assert(out@ == ins_ts(old_out, v@[n as int]));
            assert forall|a: int, b: int| 0 <= a < b < out@.len() implies out@[a].ts
                <= out@[b].ts by {
                old_out.insert_ensures(j as int, v@[n as int]);
            }
            assert forall|k: int| 0 <= k < out@.len() implies v@.contains(out@[k]) by {
                old_out.insert_ensures(j as int, v@[n as int]);
                if k < j {
                    assert(out@[k] == old_out[k]);
                } else if k > j {
                    assert(out@[k] == old_out[k - 1]);
                }
            }
        }
        n = n + 1;
    }
    out
}

proof fn lemma_sort_ts_upto_keeps(s: Seq<AlnRecord>, n: int, j: int)
    requires
        0 <= j < n <= s.len(),
    ensures
        exists|k: int|
            0 <= k < sort_ts_upto(s, n).len() && #[trigger] sort_ts_upto(s, n)[k] == s[j],
    decreases n,
{
    let p = sort_ts_upto(s, n - 1);
    let pos = first_gt_ts(p, s[n - 1].ts);
    lemma_first_gt_ts(p, s[n - 1].ts);
    p.insert_ensures(pos, s[n - 1]);
    if j == n - 1 {
        assert(sort_ts_upto(s, n)[pos] == s[j]);
    } else {
        lemma_sort_ts_upto_keeps(s, n - 1, j);
        let k = choose|k: int| 0 <= k < p.len() && #[trigger] p[k] == s[j];
        if k < pos {
            assert(sort_ts_upto(s, n)[k] == s[j]);
        } else {
            assert(sort_ts_upto(s, n)[k + 1] == s[j]);
        }
    }
}

/// Sorting drops no record.
pub proof fn lemma_sort_ts_keeps(s: Seq<AlnRecord>, j: int)
    requires
        0 <= j < s.len(),
    ensures
        exists|k: int| 0 <= k < sort_ts(s).len() && #[trigger] sort_ts(s)[k] == s[j],
{
    lemma_sort_ts_upto_keeps(s, s.len() as int, j);
    let k = choose|k: int|
        0 <= k < sort_ts_upto(s, s.len() as int).len() && #[trigger] sort_ts_upto(
            s,
            s.len() as int,
        )[k] == s[j];
    assert(sort_ts(s)[k] == s[j]);
}

/// Every query of a block holds a lane among the sorted
/// representatives.
pub proof fn lemma_lanes_have_query(s: Seq<AlnRecord>, j: int)
    requires
        0 <= j < s.len(),
    ensures
        rep_pos(sort_ts(reps(s)), s[j].q_name@) < sort_ts(reps(s)).len(),
{
    lemma_reps_have_query(s, j);
    let k = choose|k: int|
        0 <= k < reps(s).len() && #[trigger] reps(s)[k].q_name@ == s[j].q_name@;
    lemma_sort_ts_keeps(reps(s), k);
    let k2 = choose|k2: int|
        0 <= k2 < sort_ts(reps(s)).len() && #[trigger] sort_ts(reps(s))[k2] == reps(s)[k];
    lemma_rep_pos(sort_ts(reps(s)), s[j].q_name@);
    if rep_pos(sort_ts(reps(s)), s[j].q_name@) >= sort_ts(reps(s)).len() {
        assert(sort_ts(reps(s))[k2].q_name@ != s[j].q_name@);
    }
}

/// The length recorded for a query, or zero when the query is missing
/// (validated inputs always carry a length).
pub open spec fn qlen_of(qt: Seq<SeqLenEntry>, q: Seq<char>) -> int {
    match table_lookup(qt, q) {
        Some(l) => l as int,
        None => 0,
    }
}

/// The within-block offset of lane `i`: the summed lengths of the query
/// contigs of all earlier lanes.
pub open spec fn offset_at(rs: Seq<AlnRecord>, qt: Seq<SeqLenEntry>, i: int) -> int
    decreases i,
{
    if i <= 0 {
        0
    } else {
        offset_at(rs, qt, i - 1) + qlen_of(qt, rs[i - 1].q_name@)
    }
}

/// The query extent of a block: the total length of its query lanes.
pub open spec fn extent_spec(rs: Seq<AlnRecord>, qt: Seq<SeqLenEntry>) -> int {
    offset_at(rs, qt, rs.len() as int)
}

pub proof fn lemma_offset_at_bounds(rs: Seq<AlnRecord>, qt: Seq<SeqLenEntry>, i: int)
    requires
        0 <= i <= rs.len(),
    ensures
        0 <= offset_at(rs, qt, i) <= i * 0xffff_ffff,
    decreases i,
{
    if i > 0 {
        lemma_offset_at_bounds(rs, qt, i - 1);
    }
}

pub proof fn lemma_offset_at_mono(rs: Seq<AlnRecord>, qt: Seq<SeqLenEntry>, i: int, j: int)
    requires
        0 <= i <= j <= rs.len(),
    ensures
        offset_at(rs, qt, i) <= offset_at(rs, qt, j),
    decreases j - i,
{
    if i < j {
        lemma_offset_at_mono(rs, qt, i, j - 1);
        lemma_offset_at_bounds(rs, qt, j - 1);
    }
}

/// Assigns each lane of the sorted representatives its within-block
/// offset, accumulating query lengths left to right.
pub fn assign_offsets(rs: &Vec<AlnRecord>, qt: &Vec<SeqLenEntry>) -> (out: Vec<u64>)
    requires
        forall|k: int| 0 <= k < rs@.len() ==> table_lookup(qt@, rs@[k].q_name@) is Some,
        extent_spec(rs@, qt@) <= 0xffff_ffff_ffff_ffff,
    ensures
        out@.len() == rs@.len(),
        forall|i: int| 0 <= i < out@.len() ==> out@[i] == offset_at(rs@, qt@, i),
{
    let mut out: Vec<u64> = Vec::new();
    let mut acc: u64 = 0;
    let mut i: usize = 0;
    while i < rs.len()
        invariant
            0 <= i <= rs@.len(),
            forall|k: int| 0 <= k < rs@.len() ==> table_lookup(qt@, rs@[k].q_name@) is Some,
            extent_spec(rs@, qt@) <= 0xffff_ffff_ffff_ffff,
            acc == offset_at(rs@, qt@, i as int),
            out@.len() == i,
            forall|k: int| 0 <= k < i ==> out@[k] == offset_at(rs@, qt@, k),
        decreases rs.len() - i,
    {
        out.push(acc);
        let l = match crate::records::lookup_len(qt, &rs[i].q_name) {
            Some(l) => l,
            None => 0,
        };
        proof {
            lemma_offset_at_mono(rs@, qt@, i as int + 1, rs@.len() as int);
            lemma_offset_at_bounds(rs@, qt@, i as int);
        }
        acc = acc + l as u64;
        i = i + 1;
    }
    out
}

/// Sums the query lengths of a block's lanes.
pub fn extent_of(rs: &Vec<AlnRecord>, qt: &Vec<SeqLenEntry>) -> (r: u64)
    requires
        rs@.len() <= 0xffff_ffff,
        forall|k: int| 0 <= k < rs@.len() ==> table_lookup(qt@, rs@[k].q_name@) is Some,
    ensures
        r == extent_spec(rs@, qt@),
{
    let mut acc: u64 = 0;
    let mut i: usize = 0;
    while i < rs.len()
        invariant
            0 <= i <= rs@.len(),
            rs@.len() <= 0xffff_ffff,
            forall|k: int| 0 <= k < rs@.len() ==> table_lookup(qt@, rs@[k].q_name@) is Some,
            acc == offset_at(rs@, qt@, i as int),
            acc <= i * 0xffff_ffff,
        decreases rs.len() - i,
    {
        let l = match crate::records::lookup_len(qt, &rs[i].q_name) {
            Some(l) => l,
            None => 0,
        };
        acc = acc + l as u64;
        i = i + 1;
    }
    acc
}

/// The within-block offset of query `q` among the sorted
/// representatives, if `q` holds a lane.
pub open spec fn q_offset_of(rs: Seq<AlnRecord>, qt: Seq<SeqLenEntry>, q: Seq<char>) -> Option<
    int,
> {
    if rep_pos(rs, q) < rs.len() {
        Some(offset_at(rs, qt, rep_pos(rs, q)))
    } else {
        None
    }
}

/// Looks the lane offset of query `q` up among the sorted
/// representatives.
pub fn q_offset_lookup(rs: &Vec<AlnRecord>, offsets: &Vec<u64>, q: &String) -> (r: Option<u64>)
    requires
        offsets@.len() == rs@.len(),
    ensures
        r is Some <==> rep_pos(rs@, q@) < rs@.len(),
        r is Some ==> r.unwrap() == offsets@[rep_pos(rs@, q@)],
{
    match find_rep_pos(rs, q) {
        Some(i) => Some(offsets[i]),
        None => None,
    }
}

} // verus!
