//! Scene assembly: the placed targets are turned into a two-level scene,
//! a genome-wide overview and one detail view per target, all in integer
//! base coordinates on the shared axis. Scaling to drawing units and
//! serialization are the caller's business.

use vstd::prelude::*;
use vstd::string::StringSliceAdditionalSpecFns;
use crate::coloring::{color_index, color_index_spec};
use crate::records::{
    AlnRecord, CtgMapSet, CytoBandRec, HighlightEntry, PlotError, SeqLenEntry, lookup_len,
    record_ok, records_q_ok, table_lookup, validate_records, validate_spec,
};
use crate::resolve::{
    alt_for_query, alt_for_query_upto, alt_for_target, alt_for_target_upto, alt_records_for_query,
    alt_records_for_target, map_is_primary_map, primary_for, primary_lookup, primary_map,
    primary_of, primary_records_for, valid_spans,
};
use crate::project::{
    alt_project_interval, alt_project_spec, assign_offsets, best_records, extent_spec,
    lemma_lanes_have_query, lemma_offset_at_bounds, lemma_offset_at_mono, lemma_rep_pos,
    offset_at, project_interval, project_spec, q_offset_lookup, qlen_of, rep_pos, reps,
    sort_records_by_ts, sort_ts,
};
use crate::layout::{
    AXIS_LIMIT, LayoutBlock, PlotFilter, blocks_match, block_extent, block_lanes, block_width,
    included, layout_blocks, lemma_primary_for_upto_contains, lemma_width_upto_mono,
    sort_entries, sort_entries_spec, total_width, width_upto,
};

verus! {

/// One query-contig lane: the backbone segment holding a contig on the
/// axis.
#[derive(Debug)]
pub struct LaneSeg {
    pub q_name: String,
    pub start: u64,
    pub end: u64,
    pub color: u64,
}

/// One projected ribbon: the quadrilateral joining a target interval to
/// the matching query interval, with the record it was projected from.
#[derive(Debug)]
pub struct Ribbon {
    pub ts: u64,
    pub te: u64,
    pub qs: u64,
    pub qe: u64,
    pub color: u64,
    pub rec: AlnRecord,
}

/// One alternate record drawn on the target side of a detail view, with
/// the primary target of its query, if the query has one.
#[derive(Debug)]
pub struct AltTargetSeg {
    pub start: u64,
    pub end: u64,
    pub query_primary: Option<String>,
    pub rec: AlnRecord,
}

/// One alternate alignment of a placed query contig, drawn under the
/// contig's own lane.
#[derive(Debug)]
pub struct AltQuerySeg {
    pub start: u64,
    pub end: u64,
    pub color: u64,
    pub rec: AlnRecord,
}

/// One query lane of a detail view, with the contig's alternate
/// alignments anchored against the contig's own orientation.
#[derive(Debug)]
pub struct DetailLane {
    pub q_name: String,
    pub start: u64,
    pub end: u64,
    pub color: u64,
    pub alts: Vec<AltQuerySeg>,
}

/// One target block of the genome-wide overview.
#[derive(Debug)]
pub struct OverviewBlock {
    pub id: u32,
    pub name: String,
    pub len: u32,
    pub offset: u64,
    pub highlights: Vec<(u64, u64)>,
    pub lanes: Vec<LaneSeg>,
    pub ribbons: Vec<Ribbon>,
}

/// One per-target detail view, in block-local base coordinates.
#[derive(Debug)]
pub struct DetailBlock {
    pub name: String,
    pub len: u32,
    pub cyto: Option<Vec<CytoBandRec>>,
    pub highlights: Vec<(u64, u64)>,
    pub alt_targets: Vec<AltTargetSeg>,
    pub lanes: Vec<DetailLane>,
    pub ribbons: Vec<Ribbon>,
}

/// The assembled two-level scene.
#[derive(Debug)]
pub struct Scene {
    pub overview: Option<Vec<OverviewBlock>>,
    pub details: Vec<DetailBlock>,
    pub total_width: u64,
}

/// The records of the first `n` that receive a ribbon: those not marked
/// duplicate on both axes at once.
pub open spec fn ribbon_recs_upto(s: Seq<AlnRecord>, n: int) -> Seq<AlnRecord>
    decreases n,
{
    if n <= 0 {
        Seq::<AlnRecord>::empty()
    } else {
        let p = ribbon_recs_upto(s, n - 1);
        if !(s[n - 1].t_dup && s[n - 1].q_dup) {
            p.push(s[n - 1])
        } else {
            p
        }
    }
}

pub open spec fn ribbon_recs(s: Seq<AlnRecord>) -> Seq<AlnRecord> {
    ribbon_recs_upto(s, s.len() as int)
}

/// How many of the first `n` records carry both duplicate marks.
pub open spec fn double_dup_count(s: Seq<AlnRecord>, n: int) -> int
    decreases n,
{
    if n <= 0 {
        0
    } else {
        double_dup_count(s, n - 1) + if s[n - 1].t_dup && s[n - 1].q_dup {
            1int
        } else {
            0int
        }
    }
}

/// Doubly-duplicate records are excluded from ribbon geometry and from
/// nothing else: the ribbons drawn for a block fall short of its record
/// count by exactly the number of records marked duplicate on both axes.
pub proof fn lemma_ribbon_partition(s: Seq<AlnRecord>, n: int)
    requires
        0 <= n <= s.len(),
    ensures
        ribbon_recs_upto(s, n).len() + double_dup_count(s, n) == n,
    decreases n,
{
    if n > 0 {
        lemma_ribbon_partition(s, n - 1);
    }
}

/// How one ribbon must relate to the record it projects: target
/// interval shifted by the block offset, query interval reflected and
/// swapped by the orientation flags and shifted by block offset plus
/// lane offset, color taken from the query name.
pub open spec fn ribbon_matches(
    rb: Ribbon,
    r: AlnRecord,
    qt: Seq<SeqLenEntry>,
    t_offset: int,
    lanes: Seq<AlnRecord>,
) -> bool {
    let ql = table_lookup(qt, r.q_name@).unwrap();
    let p = project_spec(r.qs, r.qe, ql, r.orientation, r.ctg_orientation);
    let qo = t_offset + offset_at(lanes, qt, rep_pos(lanes, r.q_name@));
    &&& rb.rec == r
    &&& rb.ts == t_offset + r.ts
    &&& rb.te == t_offset + r.te
    &&& rb.qs == qo + p.0
    &&& rb.qe == qo + p.1
    &&& rb.color == color_index_spec(r.q_name@)
}

/// How one overview or detail lane must relate to lane `i` of the
/// block.
pub open spec fn lane_coords_ok(
    q_name: String,
    start: u64,
    end: u64,
    color: u64,
    lanes: Seq<AlnRecord>,
    i: int,
    qt: Seq<SeqLenEntry>,
    t_offset: int,
) -> bool {
    &&& q_name == lanes[i].q_name
    &&& start == t_offset + offset_at(lanes, qt, i)
    &&& end == t_offset + offset_at(lanes, qt, i) + qlen_of(qt, lanes[i].q_name@)
    &&& color == color_index_spec(lanes[i].q_name@)
}

/// The highlight intervals annotating target-name bytes `tb`, among the
/// first `n` entries, in file order.
pub open spec fn highlights_for_upto(hs: Seq<HighlightEntry>, tb: Seq<u8>, n: int) -> Seq<
    (u32, u32),
>
    decreases n,
{
    if n <= 0 {
        Seq::<(u32, u32)>::empty()
    } else {
        let p = highlights_for_upto(hs, tb, n - 1);
        if hs[n - 1].name@ == tb {
            p.push((hs[n - 1].bgn, hs[n - 1].end))
        } else {
            p
        }
    }
}

pub open spec fn highlights_for(hs: Seq<HighlightEntry>, tb: Seq<u8>) -> Seq<(u32, u32)> {
    highlights_for_upto(hs, tb, hs.len() as int)
}

/// Whether a stored name reads as the same bytes as a target name.
fn name_bytes_eq(a: &Vec<u8>, b: &str) -> (r: bool)
    ensures
        r == (a@ == b.spec_bytes()),
{
    let bb = b.as_bytes();
    if a.len() != bb.len() {
        proof {
            assert(a@ != b.spec_bytes());
        }
        return false;
    }
    let mut i: usize = 0;
    while i < a.len()
        invariant
            0 <= i <= a@.len(),
            a@.len() == bb@.len(),
            bb@ == b.spec_bytes(),
            forall|j: int| 0 <= j < i ==> a@[j] == bb@[j],
        decreases a.len() - i,
    {
        if a[i] != bb[i] {
            return false;
        }
        i = i + 1;
    }
    proof {
        assert(a@ =~= bb@);
    }
    true
}

/// Collects the highlight intervals of one target, shifted onto the
/// axis by the block offset.
fn highlights_for_block(hs: &Vec<HighlightEntry>, t_name: &String, t_offset: u64) -> (out: Vec<
    (u64, u64),
>)
    requires
        t_offset <= AXIS_LIMIT,
    ensures
        out@.len() == highlights_for(hs@, vstd::utf8::encode_utf8(t_name@)).len(),
        forall|i: int|
            #![trigger out@[i]]
            0 <= i < out@.len() ==> out@[i].0 == t_offset
                + highlights_for(hs@, vstd::utf8::encode_utf8(t_name@))[i].0 && out@[i].1 == t_offset
                + highlights_for(hs@, vstd::utf8::encode_utf8(t_name@))[i].1,
{
    let ghost tb = vstd::utf8::encode_utf8(t_name@);
    let mut out: Vec<(u64, u64)> = Vec::new();
    let mut n: usize = 0;
    while n < hs.len()
        invariant
            0 <= n <= hs@.len(),
            t_offset <= AXIS_LIMIT,
            tb == vstd::utf8::encode_utf8(t_name@),
            out@.len() == highlights_for_upto(hs@, tb, n as int).len(),
            forall|i: int|
                #![trigger out@[i]]
                0 <= i < out@.len() ==> out@[i].0 == t_offset + highlights_for_upto(
                    hs@,
                    tb,
                    n as int,
                )[i].0 && out@[i].1 == t_offset + highlights_for_upto(hs@, tb, n as int)[i].1,
        decreases hs.len() - n,
    {
        if name_bytes_eq(&hs[n].name, t_name.as_str()) {
            out.push((t_offset + hs[n].bgn as u64, t_offset + hs[n].end as u64));
        }
        n = n + 1;
    }
    out
}

/// The band list recorded for a target, taken from the first entry that
/// carries that name.
pub open spec fn cyto_lookup(c: Seq<(String, Vec<CytoBandRec>)>, t: Seq<char>) -> Option<
    Seq<CytoBandRec>,
>
    decreases c.len(),
{
    if c.len() == 0 {
        None
    } else if c[0].0@ == t {
        Some(c[0].1@)
    } else {
        cyto_lookup(c.drop_first(), t)
    }
}

proof fn lemma_cyto_lookup_at(c: Seq<(String, Vec<CytoBandRec>)>, t: Seq<char>, i: int)
    requires
        0 <= i < c.len(),
        forall|j: int| 0 <= j < i ==> c[j].0@ != t,
        c[i].0@ == t,
    ensures
        cyto_lookup(c, t) == Some(c[i].1@),
    decreases i,
{
    if i > 0 {
        lemma_cyto_lookup_at(c.drop_first(), t, i - 1);
    }
}

proof fn lemma_cyto_lookup_none(c: Seq<(String, Vec<CytoBandRec>)>, t: Seq<char>)
    requires
        forall|j: int| 0 <= j < c.len() ==> c[j].0@ != t,
    ensures
        cyto_lookup(c, t) is None,
    decreases c.len(),
{
    if c.len() > 0 {
        lemma_cyto_lookup_none(c.drop_first(), t);
    }
}

/// Looks a target's band list up and hands back its own copy.
fn cyto_for_target(c: &Vec<(String, Vec<CytoBandRec>)>, t: &String) -> (r: Option<
    Vec<CytoBandRec>,
>)
    ensures
        match r {
            Some(v) => cyto_lookup(c@, t@) == Some(v@),
            None => cyto_lookup(c@, t@) is None,
        },
{
    let mut i: usize = 0;
    while i < c.len()
        invariant
            0 <= i <= c@.len(),
            forall|j: int| 0 <= j < i ==> c@[j].0@ != t@,
        decreases c.len() - i,
    {
        if c[i].0 == *t {
            proof {
                lemma_cyto_lookup_at(c@, t@, i as int);
            }
            let src = &c[i].1;
            let mut out: Vec<CytoBandRec> = Vec::new();
            let mut k: usize = 0;
            while k < src.len()
                invariant
                    0 <= k <= src@.len(),
                    out@ =~= src@.take(k as int),
                decreases src.len() - k,
            {
                out.push(src[k].duplicate());
                k = k + 1;
            }
            proof {
                assert(out@ =~= src@);
            }
            return Some(out);
        }
        i = i + 1;
    }
    proof {
        lemma_cyto_lookup_none(c@, t@);
    }
    None
}

/// Elements of the target-side alternate partition come from the record
/// list itself.
proof fn lemma_alt_target_upto_contains(s: Seq<AlnRecord>, t: Seq<char>, n: int, k: int)
    requires
        0 <= n <= s.len(),
        0 <= k < alt_for_target_upto(s, t, n).len(),
    ensures
        s.contains(alt_for_target_upto(s, t, n)[k]),
    decreases n,
{
    if n > 0 {
        let p = alt_for_target_upto(s, t, n - 1);
        if k < p.len() {
            lemma_alt_target_upto_contains(s, t, n - 1, k);
        } else {
            assert(alt_for_target_upto(s, t, n)[k] == s[n - 1]);
        }
    }
}

/// Elements of the query-side alternate partition come from the record
/// list itself.
proof fn lemma_alt_query_upto_contains(s: Seq<AlnRecord>, q: Seq<char>, n: int, k: int)
    requires
        0 <= n <= s.len(),
        0 <= k < alt_for_query_upto(s, q, n).len(),
    ensures
        s.contains(alt_for_query_upto(s, q, n)[k]),
    decreases n,
{
    if n > 0 {
        let p = alt_for_query_upto(s, q, n - 1);
        if k < p.len() {
            lemma_alt_query_upto_contains(s, q, n - 1, k);
        } else {
            assert(alt_for_query_upto(s, q, n)[k] == s[n - 1]);
        }
    }
}

/// Alternate records of the same query stay inside the query's recorded
/// length.
proof fn lemma_alt_query_q_ok(s: Seq<AlnRecord>, q: Seq<char>, qt: Seq<SeqLenEntry>, k: int)
    requires
        records_q_ok(s, qt),
        0 <= k < alt_for_query(s, q).len(),
    ensures
        alt_for_query(s, q)[k].q_name@ == q,
        alt_for_query(s, q)[k].qs <= alt_for_query(s, q)[k].qe,
        table_lookup(qt, q) is Some,
        alt_for_query(s, q)[k].qe <= table_lookup(qt, q).unwrap(),
    decreases s.len(),
{
    lemma_alt_query_upto_contains(s, q, s.len() as int, k);
    lemma_alt_query_upto_names(s, q, s.len() as int, k);
    let w = choose|w: int| 0 <= w < s.len() && s[w] == alt_for_query(s, q)[k];
    assert(records_q_ok(s, qt) ==> table_lookup(qt, s[w].q_name@) is Some);
}

proof fn lemma_alt_query_upto_names(s: Seq<AlnRecord>, q: Seq<char>, n: int, k: int)
    requires
        0 <= n <= s.len(),
        0 <= k < alt_for_query_upto(s, q, n).len(),
    ensures
        alt_for_query_upto(s, q, n)[k].q_name@ == q,
    decreases n,
{
    if n > 0 {
        let p = alt_for_query_upto(s, q, n - 1);
        if k < p.len() {
            lemma_alt_query_upto_names(s, q, n - 1, k);
        }
    }
}

/// Computes a block's primary records, its sorted lanes, and the lane
/// offsets, carrying the validation facts along.
fn block_lanes_exec(
    records: &Vec<AlnRecord>,
    m: &Vec<(String, String)>,
    t: &String,
    qt: &Vec<SeqLenEntry>,
) -> (r: (Vec<AlnRecord>, Vec<AlnRecord>, Vec<u64>))
    requires
        map_is_primary_map(m@, records@),
        records_q_ok(records@, qt@),
        records@.len() <= 0xffff_ffff,
        block_extent(records@, qt@, t@) <= AXIS_LIMIT,
    ensures
        r.0@ == primary_for(records@, t@),
        r.1@ == block_lanes(records@, t@),
        r.2@.len() == r.1@.len(),
        forall|i: int| 0 <= i < r.2@.len() ==> r.2@[i] == offset_at(r.1@, qt@, i),
        records_q_ok(r.0@, qt@),
        records_q_ok(r.1@, qt@),
{
    let block_records = primary_records_for(records, m, t);
    proof {
        assert forall|k: int| 0 <= k < block_records@.len() implies table_lookup(
            qt@,
            #[trigger] block_records@[k].q_name@,
        ) is Some && block_records@[k].qs <= block_records@[k].qe && block_records@[k].qe
            <= table_lookup(qt@, block_records@[k].q_name@).unwrap() by {
            lemma_primary_for_upto_contains(records@, t@, records@.len() as int, k);
            let w = choose|w: int| 0 <= w < records@.len() && records@[w] == block_records@[k];
        }
        assert forall|k: int| 0 <= k < block_records@.len() implies #[trigger] block_records@[k].qs
            <= block_records@[k].qe by {
            lemma_primary_for_upto_contains(records@, t@, records@.len() as int, k);
            let w = choose|w: int| 0 <= w < records@.len() && records@[w] == block_records@[k];
        }
        assert(valid_spans(block_records@));
    }
    let reps_v = best_records(&block_records);
    proof {
        assert forall|k: int| 0 <= k < reps_v@.len() implies table_lookup(
            qt@,
            #[trigger] reps_v@[k].q_name@,
        ) is Some && reps_v@[k].qs <= reps_v@[k].qe && reps_v@[k].qe <= table_lookup(
            qt@,
            reps_v@[k].q_name@,
        ).unwrap() by {
            let w = choose|w: int| 0 <= w < block_records@.len() && block_records@[w] == reps_v@[k];
        }
    }
    let lanes = sort_records_by_ts(&reps_v);
    proof {
        assert forall|k: int| 0 <= k < lanes@.len() implies table_lookup(
            qt@,
            #[trigger] lanes@[k].q_name@,
        ) is Some && lanes@[k].qs <= lanes@[k].qe && lanes@[k].qe <= table_lookup(
            qt@,
            lanes@[k].q_name@,
        ).unwrap() by {
            let w = choose|w: int| 0 <= w < reps_v@.len() && reps_v@[w] == lanes@[k];
        }
        assert(lanes@ == block_lanes(records@, t@));
        assert(extent_spec(lanes@, qt@) == block_extent(records@, qt@, t@));
    }
    let offsets = assign_offsets(&lanes, qt);
    (block_records, lanes, offsets)
}

/// Projects a block's eligible records into ribbons against the block's
/// lanes.
fn build_ribbons(
    block_records: &Vec<AlnRecord>,
    lanes: &Vec<AlnRecord>,
    offsets: &Vec<u64>,
    qt: &Vec<SeqLenEntry>,
    t_offset: u64,
) -> (out: Vec<Ribbon>)
    requires
        records_q_ok(block_records@, qt@),
        lanes@ == sort_ts(reps(block_records@)),
        offsets@.len() == lanes@.len(),
        forall|i: int| 0 <= i < offsets@.len() ==> offsets@[i] == offset_at(lanes@, qt@, i),
        t_offset <= AXIS_LIMIT,
        t_offset + extent_spec(lanes@, qt@) <= AXIS_LIMIT,
    ensures
        out@.len() == ribbon_recs(block_records@).len(),
        forall|i: int|
            0 <= i < out@.len() ==> ribbon_matches(
                out@[i],
                ribbon_recs(block_records@)[i],
                qt@,
                t_offset as int,
                lanes@,
            ),
{
    let mut out: Vec<Ribbon> = Vec::new();
    let mut n: usize = 0;
    while n < block_records.len()
        invariant
            0 <= n <= block_records@.len(),
            records_q_ok(block_records@, qt@),
            lanes@ == sort_ts(reps(block_records@)),
            offsets@.len() == lanes@.len(),
            forall|i: int| 0 <= i < offsets@.len() ==> offsets@[i] == offset_at(lanes@, qt@, i),
            t_offset <= AXIS_LIMIT,
            t_offset + extent_spec(lanes@, qt@) <= AXIS_LIMIT,
            out@.len() == ribbon_recs_upto(block_records@, n as int).len(),
            forall|i: int|
                0 <= i < out@.len() ==> ribbon_matches(
                    out@[i],
                    ribbon_recs_upto(block_records@, n as int)[i],
                    qt@,
                    t_offset as int,
                    lanes@,
                ),
        decreases block_records.len() - n,
    {
        let r = &block_records[n];
        if !(r.t_dup && r.q_dup) {
            let ql = match lookup_len(qt, &r.q_name) {
                Some(l) => l,
                None => {
                    proof {
                        assert(false);
                    }
                    0
                },
            };
            let (pqs, pqe) = project_interval(r.qs, r.qe, ql, r.orientation, r.ctg_orientation);
            proof {
                lemma_lanes_have_query(block_records@, n as int);
            }
            let qoff = match q_offset_lookup(lanes, offsets, &r.q_name) {
                Some(o) => o,
                None => {
                    proof {
                        assert(false);
                    }
                    0
                },
            };
            proof {
                let rp = rep_pos(lanes@, r.q_name@);
                lemma_rep_pos(lanes@, r.q_name@);
                assert(qlen_of(qt@, lanes@[rp].q_name@) == ql as int);
                assert(offset_at(lanes@, qt@, rp + 1) == offset_at(lanes@, qt@, rp) + ql as int);
                lemma_offset_at_mono(lanes@, qt@, rp + 1, lanes@.len() as int);
                lemma_offset_at_bounds(lanes@, qt@, rp);
                assert(pqs <= ql && pqe <= ql);
            }
            let color = color_index(r.q_name.as_str());
            out.push(
                Ribbon {
                    ts: t_offset + r.ts as u64,
                    te: t_offset + r.te as u64,
                    qs: t_offset + qoff + pqs as u64,
                    qe: t_offset + qoff + pqe as u64,
                    color,
                    rec: r.duplicate(),
                },
            );
        }
        n = n + 1;
    }
    out
}

/// Builds the overview lane segments of one block, in axis coordinates.
fn build_lane_segs(
    lanes: &Vec<AlnRecord>,
    offsets: &Vec<u64>,
    qt: &Vec<SeqLenEntry>,
    t_offset: u64,
) -> (out: Vec<LaneSeg>)
    requires
        records_q_ok(lanes@, qt@),
        offsets@.len() == lanes@.len(),
        forall|i: int| 0 <= i < offsets@.len() ==> offsets@[i] == offset_at(lanes@, qt@, i),
        t_offset <= AXIS_LIMIT,
        t_offset + extent_spec(lanes@, qt@) <= AXIS_LIMIT,
    ensures
        out@.len() == lanes@.len(),
        forall|i: int|
            0 <= i < out@.len() ==> lane_coords_ok(
                out@[i].q_name,
                out@[i].start,
                out@[i].end,
                out@[i].color,
                lanes@,
                i,
                qt@,
                t_offset as int,
            ),
{
    let mut out: Vec<LaneSeg> = Vec::new();
    let mut i: usize = 0;
    while i < lanes.len()
        invariant
            0 <= i <= lanes@.len(),
            records_q_ok(lanes@, qt@),
            offsets@.len() == lanes@.len(),
            forall|k: int| 0 <= k < offsets@.len() ==> offsets@[k] == offset_at(lanes@, qt@, k),
            t_offset <= AXIS_LIMIT,
            t_offset + extent_spec(lanes@, qt@) <= AXIS_LIMIT,
            out@.len() == i,
            forall|k: int|
                0 <= k < out@.len() ==> lane_coords_ok(
                    out@[k].q_name,
                    out@[k].start,
                    out@[k].end,
                    out@[k].color,
                    lanes@,
                    k,
                    qt@,
                    t_offset as int,
                ),
        decreases lanes.len() - i,
    {
        let l = &lanes[i];
        let ql = match lookup_len(qt, &l.q_name) {
            Some(v) => v,
            None => {
                proof {
                    assert(false);
                }
                0
            },
        };
        proof {
            assert(offset_at(lanes@, qt@, i as int + 1) == offset_at(lanes@, qt@, i as int)
                + ql as int);
            lemma_offset_at_mono(lanes@, qt@, i as int + 1, lanes@.len() as int);
            lemma_offset_at_bounds(lanes@, qt@, i as int);
        }
        let start = t_offset + offsets[i];
        let color = color_index(l.q_name.as_str());
        out.push(LaneSeg { q_name: l.q_name.clone(), start, end: start + ql as u64, color });
        i = i + 1;
    }
    out
}

/// How one target-side alternate segment must relate to its record.
pub open spec fn alt_target_matches(seg: AltTargetSeg, r: AlnRecord, s: Seq<AlnRecord>) -> bool {
    &&& seg.rec == r
    &&& seg.start == r.ts
    &&& seg.end == r.te
    &&& match seg.query_primary {
        Some(p) => primary_of(s, r.q_name@) == Some(p@),
        None => primary_of(s, r.q_name@) is None,
    }
}

/// Builds the target-side alternate lane of one detail view.
fn build_alt_targets(
    records: &Vec<AlnRecord>,
    m: &Vec<(String, String)>,
    t: &String,
) -> (out: Vec<AltTargetSeg>)
    requires
        map_is_primary_map(m@, records@),
    ensures
        out@.len() == alt_for_target(records@, t@).len(),
        forall|i: int|
            0 <= i < out@.len() ==> alt_target_matches(
                out@[i],
                alt_for_target(records@, t@)[i],
                records@,
            ),
{
    let alts = alt_records_for_target(records, m, t);
    let mut out: Vec<AltTargetSeg> = Vec::new();
    let mut i: usize = 0;
    while i < alts.len()
        invariant
            0 <= i <= alts@.len(),
            map_is_primary_map(m@, records@),
            alts@ == alt_for_target(records@, t@),
            out@.len() == i,
            forall|k: int|
                0 <= k < out@.len() ==> alt_target_matches(
                    out@[k],
                    alt_for_target(records@, t@)[k],
                    records@,
                ),
        decreases alts.len() - i,
    {
        let r = &alts[i];
        let qp = primary_lookup(m, records, &r.q_name);
        out.push(
            AltTargetSeg {
                start: r.ts as u64,
                end: r.te as u64,
                query_primary: qp,
                rec: r.duplicate(),
            },
        );
        i = i + 1;
    }
    out
}

/// How the alternate alignments under one detail lane must read: every
/// alternate record of the lane's query, transformed against the lane's
/// own orientation and shifted by the lane offset.
pub open spec fn detail_lane_alts_ok(
    dl: DetailLane,
    lanes: Seq<AlnRecord>,
    i: int,
    s: Seq<AlnRecord>,
    qt: Seq<SeqLenEntry>,
) -> bool {
    let q = lanes[i].q_name@;
    let alts = alt_for_query(s, q);
    let ql = table_lookup(qt, q).unwrap();
    let off = offset_at(lanes, qt, i);
    &&& dl.alts@.len() == alts.len()
    &&& forall|k: int|
        #![trigger dl.alts@[k]]
        0 <= k < alts.len() ==> {
            let pr = alt_project_spec(alts[k].qs, alts[k].qe, ql, lanes[i].ctg_orientation);
            &&& dl.alts@[k].rec == alts[k]
            &&& dl.alts@[k].start == off + pr.0
            &&& dl.alts@[k].end == off + pr.1
            &&& dl.alts@[k].color == color_index_spec(q)
        }
}

/// Builds the query lanes of one detail view, each with its alternate
/// alignments.
fn build_detail_lanes(
    records: &Vec<AlnRecord>,
    m: &Vec<(String, String)>,
    lanes: &Vec<AlnRecord>,
    offsets: &Vec<u64>,
    qt: &Vec<SeqLenEntry>,
) -> (out: Vec<DetailLane>)
    requires
        map_is_primary_map(m@, records@),
        records_q_ok(records@, qt@),
        records_q_ok(lanes@, qt@),
        offsets@.len() == lanes@.len(),
        forall|i: int| 0 <= i < offsets@.len() ==> offsets@[i] == offset_at(lanes@, qt@, i),
        extent_spec(lanes@, qt@) <= AXIS_LIMIT,
    ensures
        out@.len() == lanes@.len(),
        forall|i: int|
            #![trigger out@[i]]
            0 <= i < out@.len() ==> lane_coords_ok(
                out@[i].q_name,
                out@[i].start,
                out@[i].end,
                out@[i].color,
                lanes@,
                i,
                qt@,
                0,
            ) && detail_lane_alts_ok(out@[i], lanes@, i, records@, qt@),
{
    let mut out: Vec<DetailLane> = Vec::new();
    let mut i: usize = 0;
    while i < lanes.len()
        invariant
            0 <= i <= lanes@.len(),
            map_is_primary_map(m@, records@),
            records_q_ok(records@, qt@),
            records_q_ok(lanes@, qt@),
            offsets@.len() == lanes@.len(),
            forall|k: int| 0 <= k < offsets@.len() ==> offsets@[k] == offset_at(lanes@, qt@, k),
            extent_spec(lanes@, qt@) <= AXIS_LIMIT,
            out@.len() == i,
            forall|k: int|
                #![trigger out@[k]]
                0 <= k < out@.len() ==> lane_coords_ok(
                    out@[k].q_name,
                    out@[k].start,
                    out@[k].end,
                    out@[k].color,
                    lanes@,
                    k,
                    qt@,
                    0,
                ) && detail_lane_alts_ok(out@[k], lanes@, k, records@, qt@),
        decreases lanes.len() - i,
    {
        let l = &lanes[i];
        let ql = match lookup_len(qt, &l.q_name) {
            Some(v) => v,
            None => {
                proof {
                    assert(false);
                }
                0
            },
        };
        proof {
            assert(offset_at(lanes@, qt@, i as int + 1) == offset_at(lanes@, qt@, i as int)
                + ql as int);
            lemma_offset_at_mono(lanes@, qt@, i as int + 1, lanes@.len() as int);
            lemma_offset_at_bounds(lanes@, qt@, i as int);
        }
        let off = offsets[i];
        let color = color_index(l.q_name.as_str());
        let alt_recs = alt_records_for_query(records, m, &l.q_name);
        let mut alts: Vec<AltQuerySeg> = Vec::new();
        let mut k: usize = 0;
        while k < alt_recs.len()
            invariant
                0 <= k <= alt_recs@.len(),
                records_q_ok(records@, qt@),
                i < lanes@.len(),
                alt_recs@ == alt_for_query(records@, lanes@[i as int].q_name@),
                l == &lanes@[i as int],
                table_lookup(qt@, lanes@[i as int].q_name@) == Some(ql),
                off == offset_at(lanes@, qt@, i as int),
                off + ql <= AXIS_LIMIT,
                color == color_index_spec(lanes@[i as int].q_name@),
                alts@.len() == k,
                forall|w: int|
                    #![trigger alts@[w]]
                    0 <= w < alts@.len() ==> {
                        let pr = alt_project_spec(
                            alt_recs@[w].qs,
                            alt_recs@[w].qe,
                            ql,
                            lanes@[i as int].ctg_orientation,
                        );
                        &&& alts@[w].rec == alt_recs@[w]
                        &&& alts@[w].start == off + pr.0
                        &&& alts@[w].end == off + pr.1
                        &&& alts@[w].color == color_index_spec(lanes@[i as int].q_name@)
                    },
            decreases alt_recs.len() - k,
        {
            let ar = &alt_recs[k];
            proof {
                lemma_alt_query_q_ok(records@, lanes@[i as int].q_name@, qt@, k as int);
            }
            let (b, e) = alt_project_interval(ar.qs, ar.qe, ql, l.ctg_orientation);
            alts.push(
                AltQuerySeg { start: off + b as u64, end: off + e as u64, color, rec: ar.duplicate() },
            );
            k = k + 1;
        }
        out.push(
            DetailLane { q_name: l.q_name.clone(), start: off, end: off + ql as u64, color, alts },
        );
        i = i + 1;
    }
    out
}

/// How a whole overview block's geometry must read, against the block's
/// own name and offset.
pub open spec fn overview_geometry_ok(
    ob: OverviewBlock,
    s: Seq<AlnRecord>,
    qt: Seq<SeqLenEntry>,
    hs: Seq<HighlightEntry>,
) -> bool {
    let t = ob.name@;
    let off = ob.offset as int;
    let lanes = block_lanes(s, t);
    let rr = ribbon_recs(primary_for(s, t));
    let hl = highlights_for(hs, vstd::utf8::encode_utf8(t));
    &&& ob.highlights@.len() == hl.len()
    &&& forall|i: int|
        #![trigger ob.highlights@[i]]
        0 <= i < hl.len() ==> ob.highlights@[i].0 == off + hl[i].0 && ob.highlights@[i].1 == off
            + hl[i].1
    &&& ob.lanes@.len() == lanes.len()
    &&& forall|i: int|
        #![trigger ob.lanes@[i]]
        0 <= i < lanes.len() ==> lane_coords_ok(
            ob.lanes@[i].q_name,
            ob.lanes@[i].start,
            ob.lanes@[i].end,
            ob.lanes@[i].color,
            lanes,
            i,
            qt,
            off,
        )
    &&& ob.ribbons@.len() == rr.len()
    &&& forall|i: int|
        #![trigger ob.ribbons@[i]]
        0 <= i < rr.len() ==> ribbon_matches(ob.ribbons@[i], rr[i], qt, off, lanes)
}

/// Builds one overview block at its axis offset.
pub fn build_overview_block(
    name: &String,
    id: u32,
    len: u32,
    t_offset: u64,
    records: &Vec<AlnRecord>,
    m: &Vec<(String, String)>,
    qt: &Vec<SeqLenEntry>,
    hs: &Vec<HighlightEntry>,
) -> (ob: OverviewBlock)
    requires
        map_is_primary_map(m@, records@),
        records_q_ok(records@, qt@),
        records@.len() <= 0xffff_ffff,
        t_offset <= AXIS_LIMIT,
        t_offset + block_extent(records@, qt@, name@) <= AXIS_LIMIT,
    ensures
        ob.id == id && ob.name == *name && ob.len == len && ob.offset == t_offset,
        overview_geometry_ok(ob, records@, qt@, hs@),
{
    let (block_records, lanes, offsets) = block_lanes_exec(records, m, name, qt);
    let highlights = highlights_for_block(hs, name, t_offset);
    let lane_segs = build_lane_segs(&lanes, &offsets, qt, t_offset);
    let ribbons = build_ribbons(&block_records, &lanes, &offsets, qt, t_offset);
    OverviewBlock {
        id,
        name: name.clone(),
        len,
        offset: t_offset,
        highlights,
        lanes: lane_segs,
        ribbons,
    }
}

/// How a whole detail block's geometry must read, in block-local
/// coordinates, against the block's own name.
pub open spec fn detail_geometry_ok(
    db: DetailBlock,
    s: Seq<AlnRecord>,
    qt: Seq<SeqLenEntry>,
    hs: Seq<HighlightEntry>,
    cyto: Seq<(String, Vec<CytoBandRec>)>,
) -> bool {
    let t = db.name@;
    let lanes = block_lanes(s, t);
    let rr = ribbon_recs(primary_for(s, t));
    let hl = highlights_for(hs, vstd::utf8::encode_utf8(t));
    let alts = alt_for_target(s, t);
    &&& match db.cyto {
        Some(v) => cyto_lookup(cyto, t) == Some(v@),
        None => cyto_lookup(cyto, t) is None,
    }
    &&& db.highlights@.len() == hl.len()
    &&& forall|i: int|
        #![trigger db.highlights@[i]]
        0 <= i < hl.len() ==> db.highlights@[i].0 == hl[i].0 && db.highlights@[i].1 == hl[i].1
    &&& db.alt_targets@.len() == alts.len()
    &&& forall|i: int|
        #![trigger db.alt_targets@[i]]
        0 <= i < alts.len() ==> alt_target_matches(db.alt_targets@[i], alts[i], s)
    &&& db.lanes@.len() == lanes.len()
    &&& forall|i: int|
        #![trigger db.lanes@[i]]
        0 <= i < lanes.len() ==> lane_coords_ok(
            db.lanes@[i].q_name,
            db.lanes@[i].start,
            db.lanes@[i].end,
            db.lanes@[i].color,
            lanes,
            i,
            qt,
            0,
        ) && detail_lane_alts_ok(db.lanes@[i], lanes, i, s, qt)
    &&& db.ribbons@.len() == rr.len()
    &&& forall|i: int|
        #![trigger db.ribbons@[i]]
        0 <= i < rr.len() ==> ribbon_matches(db.ribbons@[i], rr[i], qt, 0, lanes)
}

/// Builds one per-target detail view.
pub fn build_detail_block(
    name: &String,
    len: u32,
    records: &Vec<AlnRecord>,
    m: &Vec<(String, String)>,
    qt: &Vec<SeqLenEntry>,
    hs: &Vec<HighlightEntry>,
    cyto: &Vec<(String, Vec<CytoBandRec>)>,
) -> (db: DetailBlock)
    requires
        map_is_primary_map(m@, records@),
        records_q_ok(records@, qt@),
        records@.len() <= 0xffff_ffff,
        block_extent(records@, qt@, name@) <= AXIS_LIMIT,
    ensures
        db.name == *name && db.len == len,
        detail_geometry_ok(db, records@, qt@, hs@, cyto@),
{
    let (block_records, lanes, offsets) = block_lanes_exec(records, m, name, qt);
    let cy = cyto_for_target(cyto, name);
    let highlights = highlights_for_block(hs, name, 0);
    let alt_targets = build_alt_targets(records, m, name);
    let lane_segs = build_detail_lanes(records, m, &lanes, &offsets, qt);
    let ribbons = build_ribbons(&block_records, &lanes, &offsets, qt, 0);
    DetailBlock { name: name.clone(), len, cyto: cy, highlights, alt_targets, lanes: lane_segs, ribbons }
}

/// How the overview's block list must read against the admitted
/// targets.
pub open spec fn overview_blocks_ok(
    v: Seq<OverviewBlock>,
    inc: Seq<SeqLenEntry>,
    s: Seq<AlnRecord>,
    qt: Seq<SeqLenEntry>,
    hs: Seq<HighlightEntry>,
) -> bool {
    &&& v.len() == inc.len()
    &&& forall|i: int|
        #![trigger v[i]]
        0 <= i < v.len() ==> v[i].id == inc[i].id && v[i].name == inc[i].name && v[i].len
            == inc[i].len && v[i].offset == width_upto(inc, s, qt, i) && overview_geometry_ok(
            v[i],
            s,
            qt,
            hs,
        )
}

/// How the detail list must read against the admitted targets.
pub open spec fn detail_blocks_ok(
    v: Seq<DetailBlock>,
    inc: Seq<SeqLenEntry>,
    s: Seq<AlnRecord>,
    qt: Seq<SeqLenEntry>,
    hs: Seq<HighlightEntry>,
    cyto: Seq<(String, Vec<CytoBandRec>)>,
) -> bool {
    &&& v.len() == inc.len()
    &&& forall|i: int|
        #![trigger v[i]]
        0 <= i < v.len() ==> v[i].name == inc[i].name && v[i].len == inc[i].len
            && detail_geometry_ok(v[i], s, qt, hs, cyto)
}

/// The whole contract of scene building: the input is validated against
/// the sorted tables, the admitted targets are laid out on the axis, and
/// the scene holds the overview exactly when no single target is
/// selected, and the detail views exactly when the overview alone is not
/// selected.
pub open spec fn scene_result_ok(
    r: Result<Scene, PlotError>,
    recs: Seq<AlnRecord>,
    tl: Seq<SeqLenEntry>,
    ql: Seq<SeqLenEntry>,
    cyto: Seq<(String, Vec<CytoBandRec>)>,
    hs: Seq<HighlightEntry>,
    f: PlotFilter,
) -> bool {
    let tt = sort_entries_spec(tl);
    let qt = sort_entries_spec(ql);
    let inc = included(tt, f);
    match r {
        Err(e) => validate_spec(recs, tt, qt) == Err::<(), PlotError>(e) || (validate_spec(
            recs,
            tt,
            qt,
        ) is Ok && e == PlotError::TooLarge && total_width(inc, recs, qt) > AXIS_LIMIT as int),
        Ok(sc) => {
            &&& validate_spec(recs, tt, qt) is Ok
            &&& total_width(inc, recs, qt) <= AXIS_LIMIT as int
            &&& sc.total_width == total_width(inc, recs, qt)
            &&& (sc.overview is Some <==> !(f is Single))
            &&& match sc.overview {
                Some(v) => overview_blocks_ok(v@, inc, recs, qt, hs),
                None => true,
            }
            &&& match f {
                PlotFilter::SummaryOnly => sc.details@.len() == 0,
                _ => detail_blocks_ok(sc.details@, inc, recs, qt, hs, cyto),
            }
        },
    }
}

/// Determinism: any two results that satisfy the scene contract for the
/// same input agree on everything the contract pins — the verdict, the
/// error, the axis length, the presence of the overview, the block
/// counts, and every block's identity, offset and geometry sequences.
pub proof fn lemma_scene_deterministic(
    r1: Result<Scene, PlotError>,
    r2: Result<Scene, PlotError>,
    recs: Seq<AlnRecord>,
    tl: Seq<SeqLenEntry>,
    ql: Seq<SeqLenEntry>,
    cyto: Seq<(String, Vec<CytoBandRec>)>,
    hs: Seq<HighlightEntry>,
    f: PlotFilter,
)
    requires
        scene_result_ok(r1, recs, tl, ql, cyto, hs, f),
        scene_result_ok(r2, recs, tl, ql, cyto, hs, f),
    ensures
        r1 is Ok <==> r2 is Ok,
        (r1 is Err && r2 is Err) ==> r1.get_Err_0() == r2.get_Err_0(),
        (r1 is Ok && r2 is Ok) ==> {
            let s1 = r1.get_Ok_0();
            let s2 = r2.get_Ok_0();
            &&& s1.total_width == s2.total_width
            &&& (s1.overview is Some <==> s2.overview is Some)
            &&& s1.details@.len() == s2.details@.len()
            &&& ((s1.overview is Some && s2.overview is Some) ==> {
                let v1 = s1.overview.unwrap()@;
                let v2 = s2.overview.unwrap()@;
                &&& v1.len() == v2.len()
                &&& forall|i: int|
                    #![trigger v1[i], v2[i]]
                    0 <= i < v1.len() ==> v1[i].id == v2[i].id && v1[i].name == v2[i].name
                        && v1[i].len == v2[i].len && v1[i].offset == v2[i].offset && v1[i].lanes@
                        == v2[i].lanes@ && v1[i].ribbons@ == v2[i].ribbons@ && v1[i].highlights@
                        == v2[i].highlights@
            })
            &&& forall|i: int|
                #![trigger s1.details@[i], s2.details@[i]]
                0 <= i < s1.details@.len() ==> s1.details@[i].name == s2.details@[i].name
                    && s1.details@[i].len == s2.details@[i].len && s1.details@[i].ribbons@
                    == s2.details@[i].ribbons@ && s1.details@[i].highlights@
                    == s2.details@[i].highlights@ && s1.details@[i].alt_targets@.len()
                    == s2.details@[i].alt_targets@.len() && s1.details@[i].lanes@.len()
                    == s2.details@[i].lanes@.len()
        },
{
    let tt = sort_entries_spec(tl);
    let qt = sort_entries_spec(ql);
    let inc = included(tt, f);
    match (r1, r2) {
        (Ok(s1), Ok(s2)) => {
            if s1.overview is Some && s2.overview is Some {
                let v1 = s1.overview.unwrap()@;
                let v2 = s2.overview.unwrap()@;
                assert forall|i: int|
                    #![trigger v1[i], v2[i]]
                    0 <= i < v1.len() implies v1[i].id == v2[i].id && v1[i].name == v2[i].name
                    && v1[i].len == v2[i].len && v1[i].offset == v2[i].offset && v1[i].lanes@
                    == v2[i].lanes@ && v1[i].ribbons@ == v2[i].ribbons@ && v1[i].highlights@
                    == v2[i].highlights@ by {
                    let lanes = block_lanes(recs, inc[i].name@);
                    assert forall|k: int|
                        0 <= k < v1[i].lanes@.len() implies #[trigger] v1[i].lanes@[k]
                        == v2[i].lanes@[k] by {
                        assert(lane_coords_ok(
                            v1[i].lanes@[k].q_name,
                            v1[i].lanes@[k].start,
                            v1[i].lanes@[k].end,
                            v1[i].lanes@[k].color,
                            lanes,
                            k,
                            qt,
                            v1[i].offset as int,
                        ));
                        assert(lane_coords_ok(
                            v2[i].lanes@[k].q_name,
                            v2[i].lanes@[k].start,
                            v2[i].lanes@[k].end,
                            v2[i].lanes@[k].color,
                            lanes,
                            k,
                            qt,
                            v2[i].offset as int,
                        ));
                    }
                    assert(v1[i].lanes@ =~= v2[i].lanes@);
                    assert forall|k: int|
                        0 <= k < v1[i].ribbons@.len() implies #[trigger] v1[i].ribbons@[k]
                        == v2[i].ribbons@[k] by {
                        let rr = ribbon_recs(primary_for(recs, inc[i].name@));
                        assert(ribbon_matches(v1[i].ribbons@[k], rr[k], qt, v1[i].offset as int, lanes));
                        assert(ribbon_matches(v2[i].ribbons@[k], rr[k], qt, v2[i].offset as int, lanes));
                    }
                    assert(v1[i].ribbons@ =~= v2[i].ribbons@);
                    assert forall|k: int|
                        0 <= k < v1[i].highlights@.len() implies #[trigger] v1[i].highlights@[k]
                        == v2[i].highlights@[k] by {
                        let hl = highlights_for(hs, vstd::utf8::encode_utf8(inc[i].name@));
                        assert(v1[i].highlights@[k].0 == v1[i].offset + hl[k].0);
                        assert(v2[i].highlights@[k].0 == v2[i].offset + hl[k].0);
                        assert(v1[i].highlights@[k].1 == v1[i].offset + hl[k].1);
                        assert(v2[i].highlights@[k].1 == v2[i].offset + hl[k].1);
                    }
                    assert(v1[i].highlights@ =~= v2[i].highlights@);
                }
            }
            match f {
                PlotFilter::SummaryOnly => {},
                _ => {
                    assert forall|i: int|
                        #![trigger s1.details@[i], s2.details@[i]]
                        0 <= i < s1.details@.len() implies s1.details@[i].name
                        == s2.details@[i].name && s1.details@[i].len == s2.details@[i].len
                        && s1.details@[i].ribbons@ == s2.details@[i].ribbons@
                        && s1.details@[i].highlights@ == s2.details@[i].highlights@
                        && s1.details@[i].alt_targets@.len() == s2.details@[i].alt_targets@.len()
                        && s1.details@[i].lanes@.len() == s2.details@[i].lanes@.len() by {
                        let d1 = s1.details@[i];
                        let d2 = s2.details@[i];
                        let lanes = block_lanes(recs, inc[i].name@);
                        let rr = ribbon_recs(primary_for(recs, inc[i].name@));
                        assert forall|k: int|
                            0 <= k < d1.ribbons@.len() implies #[trigger] d1.ribbons@[k]
                            == d2.ribbons@[k] by {
                            assert(ribbon_matches(d1.ribbons@[k], rr[k], qt, 0, lanes));
                            assert(ribbon_matches(d2.ribbons@[k], rr[k], qt, 0, lanes));
                        }
                        assert(d1.ribbons@ =~= d2.ribbons@);
                        assert forall|k: int|
                            0 <= k < d1.highlights@.len() implies #[trigger] d1.highlights@[k]
                            == d2.highlights@[k] by {
                            let hl = highlights_for(hs, vstd::utf8::encode_utf8(inc[i].name@));
                            assert(d1.highlights@[k].0 == hl[k].0 && d1.highlights@[k].1
                                == hl[k].1);
                            assert(d2.highlights@[k].0 == hl[k].0 && d2.highlights@[k].1
                                == hl[k].1);
                        }
                        assert(d1.highlights@ =~= d2.highlights@);
                    }
                },
            }
        },
        _ => {},
    }
}

/// Assembles the two-level scene for the given record set, annotations
/// and filter: validation, primary assignment, layout, and per-block
/// geometry, all in one deterministic pass.
pub fn build_scene(
    set: &CtgMapSet,
    cyto: &Vec<(String, Vec<CytoBandRec>)>,
    highlights: &Vec<HighlightEntry>,
    filter: &PlotFilter,
) -> (r: Result<Scene, PlotError>)
    requires
        set.records@.len() <= 0xffff_ffff,
    ensures
        scene_result_ok(
            r,
            set.records@,
            set.target_length@,
            set.query_length@,
            cyto@,
            highlights@,
            *filter,
        ),
{
    let records = &set.records;
    let tsorted = sort_entries(&set.target_length);
    let qsorted = sort_entries(&set.query_length);
    match validate_records(records, &tsorted, &qsorted) {
        Err(e) => {
            return Err(e);
        },
        Ok(()) => {},
    }
    proof {
        assert forall|k: int| 0 <= k < records@.len() implies table_lookup(
            qsorted@,
            #[trigger] records@[k].q_name@,
        ) is Some && records@[k].qs <= records@[k].qe && records@[k].qe <= table_lookup(
            qsorted@,
            records@[k].q_name@,
        ).unwrap() by {
            assert(record_ok(records@[k], tsorted@, qsorted@));
        }
        assert(records_q_ok(records@, qsorted@));
        assert(valid_spans(records@));
    }
    let m = primary_map(records);
    let (blocks, total) = match layout_blocks(&tsorted, records, &m, &qsorted, filter) {
        Ok(x) => x,
        Err(e) => {
            return Err(e);
        },
    };
    let ghost inc = included(tsorted@, *filter);
    let ghost s = records@;
    let ghost qt = qsorted@;
    proof {
        assert(blocks_match(blocks@, inc, s, qt));
    }
    let overview: Option<Vec<OverviewBlock>> = match filter {
        PlotFilter::Single(_) => None,
        _ => {
            let mut ovs: Vec<OverviewBlock> = Vec::new();
            let mut i: usize = 0;
            while i < blocks.len()
                invariant
                    0 <= i <= blocks@.len(),
                    map_is_primary_map(m@, s),
                    records_q_ok(s, qt),
                    s.len() <= 0xffff_ffff,
                    s == records@,
                    qt == qsorted@,
                    blocks_match(blocks@, inc, s, qt),
                    total == total_width(inc, s, qt),
                    total <= AXIS_LIMIT,
                    ovs@.len() == i,
                    forall|k: int|
                        #![trigger ovs@[k]]
                        0 <= k < ovs@.len() ==> ovs@[k].id == inc[k].id && ovs@[k].name
                            == inc[k].name && ovs@[k].len == inc[k].len && ovs@[k].offset
                            == width_upto(inc, s, qt, k) && overview_geometry_ok(
                            ovs@[k],
                            s,
                            qt,
                            highlights@,
                        ),
                decreases blocks.len() - i,
            {
                let b = &blocks[i];
                proof {
                    lemma_width_upto_mono(inc, s, qt, i as int, inc.len() as int);
                    lemma_width_upto_mono(inc, s, qt, i as int + 1, inc.len() as int);
                    assert(width_upto(inc, s, qt, i as int + 1) == width_upto(inc, s, qt, i as int)
                        + block_width(inc[i as int], s, qt));
                    lemma_offset_at_bounds(
                        block_lanes(s, b.name@),
                        qt,
                        block_lanes(s, b.name@).len() as int,
                    );
                }
                let ob = build_overview_block(
                    &b.name,
                    b.id,
                    b.len,
                    b.offset,
                    records,
                    &m,
                    &qsorted,
                    highlights,
                );
                ovs.push(ob);
                i = i + 1;
            }
            Some(ovs)
        },
    };
    let mut details: Vec<DetailBlock> = Vec::new();
    match filter {
        PlotFilter::SummaryOnly => {},
        _ => {
            let mut i: usize = 0;
            while i < blocks.len()
                invariant
                    0 <= i <= blocks@.len(),
                    map_is_primary_map(m@, s),
                    records_q_ok(s, qt),
                    s.len() <= 0xffff_ffff,
                    s == records@,
                    qt == qsorted@,
                    blocks_match(blocks@, inc, s, qt),
                    total == total_width(inc, s, qt),
                    total <= AXIS_LIMIT,
                    details@.len() == i,
                    forall|k: int|
                        #![trigger details@[k]]
                        0 <= k < details@.len() ==> details@[k].name == inc[k].name
                            && details@[k].len == inc[k].len && detail_geometry_ok(
                            details@[k],
                            s,
                            qt,
                            highlights@,
                            cyto@,
                        ),
                decreases blocks.len() - i,
            {
                let b = &blocks[i];
                proof {
                    lemma_width_upto_mono(inc, s, qt, i as int, inc.len() as int);
                    lemma_width_upto_mono(inc, s, qt, i as int + 1, inc.len() as int);
                    assert(width_upto(inc, s, qt, i as int + 1) == width_upto(inc, s, qt, i as int)
                        + block_width(inc[i as int], s, qt));
                    lemma_offset_at_bounds(
                        block_lanes(s, b.name@),
                        qt,
                        block_lanes(s, b.name@).len() as int,
                    );
                }
                let db = build_detail_block(&b.name, b.len, records, &m, &qsorted, highlights, cyto);
                details.push(db);
                i = i + 1;
            }
        },
    }
    Ok(Scene { overview, details, total_width: total })
}

} // verus!
