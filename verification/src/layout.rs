//! Linear layout: targets are placed left to right in table order on a
//! shared base-coordinate axis. Each target's placement width is the
//! larger of its own length and the total length of the query contigs
//! assigned to it, plus a fixed padding that separates adjacent blocks.

use vstd::prelude::*;
use crate::records::{AlnRecord, PlotError, SeqLenEntry, table_lookup};
use crate::resolve::{
    map_is_primary_map, primary_for, primary_for_upto, primary_records_for, valid_spans,
};
use crate::project::{
    best_records, extent_of, extent_spec, lemma_offset_at_bounds, lemma_offset_at_mono,
    lemma_reps_len, offset_at, qlen_of, reps, sort_records_by_ts, sort_ts,
};

verus! {

/// The fixed gap, in bases, laid between adjacent target blocks.
pub const TARGET_PADDING: u64 = 1500000;

/// The axis never grows beyond this, so that any single projected
/// coordinate (an axis position plus one more unsigned 32-bit
/// coordinate) still fits in 64 bits.
pub const AXIS_LIMIT: u64 = 0xffff_ffff_0000_0000;

/// The least position whose entry has an ordinal id strictly beyond
/// `v`, or the length if none does.
pub open spec fn first_gt_id(s: Seq<SeqLenEntry>, v: u32) -> int
    decreases s.len(),
{
    if s.len() == 0 {
        0
    } else if s[0].id > v {
        0
    } else {
        1 + first_gt_id(s.drop_first(), v)
    }
}

pub proof fn lemma_first_gt_id(s: Seq<SeqLenEntry>, v: u32)
    ensures
        0 <= first_gt_id(s, v) <= s.len(),
        first_gt_id(s, v) < s.len() ==> s[first_gt_id(s, v)].id > v,
        forall|j: int| 0 <= j < first_gt_id(s, v) ==> s[j].id <= v,
    decreases s.len(),
{
    if s.len() > 0 && !(s[0].id > v) {
        lemma_first_gt_id(s.drop_first(), v);
        assert forall|j: int| 0 <= j < first_gt_id(s, v) implies s[j].id <= v by {
            if j > 0 {
                assert(s.drop_first()[j - 1] == s[j]);
            }
        }
    }
}

/// One stable insertion step of the sort by ordinal id.
pub open spec fn ins_id(s: Seq<SeqLenEntry>, e: SeqLenEntry) -> Seq<SeqLenEntry> {
    s.insert(first_gt_id(s, e.id), e)
}

/// The stable sort of the first `n` table rows by ordinal id.
pub open spec fn sort_entries_upto(s: Seq<SeqLenEntry>, n: int) -> Seq<SeqLenEntry>
    decreases n,
{
    if n <= 0 {
        Seq::<SeqLenEntry>::empty()
    } else {
        ins_id(sort_entries_upto(s, n - 1), s[n - 1])
    }
}

pub open spec fn sort_entries_spec(s: Seq<SeqLenEntry>) -> Seq<SeqLenEntry> {
    sort_entries_upto(s, s.len() as int)
}

pub open spec fn sorted_by_id(s: Seq<SeqLenEntry>) -> bool {
    forall|i: int, j: int| 0 <= i < j < s.len() ==> s[i].id <= s[j].id
}

/// Sorts a sequence-length table by ordinal id, keeping the stable
/// order of equal ids. This table order fixes the left-to-right
/// placement of targets.
pub fn sort_entries(v: &Vec<SeqLenEntry>) -> (out: Vec<SeqLenEntry>)
    ensures
        out@ == sort_entries_spec(v@),
        out@.len() == v@.len(),
        sorted_by_id(out@),
    {
    let mut out: Vec<SeqLenEntry> = Vec::new();
    let mut n: usize = 0;
    while n < v.len()
        invariant
            0 <= n <= v@.len(),
            out@ == sort_entries_upto(v@, n as int),
            out@.len() == n,
            sorted_by_id(out@),
        decreases v.len() - n,
    {
        let e = &v[n];
        proof {
            lemma_first_gt_id(out@, e.id);
        }
        let mut j: usize = 0;
        while j < out.len() && out[j].id <= e.id
            invariant
                0 <= j <= out@.len(),
                n < v@.len(),
                e == v@[n as int],
                forall|k: int| 0 <= k < j ==> out@[k].id <= e.id,
                0 <= first_gt_id(out@, e.id) <= out@.len(),
                first_gt_id(out@, e.id) < out@.len() ==> out@[first_gt_id(out@, e.id)].id > e.id,
                forall|k: int| 0 <= k < first_gt_id(out@, e.id) ==> out@[k].id <= e.id,
            decreases out.len() - j,
        {
            j = j + 1;
        }
        proof {
            let fg = first_gt_id(out@, e.id);
            if fg < j {
                assert(out@[fg].id <= e.id);
            }
            if fg > j {
                assert(out@[j as int].id <= e.id);
            }
            assert(j == fg);
            out@.insert_ensures(j as int, *e);
        }
        let ghost old_out = out@;
        out.insert(j, e.duplicate());
        proof {
            assert(out@ == ins_id(old_out, v@[n as int]));
            assert forall|a: int, b: int| 0 <= a < b < out@.len() implies out@[a].id
                <= out@[b].id by {
                old_out.insert_ensures(j as int, v@[n as int]);
            }
        }
        n = n + 1;
    }
    out
}

/// The global target selector: everything, the overview alone, or one
/// single target's detail view.
#[derive(Debug)]
pub enum PlotFilter {
    All,
    SummaryOnly,
    Single(String),
}

/// Whether the filter admits a target into the layout.
pub open spec fn filter_admits(f: PlotFilter, t: Seq<char>) -> bool {
    match f {
        PlotFilter::All => true,
        PlotFilter::SummaryOnly => true,
        PlotFilter::Single(n) => n@ == t,
    }
}

/// Tests the filter against a target name.
pub fn filter_admits_exec(f: &PlotFilter, name: &String) -> (b: bool)
    ensures
        b == filter_admits(*f, name@),
{
    match f {
        PlotFilter::All => true,
        PlotFilter::SummaryOnly => true,
        PlotFilter::Single(n) => *n == *name,
    }
}

/// The targets of the first `n` table rows that the filter admits, in
/// table order.
pub open spec fn included_upto(ts: Seq<SeqLenEntry>, f: PlotFilter, n: int) -> Seq<SeqLenEntry>
    decreases n,
{
    if n <= 0 {
        Seq::<SeqLenEntry>::empty()
    } else {
        let p = included_upto(ts, f, n - 1);
        if filter_admits(f, ts[n - 1].name@) {
            p.push(ts[n - 1])
        } else {
            p
        }
    }
}

pub open spec fn included(ts: Seq<SeqLenEntry>, f: PlotFilter) -> Seq<SeqLenEntry> {
    included_upto(ts, f, ts.len() as int)
}

/// The query lanes of a target block: its primary records reduced to one
/// representative per query, sorted by target start.
pub open spec fn block_lanes(s: Seq<AlnRecord>, t: Seq<char>) -> Seq<AlnRecord> {
    sort_ts(reps(primary_for(s, t)))
}

/// The query extent of a target block.
pub open spec fn block_extent(s: Seq<AlnRecord>, qt: Seq<SeqLenEntry>, t: Seq<char>) -> int {
    extent_spec(block_lanes(s, t), qt)
}

/// The placement width of one target: the larger of the target's own
/// length and its query extent, plus the fixed padding.
pub open spec fn block_width(e: SeqLenEntry, s: Seq<AlnRecord>, qt: Seq<SeqLenEntry>) -> int {
    (if e.len as int >= block_extent(s, qt, e.name@) {
        e.len as int
    } else {
        block_extent(s, qt, e.name@)
    }) + TARGET_PADDING as int
}

/// The summed placement width of the first `k` admitted targets: the
/// axis offset at which the next block starts.
pub open spec fn width_upto(
    inc: Seq<SeqLenEntry>,
    s: Seq<AlnRecord>,
    qt: Seq<SeqLenEntry>,
    k: int,
) -> int
    decreases k,
{
    if k <= 0 {
        0
    } else {
        width_upto(inc, s, qt, k - 1) + block_width(inc[k - 1], s, qt)
    }
}

/// The whole axis length the admitted targets claim.
pub open spec fn total_width(inc: Seq<SeqLenEntry>, s: Seq<AlnRecord>, qt: Seq<SeqLenEntry>) -> int {
    width_upto(inc, s, qt, inc.len() as int)
}

/// One placed target: its table row plus its axis offset and placement
/// width.
#[derive(Debug)]
pub struct LayoutBlock {
    pub id: u32,
    pub name: String,
    pub len: u32,
    pub offset: u64,
    pub width: u64,
}

/// The shape of a correct layout for the admitted targets `inc`.
pub open spec fn blocks_match(
    blocks: Seq<LayoutBlock>,
    inc: Seq<SeqLenEntry>,
    s: Seq<AlnRecord>,
    qt: Seq<SeqLenEntry>,
) -> bool {
    &&& blocks.len() == inc.len()
    &&& forall|i: int|
        #![trigger blocks[i]]
        0 <= i < blocks.len() ==> blocks[i].id == inc[i].id && blocks[i].name == inc[i].name
            && blocks[i].len == inc[i].len && blocks[i].offset == width_upto(inc, s, qt, i)
            && blocks[i].width == block_width(inc[i], s, qt)
}

pub proof fn lemma_primary_for_upto_len(s: Seq<AlnRecord>, t: Seq<char>, n: int)
    requires
        0 <= n <= s.len(),
    ensures
        primary_for_upto(s, t, n).len() <= n,
    decreases n,
{
    if n > 0 {
        lemma_primary_for_upto_len(s, t, n - 1);
    }
}

pub proof fn lemma_included_prefix(ts: Seq<SeqLenEntry>, f: PlotFilter, n1: int, n2: int)
    requires
        0 <= n1 <= n2 <= ts.len(),
    ensures
        included_upto(ts, f, n1).len() <= included_upto(ts, f, n2).len(),
        forall|i: int|
            0 <= i < included_upto(ts, f, n1).len() ==> included_upto(ts, f, n2)[i] == included_upto(
                ts,
                f,
                n1,
            )[i],
    decreases n2 - n1,
{
    if n1 < n2 {
        lemma_included_prefix(ts, f, n1, n2 - 1);
    }
}

pub proof fn lemma_width_upto_congruent(
    inc1: Seq<SeqLenEntry>,
    inc2: Seq<SeqLenEntry>,
    s: Seq<AlnRecord>,
    qt: Seq<SeqLenEntry>,
    k: int,
)
    requires
        0 <= k <= inc1.len(),
        k <= inc2.len(),
        forall|i: int| 0 <= i < k ==> inc1[i] == inc2[i],
    ensures
        width_upto(inc1, s, qt, k) == width_upto(inc2, s, qt, k),
    decreases k,
{
    if k > 0 {
        lemma_width_upto_congruent(inc1, inc2, s, qt, k - 1);
    }
}

pub proof fn lemma_block_width_nonneg(e: SeqLenEntry, s: Seq<AlnRecord>, qt: Seq<SeqLenEntry>)
    ensures
        block_width(e, s, qt) >= TARGET_PADDING as int,
{
    let rs = block_lanes(s, e.name@);
    lemma_offset_at_bounds(rs, qt, rs.len() as int);
}

pub proof fn lemma_width_upto_mono(
    inc: Seq<SeqLenEntry>,
    s: Seq<AlnRecord>,
    qt: Seq<SeqLenEntry>,
    i: int,
    j: int,
)
    requires
        0 <= i <= j <= inc.len(),
    ensures
        width_upto(inc, s, qt, i) <= width_upto(inc, s, qt, j),
    decreases j - i,
{
    if i < j {
        lemma_width_upto_mono(inc, s, qt, i, j - 1);
        lemma_block_width_nonneg(inc[j - 1], s, qt);
    }
}

/// Elements of the primary partition come from the record list itself.
pub proof fn lemma_primary_for_upto_contains(s: Seq<AlnRecord>, t: Seq<char>, n: int, k: int)
    requires
        0 <= n <= s.len(),
        0 <= k < primary_for_upto(s, t, n).len(),
    ensures
        s.contains(primary_for_upto(s, t, n)[k]),
    decreases n,
{
    if n > 0 {
        let p = primary_for_upto(s, t, n - 1);
        if k < p.len() {
            lemma_primary_for_upto_contains(s, t, n - 1, k);
        } else {
            assert(primary_for_upto(s, t, n)[k] == s[n - 1]);
        }
    }
}

/// Within one target block, the accumulated lane offsets never overrun
/// the block: each lane ends within the block's query extent, and the
/// extent itself stays within the placement width minus the padding.
pub proof fn lemma_offsets_within_block(
    e: SeqLenEntry,
    s: Seq<AlnRecord>,
    qt: Seq<SeqLenEntry>,
    i: int,
)
    requires
        0 <= i < block_lanes(s, e.name@).len(),
    ensures
        ({
            let lanes = block_lanes(s, e.name@);
            &&& offset_at(lanes, qt, i) + qlen_of(qt, lanes[i].q_name@) <= block_extent(
                s,
                qt,
                e.name@,
            )
            &&& block_extent(s, qt, e.name@) <= block_width(e, s, qt) - TARGET_PADDING as int
        }),
{
    let lanes = block_lanes(s, e.name@);
    assert(offset_at(lanes, qt, i + 1) == offset_at(lanes, qt, i) + qlen_of(
        qt,
        lanes[i].q_name@,
    ));
    lemma_offset_at_mono(lanes, qt, i + 1, lanes.len() as int);
}

/// A single-target filter admits that target alone: every laid-out
/// block then carries the selected name.
pub proof fn lemma_included_single(ts: Seq<SeqLenEntry>, name: String, n: int, i: int)
    requires
        0 <= n <= ts.len(),
        0 <= i < included_upto(ts, PlotFilter::Single(name), n).len(),
    ensures
        included_upto(ts, PlotFilter::Single(name), n)[i].name@ == name@,
    decreases n,
{
    if n > 0 {
        let p = included_upto(ts, PlotFilter::Single(name), n - 1);
        if i < p.len() {
            lemma_included_single(ts, name, n - 1, i);
        }
    }
}

/// Walks the target table in order and assigns each admitted target its
/// axis offset; fails exactly when the admitted targets' total width
/// overruns the axis.
pub fn layout_blocks(
    targets_sorted: &Vec<SeqLenEntry>,
    records: &Vec<AlnRecord>,
    m: &Vec<(String, String)>,
    qt: &Vec<SeqLenEntry>,
    filter: &PlotFilter,
) -> (r: Result<(Vec<LayoutBlock>, u64), PlotError>)
    requires
        map_is_primary_map(m@, records@),
        valid_spans(records@),
        records@.len() <= 0xffff_ffff,
        forall|k: int| 0 <= k < records@.len() ==> table_lookup(
            qt@,
            #[trigger] records@[k].q_name@,
        ) is Some,
    ensures
        ({
            let inc = included(targets_sorted@, *filter);
            match r {
                Ok((blocks, total)) => {
                    &&& blocks_match(blocks@, inc, records@, qt@)
                    &&& total == total_width(inc, records@, qt@)
                    &&& total <= AXIS_LIMIT
                },
                Err(e) => {
                    &&& e == PlotError::TooLarge
                    &&& total_width(inc, records@, qt@) > AXIS_LIMIT as int
                },
            }
        }),
{
    let ghost ts = targets_sorted@;
    let ghost f = *filter;
    let mut blocks: Vec<LayoutBlock> = Vec::new();
    let mut offset: u64 = 0;
    let mut n: usize = 0;
    while n < targets_sorted.len()
        invariant
            0 <= n <= ts.len(),
            ts == targets_sorted@,
            f == *filter,
            map_is_primary_map(m@, records@),
            valid_spans(records@),
            records@.len() <= 0xffff_ffff,
            forall|k: int| 0 <= k < records@.len() ==> table_lookup(
                qt@,
                #[trigger] records@[k].q_name@,
            ) is Some,
            blocks_match(blocks@, included_upto(ts, f, n as int), records@, qt@),
            offset == width_upto(
                included_upto(ts, f, n as int),
                records@,
                qt@,
                included_upto(ts, f, n as int).len() as int,
            ),
            offset <= AXIS_LIMIT,
        decreases targets_sorted.len() - n,
    {
        let ghost inc_old = included_upto(ts, f, n as int);
        let e = &targets_sorted[n];
        if filter_admits_exec(filter, &e.name) {
            let block_records = primary_records_for(records, m, &e.name);
            proof {
                assert forall|k: int| 0 <= k < block_records@.len() implies records@.contains(
                    block_records@[k],
                ) by {
                    lemma_primary_for_upto_contains(records@, e.name@, records@.len() as int, k);
                }
                assert forall|k: int| 0 <= k < block_records@.len() implies block_records@[k].qs
                    <= block_records@[k].qe by {
                    let w = choose|w: int|
                        0 <= w < records@.len() && records@[w] == block_records@[k];
                }
                lemma_primary_for_upto_len(records@, e.name@, records@.len() as int);
            }
            let reps_v = best_records(&block_records);
            proof {
                lemma_reps_len(block_records@);
                assert forall|k: int| 0 <= k < reps_v@.len() implies records@.contains(
                    reps_v@[k],
                ) by {
                    let w = choose|w: int|
                        0 <= w < block_records@.len() && block_records@[w] == reps_v@[k];
                    lemma_primary_for_upto_contains(records@, e.name@, records@.len() as int, w);
                }
            }
            let lanes = sort_records_by_ts(&reps_v);
            proof {
                assert forall|k: int| 0 <= k < lanes@.len() implies table_lookup(
                    qt@,
                    #[trigger] lanes@[k].q_name@,
                ) is Some by {
                    let w = choose|w: int| 0 <= w < reps_v@.len() && reps_v@[w] == lanes@[k];
                    let w2 = choose|w2: int| 0 <= w2 < records@.len() && records@[w2] == reps_v@[w];
                }
            }
            let extent = extent_of(&lanes, qt);
            proof {
                lemma_offset_at_bounds(lanes@, qt@, lanes@.len() as int);
                assert(lanes@.len() * 0xffff_ffff <= 0xffff_ffff * 0xffff_ffff) by (nonlinear_arith)
                    requires
                        lanes@.len() <= 0xffff_ffff,
                ;
            }
            let tlen64: u64 = e.len as u64;
            let base: u64 = if tlen64 >= extent {
                tlen64
            } else {
                extent
            };
            let width: u64 = base + TARGET_PADDING;
            let ghost inc_new = included_upto(ts, f, n as int + 1);
            proof {
                assert(inc_new == inc_old.push(ts[n as int]));
                assert(width == block_width(ts[n as int], records@, qt@));
                lemma_width_upto_congruent(inc_old, inc_new, records@, qt@, inc_old.len() as int);
                assert(width_upto(inc_new, records@, qt@, inc_new.len() as int) == offset + width);
            }
            if width > AXIS_LIMIT - offset {
                proof {
                    let inc_full = included(ts, f);
                    lemma_included_prefix(ts, f, n as int + 1, ts.len() as int);
                    lemma_width_upto_congruent(
                        inc_new,
                        inc_full,
                        records@,
                        qt@,
                        inc_new.len() as int,
                    );
                    lemma_width_upto_mono(
                        inc_full,
                        records@,
                        qt@,
                        inc_new.len() as int,
                        inc_full.len() as int,
                    );
                }
                return Err(PlotError::TooLarge);
            }
            blocks.push(
                LayoutBlock {
                    id: e.id,
                    name: e.name.clone(),
                    len: e.len,
                    offset,
                    width,
                },
            );
            offset = offset + width;
            proof {
                assert forall|i: int| 0 <= i < blocks@.len() implies #[trigger] blocks@[i].id
                    == inc_new[i].id && blocks@[i].name == inc_new[i].name && blocks@[i].len
                    == inc_new[i].len && blocks@[i].offset == width_upto(inc_new, records@, qt@, i)
                    && blocks@[i].width == block_width(inc_new[i], records@, qt@) by {
                    if i < blocks@.len() - 1 {
                        lemma_width_upto_congruent(inc_old, inc_new, records@, qt@, i);
                    }
                }
            }
        } else {
            proof {
                assert(included_upto(ts, f, n as int + 1) == inc_old);
            }
        }
        n = n + 1;
    }
    Ok((blocks, offset))
}

} // verus!
