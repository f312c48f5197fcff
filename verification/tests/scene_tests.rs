use chr_aln_plot::coloring::{calculate_hash, color_index, palette_color, PALETTE_SIZE};
use chr_aln_plot::layout::{sort_entries, PlotFilter, TARGET_PADDING};
use chr_aln_plot::parse::parse_bed;
use chr_aln_plot::project::{alt_project_interval, project_interval};
use chr_aln_plot::records::{AlnRecord, CtgMapSet, CytoBandRec, HighlightEntry, PlotError, SeqLenEntry};
use chr_aln_plot::resolve::{distinct_queries, inverse_primary_map, primary_map};
use chr_aln_plot::scene::build_scene;
use std::collections::hash_map::DefaultHasher;
use std::hash::{Hash, Hasher};

fn rec(
    t_name: &str,
    ts: u32,
    te: u32,
    q_name: &str,
    qs: u32,
    qe: u32,
    ctg_len: u32,
    orientation: u32,
    ctg_orientation: u32,
) -> AlnRecord {
    AlnRecord {
        t_name: t_name.to_string(),
        ts,
        te,
        q_name: q_name.to_string(),
        qs,
        qe,
        ctg_len,
        orientation,
        ctg_orientation,
        t_dup: false,
        t_ovlp: false,
        q_dup: false,
        q_ovlp: false,
    }
}

fn entry(id: u32, name: &str, len: u32) -> SeqLenEntry {
    SeqLenEntry { id, name: name.to_string(), len }
}

#[test]
fn hash_matches_std_string_hash() {
    for name in ["ctgA", "chr1", "", "a-very-long-contig-name_0001"] {
        let mut h = DefaultHasher::new();
        name.to_string().hash(&mut h);
        assert_eq!(calculate_hash(name), h.finish());
    }
}

#[test]
fn color_is_pure_function_of_name() {
    let a = color_index("ctgA");
    let b = color_index("ctgA");
    assert_eq!(a, b);
    assert!(a < PALETTE_SIZE);
    assert_eq!(palette_color(a), palette_color(b));
}

#[test]
fn palette_spot_values() {
    assert_eq!(palette_color(0), "#870098");
    assert_eq!(palette_color(1), "#00aaa5");
    assert_eq!(palette_color(96), "#bcff00");
}

#[test]
fn projection_reverse_strand_fixture() {
    // qlen=1000, qs=100, qe=200, contig reverse, alignment reverse:
    // reflect to (800, 900), strands agree, no swap.
    assert_eq!(project_interval(100, 200, 1000, 1, 1), (800, 900));
}

#[test]
fn projection_swap_on_strand_disagreement() {
    // contig reverse, alignment forward: reflect then swap.
    assert_eq!(project_interval(100, 200, 1000, 0, 1), (900, 800));
    // contig forward, alignment reverse: no reflection, swap only.
    assert_eq!(project_interval(100, 200, 1000, 1, 0), (200, 100));
    // both forward: identity.
    assert_eq!(project_interval(100, 200, 1000, 0, 0), (100, 200));
}

#[test]
fn alt_projection_fixture() {
    // forward lane: segment runs from the record's end to its start.
    assert_eq!(alt_project_interval(10, 40, 100, 0), (40, 10));
    // reverse lane: both endpoints reflected.
    assert_eq!(alt_project_interval(10, 40, 100, 1), (60, 90));
}

#[test]
fn sort_entries_orders_by_id() {
    let v = vec![entry(2, "b", 20), entry(0, "c", 30), entry(1, "a", 10)];
    let s = sort_entries(&v);
    let names: Vec<&str> = s.iter().map(|e| e.name.as_str()).collect();
    assert_eq!(names, vec!["c", "a", "b"]);
}

#[test]
fn distinct_queries_keeps_first_appearance_order() {
    let records = vec![
        rec("chr1", 0, 10, "q2", 0, 10, 100, 0, 0),
        rec("chr1", 10, 20, "q1", 0, 10, 100, 0, 0),
        rec("chr1", 20, 30, "q2", 10, 20, 100, 0, 0),
    ];
    let qs = distinct_queries(&records);
    let names: Vec<&str> = qs.iter().map(|s| s.as_str()).collect();
    assert_eq!(names, vec!["q2", "q1"]);
}

#[test]
fn primary_map_picks_majority_coverage() {
    let records = vec![
        rec("chr1", 0, 900, "ctgA", 0, 900, 1500, 0, 0),
        rec("chr2", 0, 400, "ctgA", 900, 1300, 1500, 0, 0),
    ];
    let m = primary_map(&records);
    assert_eq!(m.len(), 1);
    assert_eq!(m[0].0, "ctgA");
    assert_eq!(m[0].1, "chr1");
}

#[test]
fn primary_map_tie_breaks_to_first_seen_target() {
    let records = vec![
        rec("chrB", 0, 100, "q", 0, 100, 400, 0, 0),
        rec("chrA", 0, 100, "q", 100, 200, 400, 0, 0),
    ];
    let m = primary_map(&records);
    assert_eq!(m[0].1, "chrB");
}

fn two_target_set() -> CtgMapSet {
    CtgMapSet {
        records: vec![
            rec("chr1", 0, 900, "ctgA", 0, 900, 1500, 0, 0),
            rec("chr2", 100, 500, "ctgA", 900, 1300, 1500, 0, 0),
        ],
        target_length: vec![entry(0, "chr1", 1000), entry(1, "chr2", 2000)],
        query_length: vec![entry(0, "ctgA", 1500)],
    }
}

#[test]
fn end_to_end_two_targets_one_query() {
    let set = two_target_set();
    let scene = build_scene(&set, &vec![], &vec![], &PlotFilter::All).unwrap();

    // ctgA is assigned primary to chr1: chr1's block holds its lane.
    let overview = scene.overview.as_ref().unwrap();
    assert_eq!(overview.len(), 2);
    assert_eq!(overview[0].name, "chr1");
    assert_eq!(overview[1].name, "chr2");
    assert_eq!(overview[0].lanes.len(), 1);
    assert_eq!(overview[0].lanes[0].q_name, "ctgA");
    assert_eq!(overview[1].lanes.len(), 0);
    assert_eq!(overview[0].ribbons.len(), 1);
    assert_eq!(overview[1].ribbons.len(), 0);

    // chr1 width: max(1000, 1500) + padding; chr2 starts there.
    assert_eq!(overview[0].offset, 0);
    assert_eq!(overview[1].offset, 1500 + TARGET_PADDING);
    assert_eq!(scene.total_width, 1500 + TARGET_PADDING + 2000 + TARGET_PADDING);

    // The chr2 record is an alternate: on chr1's detail it rides under
    // ctgA's lane, on chr2's detail it sits in the target-side alt lane.
    assert_eq!(scene.details.len(), 2);
    let d1 = &scene.details[0];
    assert_eq!(d1.name, "chr1");
    assert_eq!(d1.lanes.len(), 1);
    assert_eq!(d1.lanes[0].alts.len(), 1);
    assert_eq!(d1.lanes[0].alts[0].rec.t_name, "chr2");
    let d2 = &scene.details[1];
    assert_eq!(d2.name, "chr2");
    assert_eq!(d2.alt_targets.len(), 1);
    assert_eq!(d2.alt_targets[0].rec.q_name, "ctgA");
    assert_eq!(d2.alt_targets[0].query_primary.as_deref(), Some("chr1"));
    assert_eq!(d2.alt_targets[0].start, 100);
    assert_eq!(d2.alt_targets[0].end, 500);
    // chr2 keeps no primary lane for ctgA.
    assert_eq!(d2.lanes.len(), 0);
    assert_eq!(d2.ribbons.len(), 0);
}

#[test]
fn overview_and_detail_colors_agree() {
    let set = two_target_set();
    let scene = build_scene(&set, &vec![], &vec![], &PlotFilter::All).unwrap();
    let overview = scene.overview.as_ref().unwrap();
    let lane_color = overview[0].lanes[0].color;
    assert_eq!(lane_color, color_index("ctgA"));
    assert_eq!(overview[0].ribbons[0].color, lane_color);
    assert_eq!(scene.details[0].lanes[0].color, lane_color);
    assert_eq!(scene.details[0].ribbons[0].color, lane_color);
}

#[test]
fn single_target_filter_suppresses_overview() {
    let set = two_target_set();
    let scene = build_scene(&set, &vec![], &vec![], &PlotFilter::Single("chr2".to_string()))
        .unwrap();
    assert!(scene.overview.is_none());
    assert_eq!(scene.details.len(), 1);
    assert_eq!(scene.details[0].name, "chr2");
    // Only chr2's own primary and alternate records appear.
    assert_eq!(scene.details[0].alt_targets.len(), 1);
    assert_eq!(scene.details[0].ribbons.len(), 0);
}

#[test]
fn summary_filter_keeps_only_overview() {
    let set = two_target_set();
    let scene = build_scene(&set, &vec![], &vec![], &PlotFilter::SummaryOnly).unwrap();
    assert!(scene.overview.is_some());
    assert_eq!(scene.details.len(), 0);
    assert_eq!(scene.overview.unwrap().len(), 2);
}

#[test]
fn doubly_duplicate_records_back_lanes_but_no_ribbons() {
    // qA has a normal record and a doubly-duplicate one; the duplicate
    // spans more of the query, so it drives the backbone placement,
    // yet it draws no ribbon.
    let r1 = rec("chr1", 500, 600, "qA", 0, 100, 200, 0, 0);
    let mut r2 = rec("chr1", 0, 180, "qA", 0, 180, 200, 0, 0);
    r2.t_dup = true;
    r2.q_dup = true;
    let r3 = rec("chr1", 300, 400, "qB", 0, 100, 100, 0, 0);
    let set = CtgMapSet {
        records: vec![r1, r2, r3],
        target_length: vec![entry(0, "chr1", 1000)],
        query_length: vec![entry(0, "qA", 200), entry(1, "qB", 100)],
    };
    let scene = build_scene(&set, &vec![], &vec![], &PlotFilter::All).unwrap();
    let overview = scene.overview.as_ref().unwrap();
    // The block carries three records but only two ribbons: the count
    // differs by exactly the number of doubly-duplicate records.
    assert_eq!(overview[0].ribbons.len(), 2);
    assert!(overview[0].ribbons.iter().all(|rb| !(rb.rec.t_dup && rb.rec.q_dup)));
    // The duplicate still backed the offset accumulation: its target
    // start (0) puts qA's lane before qB's.
    assert_eq!(overview[0].lanes.len(), 2);
    assert_eq!(overview[0].lanes[0].q_name, "qA");
    assert_eq!((overview[0].lanes[0].start, overview[0].lanes[0].end), (0, 200));
    assert_eq!((overview[0].lanes[1].start, overview[0].lanes[1].end), (200, 300));
}

#[test]
fn ribbon_coordinates_carry_offsets() {
    let set = two_target_set();
    let scene = build_scene(&set, &vec![], &vec![], &PlotFilter::All).unwrap();
    let overview = scene.overview.as_ref().unwrap();
    let rb = &overview[0].ribbons[0];
    assert_eq!(rb.ts, 0);
    assert_eq!(rb.te, 900);
    // Forward strands, lane offset 0, block offset 0.
    assert_eq!(rb.qs, 0);
    assert_eq!(rb.qe, 900);
}

#[test]
fn missing_query_length_is_fatal() {
    let set = CtgMapSet {
        records: vec![rec("chr1", 0, 10, "ghost", 0, 10, 100, 0, 0)],
        target_length: vec![entry(0, "chr1", 1000)],
        query_length: vec![],
    };
    let e = build_scene(&set, &vec![], &vec![], &PlotFilter::All).unwrap_err();
    assert_eq!(e, PlotError::MissingQueryLength { record: 0 });
}

#[test]
fn missing_target_length_is_fatal() {
    let set = CtgMapSet {
        records: vec![rec("ghost", 0, 10, "q", 0, 10, 100, 0, 0)],
        target_length: vec![entry(0, "chr1", 1000)],
        query_length: vec![entry(0, "q", 100)],
    };
    let e = build_scene(&set, &vec![], &vec![], &PlotFilter::All).unwrap_err();
    assert_eq!(e, PlotError::MissingTargetLength { record: 0 });
}

#[test]
fn inverted_interval_is_fatal() {
    let set = CtgMapSet {
        records: vec![rec("chr1", 0, 10, "q", 50, 10, 100, 0, 0)],
        target_length: vec![entry(0, "chr1", 1000)],
        query_length: vec![entry(0, "q", 100)],
    };
    let e = build_scene(&set, &vec![], &vec![], &PlotFilter::All).unwrap_err();
    assert_eq!(e, PlotError::BadRecordInterval { record: 0 });
}

#[test]
fn query_interval_beyond_length_is_fatal() {
    let set = CtgMapSet {
        records: vec![rec("chr1", 0, 10, "q", 0, 150, 100, 0, 0)],
        target_length: vec![entry(0, "chr1", 1000)],
        query_length: vec![entry(0, "q", 100)],
    };
    let e = build_scene(&set, &vec![], &vec![], &PlotFilter::All).unwrap_err();
    assert_eq!(e, PlotError::BadRecordInterval { record: 0 });
}

#[test]
fn highlights_land_on_their_target() {
    let set = two_target_set();
    let hs = vec![
        HighlightEntry { name: b"chr2".to_vec(), bgn: 5, end: 25 },
        HighlightEntry { name: b"chr1".to_vec(), bgn: 1, end: 2 },
    ];
    let scene = build_scene(&set, &vec![], &hs, &PlotFilter::All).unwrap();
    let overview = scene.overview.as_ref().unwrap();
    assert_eq!(overview[0].highlights, vec![(1, 2)]);
    let chr2_off = overview[1].offset;
    assert_eq!(overview[1].highlights, vec![(chr2_off + 5, chr2_off + 25)]);
    // Detail views keep block-local coordinates.
    assert_eq!(scene.details[1].highlights, vec![(5, 25)]);
}

#[test]
fn cytobands_attach_to_their_target() {
    let set = two_target_set();
    let cyto = vec![(
        "chr1".to_string(),
        vec![CytoBandRec { bgn: 0, end: 500, name: "p1".to_string(), stain: "gpos50".to_string() }],
    )];
    let scene = build_scene(&set, &cyto, &vec![], &PlotFilter::All).unwrap();
    let d1 = &scene.details[0];
    let bands = d1.cyto.as_ref().unwrap();
    assert_eq!(bands.len(), 1);
    assert_eq!(bands[0].name, "p1");
    assert!(scene.details[1].cyto.is_none());
}

#[test]
fn identical_runs_agree() {
    let set1 = two_target_set();
    let set2 = two_target_set();
    let s1 = build_scene(&set1, &vec![], &vec![], &PlotFilter::All).unwrap();
    let s2 = build_scene(&set2, &vec![], &vec![], &PlotFilter::All).unwrap();
    assert_eq!(s1.total_width, s2.total_width);
    let o1 = s1.overview.unwrap();
    let o2 = s2.overview.unwrap();
    assert_eq!(o1.len(), o2.len());
    for (a, b) in o1.iter().zip(o2.iter()) {
        assert_eq!(a.name, b.name);
        assert_eq!(a.offset, b.offset);
        assert_eq!(a.lanes.len(), b.lanes.len());
        for (la, lb) in a.lanes.iter().zip(b.lanes.iter()) {
            assert_eq!((la.start, la.end, la.color), (lb.start, lb.end, lb.color));
        }
        assert_eq!(a.ribbons.len(), b.ribbons.len());
        for (ra, rb) in a.ribbons.iter().zip(b.ribbons.iter()) {
            assert_eq!((ra.ts, ra.te, ra.qs, ra.qe, ra.color), (rb.ts, rb.te, rb.qs, rb.qe, rb.color));
        }
    }
}

#[test]
fn parse_bed_reads_fields_and_skips_comments() {
    let lines = vec![
        "# a comment".to_string(),
        "".to_string(),
        "   ".to_string(),
        "chr1\t100\t200".to_string(),
        "chr2\t5\t25\textra\tfields".to_string(),
    ];
    let entries = parse_bed(&lines).unwrap();
    assert_eq!(entries.len(), 2);
    assert_eq!(entries[0].name, b"chr1".to_vec());
    assert_eq!(entries[0].bgn, 100);
    assert_eq!(entries[0].end, 200);
    assert_eq!(entries[1].name, b"chr2".to_vec());
    assert_eq!(entries[1].bgn, 5);
    assert_eq!(entries[1].end, 25);
}

#[test]
fn parse_bed_rejects_short_and_non_numeric_lines() {
    let e = parse_bed(&vec!["chr1\t100".to_string()]).unwrap_err();
    assert_eq!(e, PlotError::BadHighlightLine { line: 0 });
    let e = parse_bed(&vec!["ok\t1\t2".to_string(), "chr1\tx\t2".to_string()]).unwrap_err();
    assert_eq!(e, PlotError::BadHighlightLine { line: 1 });
    // A coordinate beyond 32 bits is rejected too.
    let e = parse_bed(&vec!["chr1\t99999999999\t2".to_string()]).unwrap_err();
    assert_eq!(e, PlotError::BadHighlightLine { line: 0 });
}

#[test]
fn lane_offsets_stay_within_block_width() {
    // Two queries on one target: offsets accumulate in target-start
    // order, and the extent stays within width minus padding.
    let set = CtgMapSet {
        records: vec![
            rec("chr1", 500, 700, "qB", 0, 200, 300, 0, 0),
            rec("chr1", 0, 100, "qA", 0, 100, 200, 0, 0),
        ],
        target_length: vec![entry(0, "chr1", 1000)],
        query_length: vec![entry(0, "qA", 200), entry(1, "qB", 300)],
    };
    let scene = build_scene(&set, &vec![], &vec![], &PlotFilter::All).unwrap();
    let overview = scene.overview.unwrap();
    let lanes = &overview[0].lanes;
    // qA starts first on the target, so it takes the first lane slot.
    assert_eq!(lanes[0].q_name, "qA");
    assert_eq!((lanes[0].start, lanes[0].end), (0, 200));
    assert_eq!(lanes[1].q_name, "qB");
    assert_eq!((lanes[1].start, lanes[1].end), (200, 500));
    // extent 500 <= max(1000, 500) = width - padding.
    let width = scene.total_width;
    assert_eq!(width, 1000 + TARGET_PADDING);
    assert!(lanes[1].end <= width - TARGET_PADDING);
}

#[test]
fn representative_is_widest_span_first_seen_wins() {
    // qA has two records; the wider query span fixes the lane order.
    let set = CtgMapSet {
        records: vec![
            rec("chr1", 800, 900, "qA", 0, 50, 200, 0, 0),
            rec("chr1", 100, 300, "qA", 50, 200, 200, 0, 0),
            rec("chr1", 400, 500, "qB", 0, 100, 100, 0, 0),
        ],
        target_length: vec![entry(0, "chr1", 1000)],
        query_length: vec![entry(0, "qA", 200), entry(1, "qB", 100)],
    };
    let scene = build_scene(&set, &vec![], &vec![], &PlotFilter::All).unwrap();
    let overview = scene.overview.unwrap();
    let lanes = &overview[0].lanes;
    // qA's representative is its second record (span 150 > 50, ts 100),
    // which sorts before qB's representative (ts 400).
    assert_eq!(lanes[0].q_name, "qA");
    assert_eq!(lanes[1].q_name, "qB");
}

#[test]
fn inverse_primary_map_last_writer_wins() {
    // Two queries whose primary target is the same: the later query in
    // the stable order replaces the earlier one.
    let records = vec![
        rec("chr1", 0, 500, "qA", 0, 500, 600, 0, 0),
        rec("chr1", 0, 400, "qB", 0, 400, 500, 0, 0),
        rec("chr2", 0, 100, "qB", 400, 500, 500, 0, 0),
    ];
    let m = primary_map(&records);
    assert_eq!(m.len(), 2);
    let inv = inverse_primary_map(&m);
    assert_eq!(inv.len(), 1);
    assert_eq!(inv[0].0, "chr1");
    assert_eq!(inv[0].1, "qB");
}

#[test]
fn validation_reports_name_errors_before_interval_errors() {
    // The record misses its target name and carries a bad interval: the
    // name error wins.
    let set = CtgMapSet {
        records: vec![rec("ghost", 0, 10, "q", 50, 10, 100, 0, 0)],
        target_length: vec![entry(0, "chr1", 1000)],
        query_length: vec![entry(0, "q", 100)],
    };
    let e = build_scene(&set, &vec![], &vec![], &PlotFilter::All).unwrap_err();
    assert_eq!(e, PlotError::MissingTargetLength { record: 0 });
}

#[test]
fn validation_reports_first_bad_record() {
    let set = CtgMapSet {
        records: vec![
            rec("chr1", 0, 10, "q", 0, 10, 100, 0, 0),
            rec("chr1", 0, 10, "ghost", 0, 10, 100, 0, 0),
        ],
        target_length: vec![entry(0, "chr1", 1000)],
        query_length: vec![entry(0, "q", 100)],
    };
    let e = build_scene(&set, &vec![], &vec![], &PlotFilter::All).unwrap_err();
    assert_eq!(e, PlotError::MissingQueryLength { record: 1 });
}

#[test]
fn targets_without_primary_records_still_occupy_the_overview() {
    // chr2 receives no query, yet it keeps its overview block and its
    // share of the axis.
    let set = CtgMapSet {
        records: vec![rec("chr1", 0, 10, "q", 0, 10, 100, 0, 0)],
        target_length: vec![entry(0, "chr1", 1000), entry(1, "chr2", 2000)],
        query_length: vec![entry(0, "q", 100)],
    };
    let scene = build_scene(&set, &vec![], &vec![], &PlotFilter::All).unwrap();
    let overview = scene.overview.unwrap();
    assert_eq!(overview.len(), 2);
    assert_eq!(overview[1].name, "chr2");
    assert_eq!(overview[1].lanes.len(), 0);
    assert_eq!(overview[1].ribbons.len(), 0);
    assert_eq!(scene.total_width, 1000 + TARGET_PADDING + 2000 + TARGET_PADDING);
}
