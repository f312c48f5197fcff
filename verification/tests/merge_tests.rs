use chr_aln_plot::merge::{
    bucket_by_chr, group_intervals, label_counts, parse_file_list, parse_svcnd_lines,
    sort_buckets, sort_intervals, LabeledInterval, MergeError,
};

fn iv(bgn: u32, end: u32, label: &str, annotation: &str) -> LabeledInterval {
    LabeledInterval {
        bgn,
        end,
        label: label.as_bytes().to_vec(),
        annotation: annotation.as_bytes().to_vec(),
    }
}

#[test]
fn parse_svcnd_reads_four_fields_and_skips_comments() {
    let lines = vec![
        "#track".to_string(),
        "chr1\t10\t20\tDEL".to_string(),
        "chr2\t5\t9\tINS\textra".to_string(),
    ];
    let recs = parse_svcnd_lines(&lines).unwrap();
    assert_eq!(recs.len(), 2);
    assert_eq!(recs[0].0, b"chr1".to_vec());
    assert_eq!((recs[0].1, recs[0].2), (10, 20));
    assert_eq!(recs[0].3, b"DEL".to_vec());
    assert_eq!(recs[1].0, b"chr2".to_vec());
    assert_eq!(recs[1].3, b"INS".to_vec());
}

#[test]
fn parse_svcnd_rejects_short_lines() {
    // Three fields are not enough: the annotation column is required.
    let e = parse_svcnd_lines(&vec!["chr1\t10\t20".to_string()]).unwrap_err();
    assert_eq!(e, MergeError::BadLine { line: 0 });
    // A blank line is an error for this format, not a skip.
    let e = parse_svcnd_lines(&vec!["chr1\t1\t2\tx".to_string(), "".to_string()]).unwrap_err();
    assert_eq!(e, MergeError::BadLine { line: 1 });
    let e = parse_svcnd_lines(&vec!["chr1\tten\t20\tx".to_string()]).unwrap_err();
    assert_eq!(e, MergeError::BadLine { line: 0 });
}

#[test]
fn sort_intervals_orders_by_coordinates_then_labels() {
    let v = vec![
        iv(5, 10, "b", "y"),
        iv(1, 3, "z", "z"),
        iv(5, 10, "a", "x"),
        iv(5, 8, "c", "w"),
    ];
    let s = sort_intervals(v);
    let keys: Vec<(u32, u32, &[u8])> =
        s.iter().map(|i| (i.bgn, i.end, i.label.as_slice())).collect();
    assert_eq!(
        keys,
        vec![
            (1, 3, b"z".as_slice()),
            (5, 8, b"c".as_slice()),
            (5, 10, b"a".as_slice()),
            (5, 10, b"b".as_slice()),
        ]
    );
}

#[test]
fn sweep_merges_overlapping_and_touching_runs() {
    let sorted = sort_intervals(vec![
        iv(0, 10, "h1", "a"),
        iv(5, 20, "h2", "b"),
        iv(20, 25, "h1", "c"),
        iv(30, 40, "h2", "d"),
    ]);
    let groups = group_intervals(sorted);
    assert_eq!(groups.len(), 2);
    assert_eq!((groups[0].bgn, groups[0].end), (0, 25));
    assert_eq!(groups[0].members.len(), 3);
    assert_eq!((groups[1].bgn, groups[1].end), (30, 40));
    assert_eq!(groups[1].members.len(), 1);
}

#[test]
fn sweep_keeps_disjoint_intervals_apart() {
    let groups = group_intervals(sort_intervals(vec![
        iv(0, 5, "h1", "a"),
        iv(7, 9, "h1", "b"),
    ]));
    assert_eq!(groups.len(), 2);
    assert_eq!((groups[0].bgn, groups[0].end), (0, 5));
    assert_eq!((groups[1].bgn, groups[1].end), (7, 9));
}

#[test]
fn sweep_tracks_running_maximum_end() {
    // The second interval is contained in the first; the third starts
    // beyond the second's end but within the running maximum.
    let groups = group_intervals(sort_intervals(vec![
        iv(0, 100, "h1", "a"),
        iv(10, 20, "h2", "b"),
        iv(50, 60, "h1", "c"),
    ]));
    assert_eq!(groups.len(), 1);
    assert_eq!((groups[0].bgn, groups[0].end), (0, 100));
    assert_eq!(groups[0].members.len(), 3);
}

#[test]
fn label_counts_reports_distinct_labels_in_first_seen_order() {
    let ms = vec![
        iv(0, 1, "h2", "a"),
        iv(1, 2, "h1", "b"),
        iv(2, 3, "h2", "c"),
        iv(3, 4, "h2", "d"),
    ];
    let counts = label_counts(&ms);
    assert_eq!(counts.len(), 2);
    assert_eq!(ms[counts[0].0].label, b"h2".to_vec());
    assert_eq!(counts[0].1, 3);
    assert_eq!(ms[counts[1].0].label, b"h1".to_vec());
    assert_eq!(counts[1].1, 1);
}

#[test]
fn buckets_gather_by_name_and_sort_lexicographically() {
    let items = vec![
        (b"chr2".to_vec(), iv(0, 1, "h1", "a")),
        (b"chr10".to_vec(), iv(2, 3, "h1", "b")),
        (b"chr2".to_vec(), iv(4, 5, "h2", "c")),
    ];
    let buckets = bucket_by_chr(items);
    assert_eq!(buckets.len(), 2);
    assert_eq!(buckets[0].chr, b"chr2".to_vec());
    assert_eq!(buckets[0].intervals.len(), 2);
    assert_eq!(buckets[1].chr, b"chr10".to_vec());

    let sorted = sort_buckets(buckets);
    // Byte-lexicographic order puts "chr10" before "chr2".
    assert_eq!(sorted[0].chr, b"chr10".to_vec());
    assert_eq!(sorted[1].chr, b"chr2".to_vec());
}

#[test]
fn merge_pipeline_end_to_end() {
    // Two input sets, as their parsed lines with labels attached.
    let f1 = parse_svcnd_lines(&vec![
        "chr1\t0\t10\tDEL".to_string(),
        "chr1\t8\t15\tDEL".to_string(),
    ])
    .unwrap();
    let f2 = parse_svcnd_lines(&vec!["chr1\t12\t20\tINS".to_string()]).unwrap();
    let mut items = Vec::new();
    for (chr, bgn, end, annotation) in f1 {
        items.push((chr, LabeledInterval { bgn, end, label: b"h1".to_vec(), annotation }));
    }
    for (chr, bgn, end, annotation) in f2 {
        items.push((chr, LabeledInterval { bgn, end, label: b"h2".to_vec(), annotation }));
    }
    let buckets = sort_buckets(bucket_by_chr(items));
    assert_eq!(buckets.len(), 1);
    let mut groups = Vec::new();
    for b in buckets {
        groups.extend(group_intervals(sort_intervals(b.intervals)));
    }
    assert_eq!(groups.len(), 1);
    assert_eq!((groups[0].bgn, groups[0].end), (0, 20));
    let counts = label_counts(&groups[0].members);
    assert_eq!(counts.len(), 2);
    assert_eq!(counts[0].1 + counts[1].1, 3);
}

#[test]
fn file_list_lines_bind_labels_to_paths() {
    let entries = parse_file_list(&vec![
        "h1\ta/one.bed".to_string(),
        "h2\tb/two.bed\tignored".to_string(),
    ])
    .unwrap();
    assert_eq!(entries.len(), 2);
    assert_eq!(entries[0].0, b"h1".to_vec());
    assert_eq!(entries[0].1, b"a/one.bed".to_vec());
    assert_eq!(entries[1].0, b"h2".to_vec());
    assert_eq!(entries[1].1, b"b/two.bed".to_vec());
    let e = parse_file_list(&vec!["h1\tok".to_string(), "just-a-label".to_string()]).unwrap_err();
    assert_eq!(e, MergeError::BadListLine { line: 1 });
}
