//! Merging of labeled intervals across input sets: the intervals of one
//! reference sequence are ordered, overlapping or touching runs are
//! folded into groups by a single left-to-right sweep, and each group
//! reports how many input labels contributed to it.

use vstd::prelude::*;
use crate::parse::{find_byte, find_byte_exec, parse_u32_bytes, parse_u32_spec};

verus! {

/// One interval carrying the label of the input set it came from and
/// its annotation text.
#[derive(Debug)]
pub struct LabeledInterval {
    pub bgn: u32,
    pub end: u32,
    pub label: Vec<u8>,
    pub annotation: Vec<u8>,
}

/// One merged run of overlapping intervals.
#[derive(Debug)]
pub struct IntervalGroup {
    pub bgn: u32,
    pub end: u32,
    pub members: Vec<LabeledInterval>,
}

/// A fatal input error of the interval merger.
#[derive(Clone, Copy, Debug, PartialEq, Eq, Structural)]
pub enum MergeError {
    /// An interval line is short or non-numeric.
    BadLine { line: usize },
    /// An input-list line holds fewer than two tab-separated fields.
    BadListLine { line: usize },
}

/// Three-way byte-lexicographic comparison.
pub open spec fn bytes_cmp_spec(a: Seq<u8>, b: Seq<u8>) -> int
    decreases a.len(),
{
    if a.len() == 0 && b.len() == 0 {
        0
    } else if a.len() == 0 {
        -1
    } else if b.len() == 0 {
        1
    } else if a[0] < b[0] {
        -1
    } else if a[0] > b[0] {
        1
    } else {
        bytes_cmp_spec(a.drop_first(), b.drop_first())
    }
}

/// Compares two byte strings lexicographically.
pub fn bytes_cmp(a: &Vec<u8>, b: &Vec<u8>) -> (r: i8)
    ensures
        r as int == bytes_cmp_spec(a@, b@),
{
    proof {
        assert(a@.skip(0) =~= a@);
        assert(b@.skip(0) =~= b@);
    }
    let mut i: usize = 0;
    while i < a.len() && i < b.len()
        invariant
            0 <= i <= a@.len(),
            i <= b@.len(),
            bytes_cmp_spec(a@, b@) == bytes_cmp_spec(a@.skip(i as int), b@.skip(i as int)),
        decreases a.len() - i,
    {
        proof {
            assert(a@.skip(i as int)[0] == a@[i as int]);
            assert(b@.skip(i as int)[0] == b@[i as int]);
            assert(a@.skip(i as int).drop_first() =~= a@.skip(i as int + 1));
            assert(b@.skip(i as int).drop_first() =~= b@.skip(i as int + 1));
        }
        if a[i] < b[i] {
            return -1;
        }
        if a[i] > b[i] {
            return 1;
        }
        i = i + 1;
    }
    proof {
        assert(a@.skip(i as int).len() == a@.len() - i);
        assert(b@.skip(i as int).len() == b@.len() - i);
    }
    if a.len() == b.len() {
        0
    } else if a.len() < b.len() {
        -1
    } else {
        1
    }
}

/// The ordering the merger sorts intervals by: start, then end, then
/// label, then annotation, each byte-lexicographically.
pub open spec fn interval_le(x: LabeledInterval, y: LabeledInterval) -> bool {
    if x.bgn != y.bgn {
        x.bgn < y.bgn
    } else if x.end != y.end {
        x.end < y.end
    } else if bytes_cmp_spec(x.label@, y.label@) != 0 {
        bytes_cmp_spec(x.label@, y.label@) < 0
    } else {
        bytes_cmp_spec(x.annotation@, y.annotation@) <= 0
    }
}

/// Decides the merger's interval order.
pub fn interval_le_exec(x: &LabeledInterval, y: &LabeledInterval) -> (r: bool)
    ensures
        r == interval_le(*x, *y),
{
    if x.bgn != y.bgn {
        x.bgn < y.bgn
    } else if x.end != y.end {
        x.end < y.end
    } else {
        let c = bytes_cmp(&x.label, &y.label);
        if c != 0 {
            c < 0
        } else {
            bytes_cmp(&x.annotation, &y.annotation) <= 0
        }
    }
}

/// The least position whose interval sorts strictly after `e`, or the
/// length.
pub open spec fn first_gt_iv(s: Seq<LabeledInterval>, e: LabeledInterval) -> int
    decreases s.len(),
{
    if s.len() == 0 {
        0
    } else if !interval_le(s[0], e) {
        0
    } else {
        1 + first_gt_iv(s.drop_first(), e)
    }
}

proof fn lemma_first_gt_iv(s: Seq<LabeledInterval>, e: LabeledInterval)
    ensures
        0 <= first_gt_iv(s, e) <= s.len(),
        first_gt_iv(s, e) < s.len() ==> !interval_le(s[first_gt_iv(s, e)], e),
        forall|j: int| 0 <= j < first_gt_iv(s, e) ==> interval_le(s[j], e),
    decreases s.len(),
{
    if s.len() > 0 && interval_le(s[0], e) {
        lemma_first_gt_iv(s.drop_first(), e);
        assert forall|j: int| 0 <= j < first_gt_iv(s, e) implies interval_le(s[j], e) by {
            if j > 0 {
                assert(s.drop_first()[j - 1] == s[j]);
            }
        }
    }
}

/// One stable insertion step of the interval sort.
pub open spec fn ins_iv(s: Seq<LabeledInterval>, e: LabeledInterval) -> Seq<LabeledInterval> {
    s.insert(first_gt_iv(s, e), e)
}

/// The stable sort of the first `n` intervals.
pub open spec fn sort_iv_upto(s: Seq<LabeledInterval>, n: int) -> Seq<LabeledInterval>
    decreases n,
{
    if n <= 0 {
        Seq::<LabeledInterval>::empty()
    } else {
        ins_iv(sort_iv_upto(s, n - 1), s[n - 1])
    }
}

pub open spec fn sort_iv_spec(s: Seq<LabeledInterval>) -> Seq<LabeledInterval> {
    sort_iv_upto(s, s.len() as int)
}

/// Sorts intervals by start, end, label and annotation, keeping the
/// stable order of full ties.
pub fn sort_intervals(v: Vec<LabeledInterval>) -> (out: Vec<LabeledInterval>)
    ensures
        out@ == sort_iv_spec(v@),
{
    let ghost orig = v@;
    let mut src = v;
    let mut out: Vec<LabeledInterval> = Vec::new();
    let ghost mut n: int = 0;
    while src.len() > 0
        invariant
            0 <= n <= orig.len(),
            src@ =~= orig.skip(n),
            out@ == sort_iv_upto(orig, n),
        decreases src.len(),
    {
        proof {
            assert(src@[0] == orig[n]);
        }
        let e = src.remove(0);
        proof {
            lemma_first_gt_iv(out@, e);
            assert(src@ =~= orig.skip(n + 1));
        }
        let mut j: usize = 0;
        while j < out.len() && interval_le_exec(&out[j], &e)
            invariant
                0 <= j <= out@.len(),
                forall|k: int| 0 <= k < j ==> interval_le(out@[k], e),
                0 <= first_gt_iv(out@, e) <= out@.len(),
                first_gt_iv(out@, e) < out@.len() ==> !interval_le(
                    out@[first_gt_iv(out@, e)],
                    e,
                ),
                forall|k: int| 0 <= k < first_gt_iv(out@, e) ==> interval_le(out@[k], e),
            decreases out.len() - j,
        {
            j = j + 1;
        }
        proof {
            let fg = first_gt_iv(out@, e);
            if fg < j {
                assert(interval_le(out@[fg], e));
            }
            if fg > j {
                assert(interval_le(out@[j as int], e));
            }
            assert(j == fg);
        }
        out.insert(j, e);
        proof {
            n = n + 1;
        }
    }
    proof {
        assert(orig.skip(n).len() == 0);
        assert(n == orig.len());
    }
    out
}

/// The sweep state after the first `n` sorted intervals: the closed
/// groups, and the group still open, if any. A new interval joins the
/// open group when it starts at or before the group's running end, and
/// closes it otherwise.
pub open spec fn sweep_state(s: Seq<LabeledInterval>, n: int) -> (
    Seq<(u32, u32, Seq<LabeledInterval>)>,
    Option<(u32, u32, Seq<LabeledInterval>)>,
)
    decreases n,
{
    if n <= 0 {
        (Seq::<(u32, u32, Seq<LabeledInterval>)>::empty(), None)
    } else {
        let (done, cur) = sweep_state(s, n - 1);
        let iv = s[n - 1];
        match cur {
            None => (done, Some((iv.bgn, iv.end, seq![iv]))),
            Some((b, e, ms)) => {
                if e < iv.bgn {
                    (done.push((b, e, ms)), Some((iv.bgn, iv.end, seq![iv])))
                } else {
                    (
                        done,
                        Some(
                            (
                                b,
                                if iv.end > e {
                                    iv.end
                                } else {
                                    e
                                },
                                ms.push(iv),
                            ),
                        ),
                    )
                }
            },
        }
    }
}

/// The groups the sweep leaves for a sorted interval list.
pub open spec fn sweep_spec(s: Seq<LabeledInterval>) -> Seq<(u32, u32, Seq<LabeledInterval>)> {
    let (done, cur) = sweep_state(s, s.len() as int);
    match cur {
        None => done,
        Some(g) => done.push(g),
    }
}

/// Folds a sorted interval list into its merged groups by one
/// left-to-right sweep.
pub fn group_intervals(sorted: Vec<LabeledInterval>) -> (out: Vec<IntervalGroup>)
    ensures
        out@.len() == sweep_spec(sorted@).len(),
        forall|i: int|
            #![trigger out@[i]]
            0 <= i < out@.len() ==> out@[i].bgn == sweep_spec(sorted@)[i].0 && out@[i].end
                == sweep_spec(sorted@)[i].1 && out@[i].members@ == sweep_spec(sorted@)[i].2,
{
    let ghost orig = sorted@;
    let mut src = sorted;
    let mut done: Vec<IntervalGroup> = Vec::new();
    let mut have: bool = false;
    let mut cb: u32 = 0;
    let mut ce: u32 = 0;
    let mut cm: Vec<LabeledInterval> = Vec::new();
    let ghost mut n: int = 0;
    while src.len() > 0
        invariant
            0 <= n <= orig.len(),
            src@ =~= orig.skip(n),
            ({
                let (sdone, scur) = sweep_state(orig, n);
                &&& done@.len() == sdone.len()
                &&& forall|i: int|
                    #![trigger done@[i]]
                    0 <= i < done@.len() ==> done@[i].bgn == sdone[i].0 && done@[i].end
                        == sdone[i].1 && done@[i].members@ == sdone[i].2
                &&& match scur {
                    None => !have,
                    Some((b, e, ms)) => have && cb == b && ce == e && cm@ == ms,
                }
            }),
        decreases src.len(),
    {
        proof {
            assert(src@[0] == orig[n]);
        }
        let iv = src.remove(0);
        proof {
            assert(src@ =~= orig.skip(n + 1));
        }
        if !have {
            have = true;
            cb = iv.bgn;
            ce = iv.end;
            cm = Vec::new();
            cm.push(iv);
        } else if ce < iv.bgn {
            done.push(IntervalGroup { bgn: cb, end: ce, members: cm });
            cb = iv.bgn;
            ce = iv.end;
            cm = Vec::new();
            cm.push(iv);
        } else {
            if iv.end > ce {
                ce = iv.end;
            }
            cm.push(iv);
        }
        proof {
            n = n + 1;
        }
    }
    proof {
        assert(orig.skip(n).len() == 0);
        assert(n == orig.len());
    }
    if have {
        done.push(IntervalGroup { bgn: cb, end: ce, members: cm });
    }
    done
}

/// How often a label occurs among a group's members.
pub open spec fn count_label(ms: Seq<LabeledInterval>, l: Seq<u8>, n: int) -> int
    decreases n,
{
    if n <= 0 {
        0
    } else {
        count_label(ms, l, n - 1) + if ms[n - 1].label@ == l {
            1int
        } else {
            0int
        }
    }
}

/// The distinct labels among the first `n` members, in order of first
/// appearance.
pub open spec fn labels_upto(ms: Seq<LabeledInterval>, n: int) -> Seq<Seq<u8>>
    decreases n,
{
    if n <= 0 {
        Seq::<Seq<u8>>::empty()
    } else {
        let p = labels_upto(ms, n - 1);
        if !p.contains(ms[n - 1].label@) {
            p.push(ms[n - 1].label@)
        } else {
            p
        }
    }
}

pub open spec fn labels_of(ms: Seq<LabeledInterval>) -> Seq<Seq<u8>> {
    labels_upto(ms, ms.len() as int)
}

/// Counts, per distinct label of a group in order of first appearance,
/// how many member intervals carry it; each label is reported by the
/// position of its first member.
pub fn label_counts(ms: &Vec<LabeledInterval>) -> (out: Vec<(usize, u32)>)
    requires
        ms@.len() <= 0xffff_ffff,
    ensures
        out@.len() == labels_of(ms@).len(),
        forall|i: int|
            #![trigger out@[i]]
            0 <= i < out@.len() ==> out@[i].0 < ms@.len() && ms@[out@[i].0 as int].label@
                == labels_of(ms@)[i] && out@[i].1 == count_label(ms@, labels_of(ms@)[i], ms@.len() as int),
{
    let mut out: Vec<(usize, u32)> = Vec::new();
    let mut n: usize = 0;
    while n < ms.len()
        invariant
            0 <= n <= ms@.len(),
            ms@.len() <= 0xffff_ffff,
            out@.len() == labels_upto(ms@, n as int).len(),
            forall|i: int|
                #![trigger out@[i]]
                0 <= i < out@.len() ==> out@[i].0 < ms@.len() && ms@[out@[i].0 as int].label@
                    == labels_upto(ms@, n as int)[i] && out@[i].1 == count_label(
                    ms@,
                    labels_upto(ms@, n as int)[i],
                    ms@.len() as int,
                ),
        decreases ms.len() - n,
    {
        let ghost p = labels_upto(ms@, n as int);
        let mut seen: bool = false;
        let mut j: usize = 0;
        while j < out.len() && !seen
            invariant
                0 <= j <= out@.len(),
                n < ms@.len(),
                out@.len() == p.len(),
                p == labels_upto(ms@, n as int),
                forall|i: int|
                    #![trigger out@[i]]
                    0 <= i < out@.len() ==> out@[i].0 < ms@.len() && ms@[out@[i].0 as int].label@
                        == p[i],
                !seen ==> forall|i: int| 0 <= i < j ==> p[i] != ms@[n as int].label@,
                seen ==> p.contains(ms@[n as int].label@),
            decreases out.len() - j + if seen { 0int } else { 1int },
        {
            if bytes_cmp(&ms[out[j].0].label, &ms[n].label) == 0 {
                proof {
                    lemma_bytes_cmp_eq(ms@[out@[j as int].0 as int].label@, ms@[n as int].label@);
                    assert(p[j as int] == ms@[n as int].label@);
                }
                seen = true;
            } else {
                proof {
                    lemma_bytes_cmp_eq(ms@[out@[j as int].0 as int].label@, ms@[n as int].label@);
                }
                j = j + 1;
            }
        }
        proof {
            if !seen {
                assert forall|i: int| 0 <= i < p.len() implies p[i] != ms@[n as int].label@ by {}
                assert(!p.contains(ms@[n as int].label@));
            }
        }
        if !seen {
            let mut cnt: u32 = 0;
            let mut k: usize = 0;
            while k < ms.len()
                invariant
                    0 <= k <= ms@.len(),
                    ms@.len() <= 0xffff_ffff,
                    n < ms@.len(),
                    cnt == count_label(ms@, ms@[n as int].label@, k as int),
                    cnt <= k,
                decreases ms.len() - k,
            {
                if bytes_cmp(&ms[k].label, &ms[n].label) == 0 {
                    proof {
                        lemma_bytes_cmp_eq(ms@[k as int].label@, ms@[n as int].label@);
                    }
                    cnt = cnt + 1;
                } else {
                    proof {
                        lemma_bytes_cmp_eq(ms@[k as int].label@, ms@[n as int].label@);
                    }
                }
                k = k + 1;
            }
            out.push((n, cnt));
        }
        n = n + 1;
    }
    out
}

/// Byte-string comparison reads zero exactly on equal strings.
proof fn lemma_bytes_cmp_eq(a: Seq<u8>, b: Seq<u8>)
    ensures
        (bytes_cmp_spec(a, b) == 0) == (a == b),
    decreases a.len(),
{
    if a.len() > 0 && b.len() > 0 && a[0] == b[0] {
        lemma_bytes_cmp_eq(a.drop_first(), b.drop_first());
        if a.drop_first() == b.drop_first() {
            assert forall|i: int| 0 <= i < a.len() implies a[i] == b[i] by {
                if i > 0 {
                    assert(a.drop_first()[i - 1] == b.drop_first()[i - 1]);
                }
            }
            assert(a =~= b);
        }
        if a == b {
            assert(a.drop_first() =~= b.drop_first());
        }
    } else if a.len() == 0 && b.len() == 0 {
        assert(a =~= b);
    }
}

/// How one interval line reads: `Ok(None)` for a comment,
/// `Ok(Some(name, start, end, annotation))` for a well-formed record,
/// `Err` for anything else, a blank line included.
pub open spec fn svcnd_line_spec(s: Seq<u8>) -> Result<Option<(Seq<u8>, u32, u32, Seq<u8>)>, ()> {
    if s.len() > 0 && s[0] == 35 {
        Ok(None)
    } else {
        let t1 = find_byte(s, 0, s.len() as int, 9);
        if t1 >= s.len() {
            Err(())
        } else {
            let t2 = find_byte(s, t1 + 1, s.len() as int, 9);
            if t2 >= s.len() {
                Err(())
            } else {
                let t3 = find_byte(s, t2 + 1, s.len() as int, 9);
                if t3 >= s.len() {
                    Err(())
                } else {
                    let t4 = find_byte(s, t3 + 1, s.len() as int, 9);
                    match (parse_u32_spec(s.subrange(t1 + 1, t2)), parse_u32_spec(
                        s.subrange(t2 + 1, t3),
                    )) {
                        (Some(v1), Some(v2)) => Ok(
                            Some((s.subrange(0, t1), v1, v2, s.subrange(t3 + 1, t4))),
                        ),
                        _ => Err(()),
                    }
                }
            }
        }
    }
}

/// What one file's lines denote: its records in line order, or the
/// error of the first bad line.
pub open spec fn svcnd_from(ls: Seq<Seq<u8>>, i: int) -> Result<
    Seq<(Seq<u8>, u32, u32, Seq<u8>)>,
    MergeError,
>
    decreases ls.len() - i,
{
    if i < 0 || i >= ls.len() {
        Ok(Seq::<(Seq<u8>, u32, u32, Seq<u8>)>::empty())
    } else {
        match svcnd_line_spec(ls[i]) {
            Err(_) => Err(MergeError::BadLine { line: i as usize }),
            Ok(opt) => match svcnd_from(ls, i + 1) {
                Err(e) => Err(e),
                Ok(rest) => Ok(
                    match opt {
                        Some(x) => seq![x] + rest,
                        None => rest,
                    },
                ),
            },
        }
    }
}

pub open spec fn svcnd_spec(ls: Seq<String>) -> Result<Seq<(Seq<u8>, u32, u32, Seq<u8>)>, MergeError> {
    svcnd_from(ls.map_values(|l: String| vstd::utf8::encode_utf8(l@)), 0)
}

/// Parses one input file, given as its lines: `#` lines are skipped,
/// every other line must read as `name<TAB>start<TAB>end<TAB>annotation`;
/// the first bad line aborts with its index.
pub fn parse_svcnd_lines(lines: &Vec<String>) -> (r: Result<
    Vec<(Vec<u8>, u32, u32, Vec<u8>)>,
    MergeError,
>)
    ensures
        match svcnd_spec(lines@) {
            Ok(es) => r is Ok && r.unwrap()@.len() == es.len() && forall|i: int|
                #![trigger r.unwrap()@[i]]
                0 <= i < es.len() ==> r.unwrap()@[i].0@ == es[i].0 && r.unwrap()@[i].1 == es[i].1
                    && r.unwrap()@[i].2 == es[i].2 && r.unwrap()@[i].3@ == es[i].3,
            Err(e) => r == Err::<Vec<(Vec<u8>, u32, u32, Vec<u8>)>, MergeError>(e),
        },
{
    let ghost lb = lines@.map_values(|l: String| vstd::utf8::encode_utf8(l@));
    let mut out: Vec<(Vec<u8>, u32, u32, Vec<u8>)> = Vec::new();
    let mut i: usize = 0;
    while i < lines.len()
        invariant
            0 <= i <= lines@.len(),
            lb == lines@.map_values(|l: String| vstd::utf8::encode_utf8(l@)),
            lb.len() == lines@.len(),
            ({
                let full = svcnd_from(lb, 0);
                let rest = svcnd_from(lb, i as int);
                match rest {
                    Err(e) => full == Err::<Seq<(Seq<u8>, u32, u32, Seq<u8>)>, MergeError>(e),
                    Ok(tail) => full is Ok && full.unwrap().len() == out@.len() + tail.len() && (
                    forall|k: int|
                        #![trigger out@[k]]
                        0 <= k < out@.len() ==> full.unwrap()[k].0 == out@[k].0@
                            && full.unwrap()[k].1 == out@[k].1 && full.unwrap()[k].2 == out@[k].2
                            && full.unwrap()[k].3 == out@[k].3@) && (forall|k: int|
                        0 <= k < tail.len() ==> full.unwrap()[out@.len() + k] == tail[k]),
                }
            }),
        decreases lines.len() - i,
    {
        proof {
            assert(lb[i as int] == vstd::utf8::encode_utf8(lines@[i as int]@));
        }
        let lbytes = lines[i].as_str().as_bytes();
        proof {
            assert(lbytes@ == lb[i as int]);
        }
        let ghost old_len = out@.len();
        match parse_svcnd_line(lbytes) {
            Err(()) => {
                proof {
                    assert(svcnd_from(lb, i as int) == Err::<
                        Seq<(Seq<u8>, u32, u32, Seq<u8>)>,
                        MergeError,
                    >(MergeError::BadLine { line: i as usize }));
                }
                return Err(MergeError::BadLine { line: i });
            },
            Ok(None) => {
                proof {
                    assert(svcnd_from(lb, i as int) == svcnd_from(lb, i as int + 1));
                }
            },
            Ok(Some(e)) => {
                out.push(e);
                proof {
                    let sp = svcnd_line_spec(lb[i as int]).unwrap().unwrap();
                    match svcnd_from(lb, i as int + 1) {
                        Err(er) => {
                            assert(svcnd_from(lb, i as int) == Err::<
                                Seq<(Seq<u8>, u32, u32, Seq<u8>)>,
                                MergeError,
                            >(er));
                        },
                        Ok(rest2) => {
                            let tail_old = seq![sp] + rest2;
                            assert(svcnd_from(lb, i as int) == Ok::<_, MergeError>(tail_old));
                            let full = svcnd_from(lb, 0);
                            assert(tail_old[0] == sp);
                            assert(full.unwrap()[old_len as int] == sp);
                            assert forall|k: int| 0 <= k < rest2.len() implies full.unwrap()[out@.len()
                                + k] == rest2[k] by {
                                assert(tail_old[k + 1] == rest2[k]);
                                assert(full.unwrap()[old_len + (k + 1)] == tail_old[k + 1]);
                            }
                        },
                    }
                }
            },
        }
        i = i + 1;
    }
    Ok(out)
}

/// How one input-list line reads: the line is trimmed and must hold a
/// label and a path separated by a tab; further fields are ignored.
pub open spec fn list_line_spec(s: Seq<u8>) -> Result<(Seq<u8>, Seq<u8>), ()> {
    let a = crate::parse::first_non_space(s, 0);
    let b = crate::parse::trim_end_idx(s, s.len() as int);
    if a >= b {
        Err(())
    } else {
        let t1 = find_byte(s, a, b, 9);
        if t1 >= b {
            Err(())
        } else {
            let t2 = find_byte(s, t1 + 1, b, 9);
            Ok((s.subrange(a, t1), s.subrange(t1 + 1, t2)))
        }
    }
}

/// Parses one line of the input list into its label and path bytes.
pub fn parse_list_line(line: &[u8]) -> (r: Result<(Vec<u8>, Vec<u8>), ()>)
    ensures
        (r is Err) == (list_line_spec(line@) is Err),
        r is Ok ==> {
            let e = r.unwrap();
            let sp = list_line_spec(line@).unwrap();
            e.0@ == sp.0 && e.1@ == sp.1
        },
{
    let n = line.len();
    let mut a: usize = 0;
    while a < n && is_space_exec(line[a])
        invariant
            0 <= a <= n,
            n == line@.len(),
            crate::parse::first_non_space(line@, 0) == crate::parse::first_non_space(
                line@,
                a as int,
            ),
        decreases n - a,
    {
        a = a + 1;
    }
    let mut b: usize = n;
    while b > 0 && is_space_exec(line[b - 1])
        invariant
            0 <= b <= n,
            n == line@.len(),
            crate::parse::trim_end_idx(line@, n as int) == crate::parse::trim_end_idx(
                line@,
                b as int,
            ),
        decreases b,
    {
        b = b - 1;
    }
    if a >= b {
        return Err(());
    }
    let t1 = find_byte_exec(line, a, b, 9);
    if t1 >= b {
        return Err(());
    }
    let t2 = find_byte_exec(line, t1 + 1, b, 9);
    let label = copy_bytes(line, a, t1);
    let path = copy_bytes(line, t1 + 1, t2);
    Ok((label, path))
}

/// Tests a byte for ASCII whitespace.
fn is_space_exec(c: u8) -> (r: bool)
    ensures
        r == crate::parse::is_space(c),
{
    c == 32 || (9 <= c && c <= 13)
}

/// What the input list denotes: one (label, path) pair per line, or
/// the error of the first bad line.
pub open spec fn list_from(ls: Seq<Seq<u8>>, i: int) -> Result<Seq<(Seq<u8>, Seq<u8>)>, MergeError>
    decreases ls.len() - i,
{
    if i < 0 || i >= ls.len() {
        Ok(Seq::<(Seq<u8>, Seq<u8>)>::empty())
    } else {
        match list_line_spec(ls[i]) {
            Err(_) => Err(MergeError::BadListLine { line: i as usize }),
            Ok(p) => match list_from(ls, i + 1) {
                Err(e) => Err(e),
                Ok(rest) => Ok(seq![p] + rest),
            },
        }
    }
}

pub open spec fn list_spec(ls: Seq<String>) -> Result<Seq<(Seq<u8>, Seq<u8>)>, MergeError> {
    list_from(ls.map_values(|l: String| vstd::utf8::encode_utf8(l@)), 0)
}

/// Parses the input list, given as its lines: each line binds a label
/// to an input path; a line without both fields aborts with its index.
pub fn parse_file_list(lines: &Vec<String>) -> (r: Result<Vec<(Vec<u8>, Vec<u8>)>, MergeError>)
    ensures
        match list_spec(lines@) {
            Ok(es) => r is Ok && r.unwrap()@.len() == es.len() && forall|i: int|
                #![trigger r.unwrap()@[i]]
                0 <= i < es.len() ==> r.unwrap()@[i].0@ == es[i].0 && r.unwrap()@[i].1@
                    == es[i].1,
            Err(e) => r == Err::<Vec<(Vec<u8>, Vec<u8>)>, MergeError>(e),
        },
{
    let ghost lb = lines@.map_values(|l: String| vstd::utf8::encode_utf8(l@));
    let mut out: Vec<(Vec<u8>, Vec<u8>)> = Vec::new();
    let mut i: usize = 0;
    while i < lines.len()
        invariant
            0 <= i <= lines@.len(),
            lb == lines@.map_values(|l: String| vstd::utf8::encode_utf8(l@)),
            lb.len() == lines@.len(),
            ({
                let full = list_from(lb, 0);
                let rest = list_from(lb, i as int);
                match rest {
                    Err(e) => full == Err::<Seq<(Seq<u8>, Seq<u8>)>, MergeError>(e),
                    Ok(tail) => full is Ok && full.unwrap().len() == out@.len() + tail.len() && (
                    forall|k: int|
                        #![trigger out@[k]]
                        0 <= k < out@.len() ==> full.unwrap()[k].0 == out@[k].0@
                            && full.unwrap()[k].1 == out@[k].1@) && (forall|k: int|
                        0 <= k < tail.len() ==> full.unwrap()[out@.len() + k] == tail[k]),
                }
            }),
        decreases lines.len() - i,
    {
        proof {
            assert(lb[i as int] == vstd::utf8::encode_utf8(lines@[i as int]@));
        }
        let lbytes = lines[i].as_str().as_bytes();
        proof {
            assert(lbytes@ == lb[i as int]);
        }
        let ghost old_len = out@.len();
        match parse_list_line(lbytes) {
            Err(()) => {
                proof {
                    assert(list_from(lb, i as int) == Err::<Seq<(Seq<u8>, Seq<u8>)>, MergeError>(
                        MergeError::BadListLine { line: i as usize },
                    ));
                }
                return Err(MergeError::BadListLine { line: i });
            },
            Ok(p) => {
                out.push(p);
                proof {
                    let sp = list_line_spec(lb[i as int]).unwrap();
                    match list_from(lb, i as int + 1) {
                        Err(er) => {
                            assert(list_from(lb, i as int) == Err::<
                                Seq<(Seq<u8>, Seq<u8>)>,
                                MergeError,
                            >(er));
                        },
                        Ok(rest2) => {
                            let tail_old = seq![sp] + rest2;
                            assert(list_from(lb, i as int) == Ok::<_, MergeError>(tail_old));
                            let full = list_from(lb, 0);
                            assert(tail_old[0] == sp);
                            assert(full.unwrap()[old_len as int] == sp);
                            assert forall|k: int| 0 <= k < rest2.len() implies full.unwrap()[out@.len()
                                + k] == rest2[k] by {
                                assert(tail_old[k + 1] == rest2[k]);
                                assert(full.unwrap()[old_len + (k + 1)] == tail_old[k + 1]);
                            }
                        },
                    }
                }
            },
        }
        i = i + 1;
    }
    Ok(out)
}

/// One reference sequence's intervals, gathered across the input sets.
#[derive(Debug)]
pub struct ChrBucket {
    pub chr: Vec<u8>,
    pub intervals: Vec<LabeledInterval>,
}

/// The first bucket holding `chr`, or the length.
pub open spec fn bucket_pos(bs: Seq<(Seq<u8>, Seq<LabeledInterval>)>, chr: Seq<u8>) -> int
    decreases bs.len(),
{
    if bs.len() == 0 {
        0
    } else if bs[0].0 == chr {
        0
    } else {
        1 + bucket_pos(bs.drop_first(), chr)
    }
}

proof fn lemma_bucket_pos(bs: Seq<(Seq<u8>, Seq<LabeledInterval>)>, chr: Seq<u8>)
    ensures
        0 <= bucket_pos(bs, chr) <= bs.len(),
        bucket_pos(bs, chr) < bs.len() ==> bs[bucket_pos(bs, chr)].0 == chr,
        forall|j: int| 0 <= j < bucket_pos(bs, chr) ==> bs[j].0 != chr,
    decreases bs.len(),
{
    if bs.len() > 0 && bs[0].0 != chr {
        lemma_bucket_pos(bs.drop_first(), chr);
        assert forall|j: int| 0 <= j < bucket_pos(bs, chr) implies bs[j].0 != chr by {
            if j > 0 {
                assert(bs.drop_first()[j - 1] == bs[j]);
            }
        }
    }
}

/// The buckets after the first `n` (name, interval) pairs: each pair
/// joins its name's bucket, names appearing in first-seen order.
pub open spec fn buckets_upto(items: Seq<(Vec<u8>, LabeledInterval)>, n: int) -> Seq<
    (Seq<u8>, Seq<LabeledInterval>),
>
    decreases n,
{
    if n <= 0 {
        Seq::<(Seq<u8>, Seq<LabeledInterval>)>::empty()
    } else {
        let p = buckets_upto(items, n - 1);
        let (chr, iv) = items[n - 1];
        let idx = bucket_pos(p, chr@);
        if idx < p.len() {
            p.update(idx, (p[idx].0, p[idx].1.push(iv)))
        } else {
            p.push((chr@, seq![iv]))
        }
    }
}

pub open spec fn buckets_spec(items: Seq<(Vec<u8>, LabeledInterval)>) -> Seq<
    (Seq<u8>, Seq<LabeledInterval>),
> {
    buckets_upto(items, items.len() as int)
}

/// Gathers (name, interval) pairs into per-name buckets, names kept in
/// order of first appearance, each bucket's intervals in input order.
pub fn bucket_by_chr(items: Vec<(Vec<u8>, LabeledInterval)>) -> (out: Vec<ChrBucket>)
    ensures
        out@.len() == buckets_spec(items@).len(),
        forall|i: int|
            #![trigger out@[i]]
            0 <= i < out@.len() ==> out@[i].chr@ == buckets_spec(items@)[i].0
                && out@[i].intervals@ == buckets_spec(items@)[i].1,
{
    let ghost orig = items@;
    let mut src = items;
    let mut out: Vec<ChrBucket> = Vec::new();
    let ghost mut n: int = 0;
    while src.len() > 0
        invariant
            0 <= n <= orig.len(),
            src@ =~= orig.skip(n),
            out@.len() == buckets_upto(orig, n).len(),
            forall|i: int|
                #![trigger out@[i]]
                0 <= i < out@.len() ==> out@[i].chr@ == buckets_upto(orig, n)[i].0
                    && out@[i].intervals@ == buckets_upto(orig, n)[i].1,
        decreases src.len(),
    {
        proof {
            assert(src@[0] == orig[n]);
        }
        let (chr, iv) = src.remove(0);
        proof {
            assert(src@ =~= orig.skip(n + 1));
            lemma_bucket_pos(buckets_upto(orig, n), chr@);
        }
        let ghost p = buckets_upto(orig, n);
        let mut found: bool = false;
        let mut idx: usize = 0;
        while idx < out.len() && !found
            invariant
                0 <= idx <= out@.len(),
                out@.len() == p.len(),
                forall|i: int|
                    #![trigger out@[i]]
                    0 <= i < out@.len() ==> out@[i].chr@ == p[i].0,
                !found ==> forall|j: int| 0 <= j < idx ==> p[j].0 != chr@,
                found ==> idx < out@.len() && p[idx as int].0 == chr@ && idx == bucket_pos(p, chr@),
                0 <= bucket_pos(p, chr@) <= p.len(),
                bucket_pos(p, chr@) < p.len() ==> p[bucket_pos(p, chr@)].0 == chr@,
                forall|j: int| 0 <= j < bucket_pos(p, chr@) ==> p[j].0 != chr@,
            decreases out.len() - idx + if found { 0int } else { 1int },
        {
            if bytes_cmp(&out[idx].chr, &chr) == 0 {
                proof {
                    lemma_bytes_cmp_eq(out@[idx as int].chr@, chr@);
                    let bp = bucket_pos(p, chr@);
                    if bp < idx {
                        assert(p[bp].0 != chr@);
                    }
                    if bp > idx {
                        assert(p[idx as int].0 != chr@);
                    }
                }
                found = true;
            } else {
                proof {
                    lemma_bytes_cmp_eq(out@[idx as int].chr@, chr@);
                }
                idx = idx + 1;
            }
        }
        if found {
            out[idx].intervals.push(iv);
        } else {
            proof {
                assert(bucket_pos(p, chr@) == p.len());
            }
            let mut ivs: Vec<LabeledInterval> = Vec::new();
            ivs.push(iv);
            out.push(ChrBucket { chr, intervals: ivs });
        }
        proof {
            n = n + 1;
        }
    }
    proof {
        assert(orig.skip(n).len() == 0);
    }
    out
}

/// The least position whose bucket name sorts strictly after `chr`, or
/// the length.
pub open spec fn first_gt_chr(s: Seq<ChrBucket>, chr: Seq<u8>) -> int
    decreases s.len(),
{
    if s.len() == 0 {
        0
    } else if bytes_cmp_spec(s[0].chr@, chr) > 0 {
        0
    } else {
        1 + first_gt_chr(s.drop_first(), chr)
    }
}

proof fn lemma_first_gt_chr(s: Seq<ChrBucket>, chr: Seq<u8>)
    ensures
        0 <= first_gt_chr(s, chr) <= s.len(),
        first_gt_chr(s, chr) < s.len() ==> bytes_cmp_spec(s[first_gt_chr(s, chr)].chr@, chr) > 0,
        forall|j: int| 0 <= j < first_gt_chr(s, chr) ==> bytes_cmp_spec(s[j].chr@, chr) <= 0,
    decreases s.len(),
{
    if s.len() > 0 && !(bytes_cmp_spec(s[0].chr@, chr) > 0) {
        lemma_first_gt_chr(s.drop_first(), chr);
        assert forall|j: int| 0 <= j < first_gt_chr(s, chr) implies bytes_cmp_spec(s[j].chr@, chr)
            <= 0 by {
            if j > 0 {
                assert(s.drop_first()[j - 1] == s[j]);
            }
        }
    }
}

/// One stable insertion step of the bucket sort by name.
pub open spec fn ins_chr(s: Seq<ChrBucket>, b: ChrBucket) -> Seq<ChrBucket> {
    s.insert(first_gt_chr(s, b.chr@), b)
}

/// The stable sort of the first `n` buckets by name.
pub open spec fn sort_chr_upto(s: Seq<ChrBucket>, n: int) -> Seq<ChrBucket>
    decreases n,
{
    if n <= 0 {
        Seq::<ChrBucket>::empty()
    } else {
        ins_chr(sort_chr_upto(s, n - 1), s[n - 1])
    }
}

pub open spec fn sort_chr_spec(s: Seq<ChrBucket>) -> Seq<ChrBucket> {
    sort_chr_upto(s, s.len() as int)
}

/// Sorts the buckets byte-lexicographically by name, so that output
/// order never depends on how the buckets were gathered.
pub fn sort_buckets(v: Vec<ChrBucket>) -> (out: Vec<ChrBucket>)
    ensures
        out@ == sort_chr_spec(v@),
{
    let ghost orig = v@;
    let mut src = v;
    let mut out: Vec<ChrBucket> = Vec::new();
    let ghost mut n: int = 0;
    while src.len() > 0
        invariant
            0 <= n <= orig.len(),
            src@ =~= orig.skip(n),
            out@ == sort_chr_upto(orig, n),
        decreases src.len(),
    {
        proof {
            assert(src@[0] == orig[n]);
        }
        let b = src.remove(0);
        proof {
            assert(src@ =~= orig.skip(n + 1));
            lemma_first_gt_chr(out@, b.chr@);
        }
        let mut j: usize = 0;
        while j < out.len() && bytes_cmp(&out[j].chr, &b.chr) <= 0
            invariant
                0 <= j <= out@.len(),
                forall|k: int| 0 <= k < j ==> bytes_cmp_spec(out@[k].chr@, b.chr@) <= 0,
                0 <= first_gt_chr(out@, b.chr@) <= out@.len(),
                first_gt_chr(out@, b.chr@) < out@.len() ==> bytes_cmp_spec(
                    out@[first_gt_chr(out@, b.chr@)].chr@,
                    b.chr@,
                ) > 0,
                forall|k: int| 0 <= k < first_gt_chr(out@, b.chr@) ==> bytes_cmp_spec(
                    out@[k].chr@,
                    b.chr@,
                ) <= 0,
            decreases out.len() - j,
        {
            j = j + 1;
        }
        proof {
            let fg = first_gt_chr(out@, b.chr@);
            if fg < j {
                assert(bytes_cmp_spec(out@[fg].chr@, b.chr@) <= 0);
            }
            if fg > j {
                assert(bytes_cmp_spec(out@[j as int].chr@, b.chr@) <= 0);
            }
            assert(j == fg);
        }
        out.insert(j, b);
        proof {
            n = n + 1;
        }
    }
    proof {
        assert(orig.skip(n).len() == 0);
    }
    out
}

/// Copies the bytes `[from, to)` of a line.
fn copy_bytes(line: &[u8], from: usize, to: usize) -> (out: Vec<u8>)
    requires
        from <= to <= line@.len(),
    ensures
        out@ == line@.subrange(from as int, to as int),
{
    let mut out: Vec<u8> = Vec::new();
    let mut k: usize = from;
    while k < to
        invariant
            from <= k <= to <= line@.len(),
            out@ =~= line@.subrange(from as int, k as int),
        decreases to - k,
    {
        out.push(line[k]);
        proof {
            assert(out@ =~= line@.subrange(from as int, k + 1));
        }
        k = k + 1;
    }
    proof {
        assert(out@ =~= line@.subrange(from as int, to as int));
    }
    out
}

/// Parses one interval line into name, coordinates and annotation.
pub fn parse_svcnd_line(line: &[u8]) -> (r: Result<Option<(Vec<u8>, u32, u32, Vec<u8>)>, ()>)
    ensures
        (r is Err) == (svcnd_line_spec(line@) is Err),
        r is Ok ==> ((r.unwrap() is Some) == (svcnd_line_spec(line@).unwrap() is Some)),
        (r is Ok && r.unwrap() is Some) ==> {
            let e = r.unwrap().unwrap();
            let sp = svcnd_line_spec(line@).unwrap().unwrap();
            e.0@ == sp.0 && e.1 == sp.1 && e.2 == sp.2 && e.3@ == sp.3
        },
{
    let n = line.len();
    if n > 0 && line[0] == 35 {
        return Ok(None);
    }
    let t1 = find_byte_exec(line, 0, n, 9);
    if t1 >= n {
        return Err(());
    }
    let t2 = find_byte_exec(line, t1 + 1, n, 9);
    if t2 >= n {
        return Err(());
    }
    let t3 = find_byte_exec(line, t2 + 1, n, 9);
    if t3 >= n {
        return Err(());
    }
    let t4 = find_byte_exec(line, t3 + 1, n, 9);
    let v1 = parse_u32_bytes(line, t1 + 1, t2);
    let v2 = parse_u32_bytes(line, t2 + 1, t3);
    match (v1, v2) {
        (Some(v1), Some(v2)) => {
            let name = copy_bytes(line, 0, t1);
            let annotation = copy_bytes(line, t3 + 1, t4);
            Ok(Some((name, v1, v2, annotation)))
        },
        _ => Err(()),
    }
}

} // verus!
