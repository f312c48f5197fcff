//! Parsing of the tab-separated highlight file: each line names a target
//! and an interval; blank lines and lines starting with `#` are ignored;
//! anything else that does not read as `name<TAB>start<TAB>end` is a
//! fatal input error.

use vstd::prelude::*;
use crate::records::{HighlightEntry, PlotError};

verus! {

/// ASCII whitespace, as trimmed from both ends of a line.
pub open spec fn is_space(b: u8) -> bool {
    b == 32 || (9 <= b <= 13)
}

/// An ASCII decimal digit.
pub open spec fn is_digit(b: u8) -> bool {
    48 <= b <= 57
}

/// The first position in `[from, to)` holding byte `b`, or `to`.
pub open spec fn find_byte(s: Seq<u8>, from: int, to: int, b: u8) -> int
    decreases to - from,
{
    if from < 0 || from >= to {
        to
    } else if s[from] == b {
        from
    } else {
        find_byte(s, from + 1, to, b)
    }
}

/// The first position at or after `from` holding a non-space byte, or
/// the length.
pub open spec fn first_non_space(s: Seq<u8>, from: int) -> int
    decreases s.len() - from,
{
    if from < 0 || from >= s.len() {
        s.len() as int
    } else if is_space(s[from]) {
        first_non_space(s, from + 1)
    } else {
        from
    }
}

/// One past the last non-space byte strictly before `j`, or zero.
pub open spec fn trim_end_idx(s: Seq<u8>, j: int) -> int
    decreases j,
{
    if j <= 0 {
        0
    } else if is_space(s[j - 1]) {
        trim_end_idx(s, j - 1)
    } else {
        j
    }
}

pub open spec fn all_digits(s: Seq<u8>) -> bool {
    forall|i: int| 0 <= i < s.len() ==> is_digit(s[i])
}

/// The decimal value a digit string denotes.
pub open spec fn digits_val(s: Seq<u8>) -> int
    decreases s.len(),
{
    if s.len() == 0 {
        0
    } else {
        digits_val(s.drop_last()) * 10 + (s.last() - 48)
    }
}

proof fn lemma_digits_val_nonneg(s: Seq<u8>)
    requires
        all_digits(s),
    ensures
        digits_val(s) >= 0,
    decreases s.len(),
{
    if s.len() > 0 {
        assert(all_digits(s.drop_last())) by {
            assert(forall|i: int|
                0 <= i < s.drop_last().len() ==> s.drop_last()[i] == s[i]);
        }
        lemma_digits_val_nonneg(s.drop_last());
    }
}

proof fn lemma_digits_val_prefix(s: Seq<u8>, k: int)
    requires
        all_digits(s),
        0 <= k <= s.len(),
    ensures
        digits_val(s) >= digits_val(s.take(k)),
    decreases s.len() - k,
{
    if k < s.len() {
        lemma_digits_val_prefix(s, k + 1);
        assert(s.take(k + 1).drop_last() =~= s.take(k));
        assert(all_digits(s.take(k))) by {
            assert(forall|i: int| 0 <= i < k ==> s.take(k)[i] == s[i]);
        }
        lemma_digits_val_nonneg(s.take(k));
        assert(digits_val(s.take(k + 1)) == digits_val(s.take(k)) * 10 + (s[k] - 48));
    } else {
        assert(s.take(k) =~= s);
    }
}

/// How a decimal field reads: a non-empty run of digits whose value
/// fits in 32 bits; anything else is no number.
pub open spec fn parse_u32_spec(s: Seq<u8>) -> Option<u32> {
    if s.len() > 0 && all_digits(s) && digits_val(s) <= 0xffff_ffff {
        Some(digits_val(s) as u32)
    } else {
        None
    }
}

/// Parses the bytes `[start, end)` of a line as a decimal field.
pub(crate) fn parse_u32_bytes(line: &[u8], start: usize, end: usize) -> (r: Option<u32>)
    requires
        start <= end <= line@.len(),
    ensures
        r == parse_u32_spec(line@.subrange(start as int, end as int)),
{
    let ghost sub = line@.subrange(start as int, end as int);
    if start == end {
        return None;
    }
    let mut acc: u64 = 0;
    let mut i: usize = start;
    while i < end
        invariant
            start <= i <= end <= line@.len(),
            sub == line@.subrange(start as int, end as int),
            start < end,
            forall|j: int| start <= j < i ==> is_digit(line@[j]),
            acc == digits_val(sub.take(i - start)),
            acc <= 0xffff_ffff,
        decreases end - i,
    {
        let b = line[i];
        if !(48 <= b && b <= 57) {
            proof {
                assert(sub[i - start] == line@[i as int]);
                assert(!all_digits(sub));
            }
            return None;
        }
        proof {
            assert(sub.take(i + 1 - start).drop_last() =~= sub.take(i - start));
            assert(sub.take(i + 1 - start).last() == line@[i as int]);
        }
        acc = acc * 10 + (b - 48) as u64;
        if acc > 0xffff_ffff {
            proof {
                if all_digits(sub) {
                    lemma_digits_val_prefix(sub, i + 1 - start);
                }
            }
            return None;
        }
        i = i + 1;
    }
    proof {
        assert(sub.take(end - start) =~= sub);
        assert(all_digits(sub)) by {
            assert(forall|j: int| 0 <= j < sub.len() ==> sub[j] == line@[start + j]);
        }
    }
    Some(acc as u32)
}

/// How one line reads: `Ok(None)` for a blank or comment line,
/// `Ok(Some(name, start, end))` for a well-formed highlight, `Err` for
/// anything else.
pub open spec fn parse_line_spec(s: Seq<u8>) -> Result<Option<(Seq<u8>, u32, u32)>, ()> {
    let a = first_non_space(s, 0);
    let b = trim_end_idx(s, s.len() as int);
    if a >= b {
        Ok(None)
    } else if s[a] == 35 {
        Ok(None)
    } else {
        let t1 = find_byte(s, a, b, 9);
        if t1 >= b {
            Err(())
        } else {
            let t2 = find_byte(s, t1 + 1, b, 9);
            if t2 >= b {
                Err(())
            } else {
                let t3 = find_byte(s, t2 + 1, b, 9);
                match (parse_u32_spec(s.subrange(t1 + 1, t2)), parse_u32_spec(
                    s.subrange(t2 + 1, t3),
                )) {
                    (Some(v1), Some(v2)) => Ok(Some((s.subrange(a, t1), v1, v2))),
                    _ => Err(()),
                }
            }
        }
    }
}

/// Finds the first occurrence of `b` in `[from, to)` of the line.
pub(crate) fn find_byte_exec(line: &[u8], from: usize, to: usize, b: u8) -> (r: usize)
    requires
        from <= to <= line@.len(),
    ensures
        r == find_byte(line@, from as int, to as int, b),
        from <= r <= to,
        r < to ==> line@[r as int] == b,
{
    let mut i: usize = from;
    while i < to
        invariant
            from <= i <= to <= line@.len(),
            find_byte(line@, from as int, to as int, b) == find_byte(line@, i as int, to as int, b),
        decreases to - i,
    {
        if line[i] == b {
            return i;
        }
        i = i + 1;
    }
    to
}

/// Tests a byte for ASCII whitespace.
fn is_space_byte(c: u8) -> (r: bool)
    ensures
        r == is_space(c),
{
    c == 32 || (9 <= c && c <= 13)
}

/// Parses one highlight line.
fn parse_bed_line(line: &[u8]) -> (r: Result<Option<HighlightEntry>, ()>)
    ensures
        (r is Err) == (parse_line_spec(line@) is Err),
        r is Ok ==> ((r.unwrap() is Some) == (parse_line_spec(line@).unwrap() is Some)),
        (r is Ok && r.unwrap() is Some) ==> {
            let e = r.unwrap().unwrap();
            let sp = parse_line_spec(line@).unwrap().unwrap();
            e.name@ == sp.0 && e.bgn == sp.1 && e.end == sp.2
        },
{
    let n = line.len();
    let mut a: usize = 0;
    while a < n && is_space_byte(line[a])
        invariant
            0 <= a <= n,
            n == line@.len(),
            first_non_space(line@, 0) == first_non_space(line@, a as int),
        decreases n - a,
    {
        a = a + 1;
    }
    let mut b: usize = n;
    while b > 0 && is_space_byte(line[b - 1])
        invariant
            0 <= b <= n,
            n == line@.len(),
            trim_end_idx(line@, n as int) == trim_end_idx(line@, b as int),
        decreases b,
    {
        b = b - 1;
    }
    if a >= b {
        return Ok(None);
    }
    if line[a] == 35 {
        return Ok(None);
    }
    let t1 = find_byte_exec(line, a, b, 9);
    if t1 >= b {
        return Err(());
    }
    let t2 = find_byte_exec(line, t1 + 1, b, 9);
    if t2 >= b {
        return Err(());
    }
    let t3 = find_byte_exec(line, t2 + 1, b, 9);
    let v1 = parse_u32_bytes(line, t1 + 1, t2);
    let v2 = parse_u32_bytes(line, t2 + 1, t3);
    match (v1, v2) {
        (Some(v1), Some(v2)) => {
            let mut name: Vec<u8> = Vec::new();
            let mut k: usize = a;
            while k < t1
                invariant
                    a <= k <= t1 <= line@.len(),
                    name@ =~= line@.subrange(a as int, k as int),
                decreases t1 - k,
            {
                name.push(line[k]);
                proof {
                    assert(name@ =~= line@.subrange(a as int, k + 1));
                }
                k = k + 1;
            }
            Ok(Some(HighlightEntry { name, bgn: v1, end: v2 }))
        },
        _ => Err(()),
    }
}

/// The entries the lines starting at index `i` contribute, or the error
/// of the first bad line.
pub open spec fn bed_from(ls: Seq<Seq<u8>>, i: int) -> Result<Seq<(Seq<u8>, u32, u32)>, PlotError>
    decreases ls.len() - i,
{
    if i < 0 || i >= ls.len() {
        Ok(Seq::<(Seq<u8>, u32, u32)>::empty())
    } else {
        match parse_line_spec(ls[i]) {
            Err(_) => Err(PlotError::BadHighlightLine { line: i as usize }),
            Ok(opt) => match bed_from(ls, i + 1) {
                Err(e) => Err(e),
                Ok(rest) => Ok(
                    match opt {
                        Some(x) => seq![x] + rest,
                        None => rest,
                    },
                ),
            },
        }
    }
}

/// The bytes each line of the highlight file holds.
pub open spec fn lines_bytes(ls: Seq<String>) -> Seq<Seq<u8>> {
    ls.map_values(|l: String| vstd::utf8::encode_utf8(l@))
}

/// What the whole file denotes: its entries in line order, or the error
/// of the first bad line.
pub open spec fn bed_spec(ls: Seq<String>) -> Result<Seq<(Seq<u8>, u32, u32)>, PlotError> {
    bed_from(lines_bytes(ls), 0)
}

/// Parses the highlight file, given as its lines: blank and `#` lines
/// are skipped, every other line must read as `name<TAB>start<TAB>end`
/// with decimal coordinates; the first bad line aborts with its index.
pub fn parse_bed(lines: &Vec<String>) -> (r: Result<Vec<HighlightEntry>, PlotError>)
    ensures
        match bed_spec(lines@) {
            Ok(es) => r is Ok && r.unwrap()@.len() == es.len() && forall|i: int|
                #![trigger r.unwrap()@[i]]
                0 <= i < es.len() ==> r.unwrap()@[i].name@ == es[i].0 && r.unwrap()@[i].bgn
                    == es[i].1 && r.unwrap()@[i].end == es[i].2,
            Err(e) => r == Err::<Vec<HighlightEntry>, PlotError>(e),
        },
{
    let ghost lb = lines_bytes(lines@);
    let mut out: Vec<HighlightEntry> = Vec::new();
    let mut i: usize = 0;
    while i < lines.len()
        invariant
            0 <= i <= lines@.len(),
            lb == lines_bytes(lines@),
            lb.len() == lines@.len(),
            ({
                let full = bed_from(lb, 0);
                let rest = bed_from(lb, i as int);
                match rest {
                    Err(e) => full == Err::<Seq<(Seq<u8>, u32, u32)>, PlotError>(e),
                    Ok(tail) => full is Ok && full.unwrap().len() == out@.len() + tail.len()
                        && (forall|k: int|
                        #![trigger out@[k]]
                        0 <= k < out@.len() ==> full.unwrap()[k].0 == out@[k].name@
                            && full.unwrap()[k].1 == out@[k].bgn && full.unwrap()[k].2
                            == out@[k].end) && (forall|k: int|
                        0 <= k < tail.len() ==> full.unwrap()[out@.len() + k] == tail[k]),
                }
            }),
        decreases lines.len() - i,
    {
        proof {
            assert(lb[i as int] == vstd::utf8::encode_utf8(lines@[i as int]@));
        }
        let line_str = &lines[i];
        let lbytes = line_str.as_str().as_bytes();
        proof {
            assert(lbytes@ == lb[i as int]);
        }
        let ghost old_len = out@.len();
        match parse_bed_line(lbytes) {
            Err(()) => {
                proof {
                    assert(parse_line_spec(lb[i as int]) is Err);
                    assert(bed_from(lb, i as int) == Err::<Seq<(Seq<u8>, u32, u32)>, PlotError>(
                        PlotError::BadHighlightLine { line: i as usize },
                    ));
                }
                return Err(PlotError::BadHighlightLine { line: i });
            },
            Ok(None) => {
                proof {
                    assert(parse_line_spec(lb[i as int]).unwrap() is None);
                    assert(bed_from(lb, i as int) == bed_from(lb, i as int + 1));
                }
            },
            Ok(Some(e)) => {
                out.push(e);
                proof {
                    let sp = parse_line_spec(lb[i as int]).unwrap().unwrap();
                    assert(e.name@ == sp.0 && e.bgn == sp.1 && e.end == sp.2);
                    match bed_from(lb, i as int + 1) {
                        Err(er) => {
                            assert(bed_from(lb, i as int) == Err::<
                                Seq<(Seq<u8>, u32, u32)>,
                                PlotError,
                            >(er));
                        },
                        Ok(rest2) => {
                            let tail_old = seq![sp] + rest2;
                            assert(bed_from(lb, i as int) == Ok::<_, PlotError>(tail_old));
                            let full = bed_from(lb, 0);
                            assert(tail_old[0] == sp);
                            assert(full.unwrap()[old_len as int] == sp);
                            assert forall|k: int| 0 <= k < rest2.len() implies full.unwrap()[out@.len()
                                + k] == rest2[k] by {
                                assert(tail_old[k + 1] == rest2[k]);
                                assert(full.unwrap()[old_len + (k + 1)] == tail_old[k + 1]);
                            }
                        },
                    }
                }
            },
        }
        i = i + 1;
    }
    Ok(out)
}

} // verus!
