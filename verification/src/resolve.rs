//! Primary-assignment resolution: per query contig, the target covered by
//! the most aligned query bases becomes the query's primary target; the
//! record set is then partitioned into primary and alternate records.
//!
//! Every choice is made in a stable, explicit order (first appearance in
//! the record list, earliest winner on ties), so the assignment is a pure
//! function of the input and identical runs agree.

use vstd::prelude::*;
use vstd::pervasive::VecAdditionalExecFns;
use crate::records::AlnRecord;

verus! {

/// Whether a record contributes coverage to the (query, target) tally:
/// query-duplicate records are left out.
pub open spec fn cov_counts(r: AlnRecord, q: Seq<char>, t: Seq<char>) -> bool {
    !r.q_dup && r.q_name@ == q && r.t_name@ == t
}

/// The aligned query bases a record spans.
pub open spec fn span_of(r: AlnRecord) -> int {
    r.qe - r.qs
}

/// Coverage accumulated by the first `n` records for a (query, target)
/// pair.
pub open spec fn coverage_upto(s: Seq<AlnRecord>, q: Seq<char>, t: Seq<char>, n: int) -> int
    decreases n,
{
    if n <= 0 {
        0
    } else {
        coverage_upto(s, q, t, n - 1) + if cov_counts(s[n - 1], q, t) {
            span_of(s[n - 1])
        } else {
            0
        }
    }
}

/// Total aligned query bases of `q` against `t` over the whole record
/// list.
pub open spec fn coverage(s: Seq<AlnRecord>, q: Seq<char>, t: Seq<char>) -> int {
    coverage_upto(s, q, t, s.len() as int)
}

/// The distinct query names of the first `n` non-query-duplicate records,
/// in order of first appearance.
pub open spec fn queries_upto(s: Seq<AlnRecord>, n: int) -> Seq<Seq<char>>
    decreases n,
{
    if n <= 0 {
        Seq::<Seq<char>>::empty()
    } else {
        let p = queries_upto(s, n - 1);
        if !s[n - 1].q_dup && !p.contains(s[n - 1].q_name@) {
            p.push(s[n - 1].q_name@)
        } else {
            p
        }
    }
}

pub open spec fn queries_of(s: Seq<AlnRecord>) -> Seq<Seq<char>> {
    queries_upto(s, s.len() as int)
}

/// The distinct target names that query `q` aligns to within the first
/// `n` non-query-duplicate records, in order of first appearance.
pub open spec fn targets_upto(s: Seq<AlnRecord>, q: Seq<char>, n: int) -> Seq<Seq<char>>
    decreases n,
{
    if n <= 0 {
        Seq::<Seq<char>>::empty()
    } else {
        let p = targets_upto(s, q, n - 1);
        if !s[n - 1].q_dup && s[n - 1].q_name@ == q && !p.contains(s[n - 1].t_name@) {
            p.push(s[n - 1].t_name@)
        } else {
            p
        }
    }
}

pub open spec fn targets_of(s: Seq<AlnRecord>, q: Seq<char>) -> Seq<Seq<char>> {
    targets_upto(s, q, s.len() as int)
}

/// Among the first `k` candidate targets, the earliest one of maximal
/// coverage: a later candidate replaces the running winner only when its
/// coverage is strictly greater.
pub open spec fn argmax_upto(s: Seq<AlnRecord>, q: Seq<char>, ts: Seq<Seq<char>>, k: int) -> Seq<
    char,
>
    decreases k,
{
    if k <= 1 {
        ts[0]
    } else {
        let p = argmax_upto(s, q, ts, k - 1);
        if coverage(s, q, ts[k - 1]) > coverage(s, q, p) {
            ts[k - 1]
        } else {
            p
        }
    }
}

/// The primary target of query `q`: the earliest maximal-coverage target
/// among the targets `q` aligns to, or `None` if `q` never appears in a
/// non-query-duplicate record.
pub open spec fn primary_of(s: Seq<AlnRecord>, q: Seq<char>) -> Option<Seq<char>> {
    if queries_of(s).contains(q) {
        Some(argmax_upto(s, q, targets_of(s, q), targets_of(s, q).len() as int))
    } else {
        None
    }
}

/// A record is primary exactly when its query's primary target is the
/// record's own target; every other record is alternate.
pub open spec fn is_primary(s: Seq<AlnRecord>, r: AlnRecord) -> bool {
    primary_of(s, r.q_name@) == Some(r.t_name@)
}

/// All records have `qs <= qe` (established by input validation).
pub open spec fn valid_spans(s: Seq<AlnRecord>) -> bool {
    forall|j: int| 0 <= j < s.len() ==> s[j].qs <= s[j].qe
}

proof fn lemma_queries_upto_witness(s: Seq<AlnRecord>, n: int, q: Seq<char>)
    requires
        queries_upto(s, n).contains(q),
    ensures
        exists|j: int| 0 <= j < n && !s[j].q_dup && s[j].q_name@ == q,
    decreases n,
{
    if n > 0 {
        if !s[n - 1].q_dup && s[n - 1].q_name@ == q {
        } else if queries_upto(s, n - 1).contains(q) {
            lemma_queries_upto_witness(s, n - 1, q);
        } else {
            assert(queries_upto(s, n) == queries_upto(s, n - 1) || queries_upto(s, n)
                == queries_upto(s, n - 1).push(s[n - 1].q_name@));
        }
    }
}

proof fn lemma_targets_upto_nonempty(s: Seq<AlnRecord>, q: Seq<char>, j: int, n: int)
    requires
        0 <= j < n,
        !s[j].q_dup,
        s[j].q_name@ == q,
    ensures
        targets_upto(s, q, n).len() >= 1,
    decreases n,
{
    if n - 1 > j {
        lemma_targets_upto_nonempty(s, q, j, n - 1);
    } else {
        if targets_upto(s, q, j).contains(s[j].t_name@) {
        }
    }
}

/// If a query is listed, it aligns to at least one target.
pub proof fn lemma_query_has_target(s: Seq<AlnRecord>, q: Seq<char>)
    requires
        queries_of(s).contains(q),
    ensures
        targets_of(s, q).len() >= 1,
{
    lemma_queries_upto_witness(s, s.len() as int, q);
    let j = choose|j: int| 0 <= j < s.len() && !s[j].q_dup && s[j].q_name@ == q;
    lemma_targets_upto_nonempty(s, q, j, s.len() as int);
}

/// Whether some element of `v` has the same text as `name`.
pub fn contains_name(v: &Vec<String>, name: &String) -> (b: bool)
    ensures
        b == exists|j: int| 0 <= j < v@.len() && v@[j]@ == name@,
{
    let mut i: usize = 0;
    while i < v.len()
        invariant
            0 <= i <= v.len(),
            forall|j: int| 0 <= j < i ==> v@[j]@ != name@,
        decreases v.len() - i,
    {
        if v[i] == *name {
            return true;
        }
        i = i + 1;
    }
    false
}

/// Lists the distinct query names of the non-query-duplicate records, in
/// order of first appearance.
pub fn distinct_queries(records: &Vec<AlnRecord>) -> (out: Vec<String>)
    ensures
        out@.len() == queries_of(records@).len(),
        forall|i: int| 0 <= i < out@.len() ==> out@[i]@ == queries_of(records@)[i],
{
    let mut out: Vec<String> = Vec::new();
    let mut i: usize = 0;
    while i < records.len()
        invariant
            0 <= i <= records.len(),
            out@.len() == queries_upto(records@, i as int).len(),
            forall|j: int| 0 <= j < out@.len() ==> out@[j]@ == queries_upto(records@, i as int)[j],
        decreases records.len() - i,
    {
        let ghost p = queries_upto(records@, i as int);
        let seen = contains_name(&out, &records[i].q_name);
        proof {
            if seen {
                let j = choose|j: int| 0 <= j < out@.len() && out@[j]@ == records@[i as int].q_name@;
                assert(p[j] == records@[i as int].q_name@);
            } else {
                assert forall|k: int| 0 <= k < p.len() implies p[k] != records@[i as int].q_name@ by {
                    assert(out@[k]@ == p[k]);
                }
            }
            assert(seen == p.contains(records@[i as int].q_name@));
        }
        if !records[i].q_dup && !seen {
            out.push(records[i].q_name.clone());
        }
        i = i + 1;
    }
    out
}

/// Lists the distinct targets the given query aligns to, in order of
/// first appearance.
pub fn distinct_targets_for(records: &Vec<AlnRecord>, q: &String) -> (out: Vec<String>)
    ensures
        out@.len() == targets_of(records@, q@).len(),
        forall|i: int| 0 <= i < out@.len() ==> out@[i]@ == targets_of(records@, q@)[i],
{
    let mut out: Vec<String> = Vec::new();
    let mut i: usize = 0;
    while i < records.len()
        invariant
            0 <= i <= records.len(),
            out@.len() == targets_upto(records@, q@, i as int).len(),
            forall|j: int| 0 <= j < out@.len() ==> out@[j]@ == targets_upto(
                records@,
                q@,
                i as int,
            )[j],
        decreases records.len() - i,
    {
        let ghost p = targets_upto(records@, q@, i as int);
        let seen = contains_name(&out, &records[i].t_name);
        proof {
            if seen {
                let j = choose|j: int| 0 <= j < out@.len() && out@[j]@ == records@[i as int].t_name@;
                assert(p[j] == records@[i as int].t_name@);
            } else {
                assert forall|k: int| 0 <= k < p.len() implies p[k] != records@[i as int].t_name@ by {
                    assert(out@[k]@ == p[k]);
                }
            }
            assert(seen == p.contains(records@[i as int].t_name@));
        }
        if !records[i].q_dup && records[i].q_name == *q && !seen {
            out.push(records[i].t_name.clone());
        }
        i = i + 1;
    }
    out
}

/// Sums the aligned query bases of `q` against `t` over the whole record
/// list.
pub fn coverage_for(records: &Vec<AlnRecord>, q: &String, t: &String) -> (c: u64)
    requires
        valid_spans(records@),
        records@.len() <= 0xffff_ffff,
    ensures
        c == coverage(records@, q@, t@),
{
    let mut c: u64 = 0;
    let mut i: usize = 0;
    while i < records.len()
        invariant
            0 <= i <= records.len(),
            records@.len() <= 0xffff_ffff,
            valid_spans(records@),
            c == coverage_upto(records@, q@, t@, i as int),
            c <= i * 0xffff_ffff,
        decreases records.len() - i,
    {
        let r = &records[i];
        if !r.q_dup && r.q_name == *q && r.t_name == *t {
            c = c + (r.qe - r.qs) as u64;
        }
        i = i + 1;
    }
    c
}

/// Picks, from the non-empty candidate list, the earliest target of
/// maximal coverage for `q`.
pub fn primary_target_for(records: &Vec<AlnRecord>, q: &String, targets: &Vec<String>) -> (best:
    String)
    requires
        valid_spans(records@),
        records@.len() <= 0xffff_ffff,
        targets@.len() >= 1,
        forall|i: int| 0 <= i < targets@.len() ==> targets@[i]@ == targets_of(records@, q@)[i],
        targets@.len() == targets_of(records@, q@).len(),
    ensures
        best@ == argmax_upto(records@, q@, targets_of(records@, q@), targets_of(
            records@,
            q@,
        ).len() as int),
{
    let mut best: String = targets[0].clone();
    let mut best_cov: u64 = coverage_for(records, q, &targets[0]);
    let mut k: usize = 1;
    while k < targets.len()
        invariant
            1 <= k <= targets@.len(),
            valid_spans(records@),
            records@.len() <= 0xffff_ffff,
            targets@.len() == targets_of(records@, q@).len(),
            forall|i: int| 0 <= i < targets@.len() ==> targets@[i]@ == targets_of(records@, q@)[i],
            best@ == argmax_upto(records@, q@, targets_of(records@, q@), k as int),
            best_cov == coverage(records@, q@, best@),
        decreases targets.len() - k,
    {
        let c = coverage_for(records, q, &targets[k]);
        if c > best_cov {
            best = targets[k].clone();
            best_cov = c;
        }
        k = k + 1;
    }
    best
}

/// The shape of a correct primary map: one entry per listed query, in
/// first-appearance order, each carrying that query's primary target.
pub open spec fn map_is_primary_map(m: Seq<(String, String)>, s: Seq<AlnRecord>) -> bool {
    &&& m.len() == queries_of(s).len()
    &&& forall|i: int|
        #![trigger m[i]]
        0 <= i < m.len() ==> m[i].0@ == queries_of(s)[i] && primary_of(s, m[i].0@) == Some(
            m[i].1@,
        )
}

/// Builds the query-to-primary-target map, walking queries in order of
/// first appearance.
pub fn primary_map(records: &Vec<AlnRecord>) -> (m: Vec<(String, String)>)
    requires
        valid_spans(records@),
        records@.len() <= 0xffff_ffff,
    ensures
        map_is_primary_map(m@, records@),
{
    let queries = distinct_queries(records);
    let mut m: Vec<(String, String)> = Vec::new();
    let mut i: usize = 0;
    while i < queries.len()
        invariant
            0 <= i <= queries@.len(),
            valid_spans(records@),
            records@.len() <= 0xffff_ffff,
            queries@.len() == queries_of(records@).len(),
            forall|j: int| 0 <= j < queries@.len() ==> queries@[j]@ == queries_of(records@)[j],
            m@.len() == i,
            forall|j: int|
                0 <= j < i ==> m@[j].0@ == queries_of(records@)[j] && primary_of(records@, m@[j].0@)
                    == Some(m@[j].1@),
        decreases queries.len() - i,
    {
        let q = &queries[i];
        proof {
            assert(queries_of(records@)[i as int] == q@);
            lemma_query_has_target(records@, q@);
        }
        let targets = distinct_targets_for(records, q);
        let best = primary_target_for(records, q, &targets);
        proof {
            assert(queries_of(records@).contains(q@)) by {
                assert(queries_of(records@)[i as int] == q@);
            }
            assert(primary_of(records@, q@) == Some(best@));
        }
        m.push((q.clone(), best));
        i = i + 1;
    }
    m
}

/// The inverse primary map: for each listed query in first-appearance
/// order, its primary target is bound to that query, later writers
/// replacing earlier ones. If several queries share a primary target,
/// only the last one in the stable order survives.
pub open spec fn inverse_upto(m: Seq<(String, String)>, n: int) -> Seq<(String, String)>
    decreases n,
{
    if n <= 0 {
        Seq::<(String, String)>::empty()
    } else {
        let p = inverse_upto(m, n - 1);
        let i = first_key_index(p, m[n - 1].1@);
        if 0 <= i < p.len() {
            p.update(i, (m[n - 1].1, m[n - 1].0))
        } else {
            p.push((m[n - 1].1, m[n - 1].0))
        }
    }
}

/// The least index whose entry key reads `k`, or the length if none
/// does.
pub open spec fn first_key_index(p: Seq<(String, String)>, k: Seq<char>) -> int
    decreases p.len(),
{
    if p.len() == 0 {
        0
    } else if p[0].0@ == k {
        0
    } else {
        1 + first_key_index(p.drop_first(), k)
    }
}

proof fn lemma_first_key_index(p: Seq<(String, String)>, k: Seq<char>)
    ensures
        0 <= first_key_index(p, k) <= p.len(),
        first_key_index(p, k) < p.len() ==> p[first_key_index(p, k)].0@ == k,
        forall|j: int| 0 <= j < first_key_index(p, k) ==> p[j].0@ != k,
    decreases p.len(),
{
    if p.len() > 0 && p[0].0@ != k {
        lemma_first_key_index(p.drop_first(), k);
        assert forall|j: int| 0 <= j < first_key_index(p, k) implies p[j].0@ != k by {
            if j > 0 {
                assert(p.drop_first()[j - 1] == p[j]);
            }
        }
    }
}

/// Finds the least entry whose key reads as `k`.
fn find_key_pos(v: &Vec<(String, String)>, k: &String) -> (r: Option<usize>)
    ensures
        match r {
            Some(i) => i == first_key_index(v@, k@) && i < v@.len(),
            None => first_key_index(v@, k@) == v@.len(),
        },
{
    proof {
        lemma_first_key_index(v@, k@);
    }
    let mut i: usize = 0;
    while i < v.len()
        invariant
            0 <= i <= v@.len(),
            forall|j: int| 0 <= j < i ==> v@[j].0@ != k@,
            0 <= first_key_index(v@, k@) <= v@.len(),
            first_key_index(v@, k@) < v@.len() ==> v@[first_key_index(v@, k@)].0@ == k@,
            forall|j: int| 0 <= j < first_key_index(v@, k@) ==> v@[j].0@ != k@,
        decreases v.len() - i,
    {
        if v[i].0 == *k {
            proof {
                let fki = first_key_index(v@, k@);
                if fki < i {
                    assert(v@[fki].0@ != k@);
                }
                if fki > i {
                    assert(v@[i as int].0@ != k@);
                }
            }
            return Some(i);
        }
        i = i + 1;
    }
    None
}

/// Builds the target-to-query inverse of the primary map, later queries
/// overwriting earlier ones that share a primary target.
pub fn inverse_primary_map(m: &Vec<(String, String)>) -> (inv: Vec<(String, String)>)
    ensures
        inv@ == inverse_upto(m@, m@.len() as int),
{
    let mut inv: Vec<(String, String)> = Vec::new();
    let mut n: usize = 0;
    while n < m.len()
        invariant
            0 <= n <= m@.len(),
            inv@ == inverse_upto(m@, n as int),
        decreases m.len() - n,
    {
        match find_key_pos(&inv, &m[n].1) {
            Some(i) => {
                inv.set(i, (m[n].1.clone(), m[n].0.clone()));
            },
            None => {
                inv.push((m[n].1.clone(), m[n].0.clone()));
            },
        }
        n = n + 1;
    }
    inv
}

/// Decides whether a record is primary, by looking its query up in the
/// primary map.
pub fn record_is_primary(m: &Vec<(String, String)>, records: &Vec<AlnRecord>, r: &AlnRecord) -> (b:
    bool)
    requires
        map_is_primary_map(m@, records@),
    ensures
        b == is_primary(records@, *r),
{
    let mut i: usize = 0;
    while i < m.len()
        invariant
            0 <= i <= m@.len(),
            map_is_primary_map(m@, records@),
            forall|j: int| 0 <= j < i ==> m@[j].0@ != r.q_name@,
        decreases m.len() - i,
    {
        if m[i].0 == r.q_name {
            proof {
                assert(m@[i as int].0@ == queries_of(records@)[i as int] && primary_of(
                    records@,
                    m@[i as int].0@,
                ) == Some(m@[i as int].1@));
            }
            return m[i].1 == r.t_name;
        }
        i = i + 1;
    }
    proof {
        if queries_of(records@).contains(r.q_name@) {
            let j = choose|j: int|
                0 <= j < queries_of(records@).len() && queries_of(records@)[j] == r.q_name@;
            assert(m@[j].0@ == r.q_name@);
        }
    }
    false
}

/// The primary target recorded for a query name, if the query is listed.
pub fn primary_lookup(m: &Vec<(String, String)>, records: &Vec<AlnRecord>, q: &String) -> (r:
    Option<String>)
    requires
        map_is_primary_map(m@, records@),
    ensures
        match r {
            Some(t) => primary_of(records@, q@) == Some(t@),
            None => primary_of(records@, q@) is None,
        },
{
    let mut i: usize = 0;
    while i < m.len()
        invariant
            0 <= i <= m@.len(),
            map_is_primary_map(m@, records@),
            forall|j: int| 0 <= j < i ==> m@[j].0@ != q@,
        decreases m.len() - i,
    {
        if m[i].0 == *q {
            proof {
                assert(m@[i as int].0@ == queries_of(records@)[i as int] && primary_of(
                    records@,
                    m@[i as int].0@,
                ) == Some(m@[i as int].1@));
            }
            return Some(m[i].1.clone());
        }
        i = i + 1;
    }
    proof {
        if queries_of(records@).contains(q@) {
            let j = choose|j: int|
                0 <= j < queries_of(records@).len() && queries_of(records@)[j] == q@;
            assert(m@[j].0@ == q@);
        }
    }
    None
}

/// The primary records of the first `n` records that belong to target
/// `t`, in input order.
pub open spec fn primary_for_upto(s: Seq<AlnRecord>, t: Seq<char>, n: int) -> Seq<AlnRecord>
    decreases n,
{
    if n <= 0 {
        Seq::<AlnRecord>::empty()
    } else {
        let p = primary_for_upto(s, t, n - 1);
        if is_primary(s, s[n - 1]) && s[n - 1].t_name@ == t {
            p.push(s[n - 1])
        } else {
            p
        }
    }
}

pub open spec fn primary_for(s: Seq<AlnRecord>, t: Seq<char>) -> Seq<AlnRecord> {
    primary_for_upto(s, t, s.len() as int)
}

/// The alternate records of the first `n` records that lie on target
/// `t`, in input order.
pub open spec fn alt_for_target_upto(s: Seq<AlnRecord>, t: Seq<char>, n: int) -> Seq<AlnRecord>
    decreases n,
{
    if n <= 0 {
        Seq::<AlnRecord>::empty()
    } else {
        let p = alt_for_target_upto(s, t, n - 1);
        if !is_primary(s, s[n - 1]) && s[n - 1].t_name@ == t {
            p.push(s[n - 1])
        } else {
            p
        }
    }
}

pub open spec fn alt_for_target(s: Seq<AlnRecord>, t: Seq<char>) -> Seq<AlnRecord> {
    alt_for_target_upto(s, t, s.len() as int)
}

/// The alternate records of the first `n` records that belong to query
/// `q`, in input order.
pub open spec fn alt_for_query_upto(s: Seq<AlnRecord>, q: Seq<char>, n: int) -> Seq<AlnRecord>
    decreases n,
{
    if n <= 0 {
        Seq::<AlnRecord>::empty()
    } else {
        let p = alt_for_query_upto(s, q, n - 1);
        if !is_primary(s, s[n - 1]) && s[n - 1].q_name@ == q {
            p.push(s[n - 1])
        } else {
            p
        }
    }
}

pub open spec fn alt_for_query(s: Seq<AlnRecord>, q: Seq<char>) -> Seq<AlnRecord> {
    alt_for_query_upto(s, q, s.len() as int)
}

/// Collects the primary records of target `t`, in input order.
pub fn primary_records_for(
    records: &Vec<AlnRecord>,
    m: &Vec<(String, String)>,
    t: &String,
) -> (out: Vec<AlnRecord>)
    requires
        map_is_primary_map(m@, records@),
    ensures
        out@ == primary_for(records@, t@),
{
    let mut out: Vec<AlnRecord> = Vec::new();
    let mut i: usize = 0;
    while i < records.len()
        invariant
            0 <= i <= records.len(),
            map_is_primary_map(m@, records@),
            out@ == primary_for_upto(records@, t@, i as int),
        decreases records.len() - i,
    {
        let r = &records[i];
        if record_is_primary(m, records, r) && r.t_name == *t {
            out.push(r.duplicate());
        }
        i = i + 1;
    }
    out
}

/// Collects the alternate records lying on target `t`, in input order.
pub fn alt_records_for_target(
    records: &Vec<AlnRecord>,
    m: &Vec<(String, String)>,
    t: &String,
) -> (out: Vec<AlnRecord>)
    requires
        map_is_primary_map(m@, records@),
    ensures
        out@ == alt_for_target(records@, t@),
{
    let mut out: Vec<AlnRecord> = Vec::new();
    let mut i: usize = 0;
    while i < records.len()
        invariant
            0 <= i <= records.len(),
            map_is_primary_map(m@, records@),
            out@ == alt_for_target_upto(records@, t@, i as int),
        decreases records.len() - i,
    {
        let r = &records[i];
        if !record_is_primary(m, records, r) && r.t_name == *t {
            out.push(r.duplicate());
        }
        i = i + 1;
    }
    out
}

/// Collects the alternate records of query `q`, in input order.
pub fn alt_records_for_query(
    records: &Vec<AlnRecord>,
    m: &Vec<(String, String)>,
    q: &String,
) -> (out: Vec<AlnRecord>)
    requires
        map_is_primary_map(m@, records@),
    ensures
        out@ == alt_for_query(records@, q@),
{
    let mut out: Vec<AlnRecord> = Vec::new();
    let mut i: usize = 0;
    while i < records.len()
        invariant
            0 <= i <= records.len(),
            map_is_primary_map(m@, records@),
            out@ == alt_for_query_upto(records@, q@, i as int),
        decreases records.len() - i,
    {
        let r = &records[i];
        if !record_is_primary(m, records, r) && r.q_name == *q {
            out.push(r.duplicate());
        }
        i = i + 1;
    }
    out
}

} // verus!
