//! Input data model: alignment records, sequence-length tables, optional
//! annotations, and the input-validation pass.

use vstd::prelude::*;

verus! {

/// One pairwise contig-to-reference alignment, as parsed from the record
/// file. Coordinates are half-open unsigned base positions; `orientation`
/// is the alignment strand and `ctg_orientation` the contig's overall
/// strand relative to its primary target (both 0 or 1, independent).
#[derive(Debug)]
pub struct AlnRecord {
    pub t_name: String,
    pub ts: u32,
    pub te: u32,
    pub q_name: String,
    pub qs: u32,
    pub qe: u32,
    pub ctg_len: u32,
    pub orientation: u32,
    pub ctg_orientation: u32,
    pub t_dup: bool,
    pub t_ovlp: bool,
    pub q_dup: bool,
    pub q_ovlp: bool,
}

impl AlnRecord {
    /// An explicit copy whose result is known equal to the original.
    pub fn duplicate(&self) -> (r: AlnRecord)
        ensures
            r == *self,
    {
        AlnRecord {
            t_name: self.t_name.clone(),
            ts: self.ts,
            te: self.te,
            q_name: self.q_name.clone(),
            qs: self.qs,
            qe: self.qe,
            ctg_len: self.ctg_len,
            orientation: self.orientation,
            ctg_orientation: self.ctg_orientation,
            t_dup: self.t_dup,
            t_ovlp: self.t_ovlp,
            q_dup: self.q_dup,
            q_ovlp: self.q_ovlp,
        }
    }
}

/// One row of a sequence-length table: ordinal id, unique name, length.
#[derive(Debug)]
pub struct SeqLenEntry {
    pub id: u32,
    pub name: String,
    pub len: u32,
}

impl SeqLenEntry {
    /// An explicit copy whose result is known equal to the original.
    pub fn duplicate(&self) -> (r: SeqLenEntry)
        ensures
            r == *self,
    {
        SeqLenEntry { id: self.id, name: self.name.clone(), len: self.len }
    }
}

/// The full parsed input: the record list plus the target and query
/// sequence-length tables.
#[derive(Debug)]
pub struct CtgMapSet {
    pub records: Vec<AlnRecord>,
    pub target_length: Vec<SeqLenEntry>,
    pub query_length: Vec<SeqLenEntry>,
}

/// One cytoband row for a target: interval, band name, stain class.
#[derive(Debug)]
pub struct CytoBandRec {
    pub bgn: u32,
    pub end: u32,
    pub name: String,
    pub stain: String,
}

impl CytoBandRec {
    /// An explicit copy whose result is known equal to the original.
    pub fn duplicate(&self) -> (r: CytoBandRec)
        ensures
            r == *self,
    {
        CytoBandRec {
            bgn: self.bgn,
            end: self.end,
            name: self.name.clone(),
            stain: self.stain.clone(),
        }
    }
}

/// One parsed highlight interval: the raw bytes of the target name it
/// annotates, and the interval itself.
#[derive(Debug)]
pub struct HighlightEntry {
    pub name: Vec<u8>,
    pub bgn: u32,
    pub end: u32,
}

/// A fatal input error; the run aborts with no partial output.
#[derive(Clone, Copy, Debug, PartialEq, Eq, Structural)]
pub enum PlotError {
    /// A record's target name is absent from the target-length table.
    MissingTargetLength { record: usize },
    /// A record's query name is absent from the query-length table.
    MissingQueryLength { record: usize },
    /// A record violates `start <= end` on one axis, or its query
    /// interval overruns the query's table length.
    BadRecordInterval { record: usize },
    /// A highlight line is blank-separated, short, or non-numeric.
    BadHighlightLine { line: usize },
    /// The layout does not fit on the shared axis.
    TooLarge,
}

/// The length recorded for `name`, taken from the first table row that
/// carries that name (names are unique keys in well-formed input).
pub open spec fn table_lookup(table: Seq<SeqLenEntry>, name: Seq<char>) -> Option<u32>
    decreases table.len(),
{
    if table.len() == 0 {
        None
    } else if table[0].name@ == name {
        Some(table[0].len)
    } else {
        table_lookup(table.drop_first(), name)
    }
}

pub proof fn lemma_table_lookup_at(table: Seq<SeqLenEntry>, name: Seq<char>, i: int)
    requires
        0 <= i < table.len(),
        forall|j: int| 0 <= j < i ==> table[j].name@ != name,
        table[i].name@ == name,
    ensures
        table_lookup(table, name) == Some(table[i].len),
    decreases i,
{
    if i > 0 {
        lemma_table_lookup_at(table.drop_first(), name, i - 1);
    }
}

pub proof fn lemma_table_lookup_none(table: Seq<SeqLenEntry>, name: Seq<char>)
    requires
        forall|j: int| 0 <= j < table.len() ==> table[j].name@ != name,
    ensures
        table_lookup(table, name) is None,
    decreases table.len(),
{
    if table.len() > 0 {
        lemma_table_lookup_none(table.drop_first(), name);
    }
}

/// Looks a name up in a length table, returning the first row's length.
pub fn lookup_len(table: &Vec<SeqLenEntry>, name: &String) -> (r: Option<u32>)
    ensures
        r == table_lookup(table@, name@),
{
    let mut i: usize = 0;
    while i < table.len()
        invariant
            0 <= i <= table.len(),
            forall|j: int| 0 <= j < i ==> table@[j].name@ != name@,
        decreases table.len() - i,
    {
        if table[i].name == *name {
            proof {
                lemma_table_lookup_at(table@, name@, i as int);
            }
            return Some(table[i].len);
        }
        i = i + 1;
    }
    proof {
        lemma_table_lookup_none(table@, name@);
    }
    None
}

/// A record is well formed against the two tables when both of its names
/// are present, both intervals satisfy `start <= end`, and its query
/// interval lies inside the query's recorded length.
pub open spec fn record_ok(r: AlnRecord, tt: Seq<SeqLenEntry>, qt: Seq<SeqLenEntry>) -> bool {
    &&& table_lookup(tt, r.t_name@) is Some
    &&& table_lookup(qt, r.q_name@) is Some
    &&& r.ts <= r.te
    &&& r.qs <= r.qe
    &&& r.qe <= table_lookup(qt, r.q_name@).unwrap()
}

/// The query-side facts that projection relies on: every record's query
/// has a recorded length, and the record's query interval is ordered and
/// lies inside it.
pub open spec fn records_q_ok(s: Seq<AlnRecord>, qt: Seq<SeqLenEntry>) -> bool {
    forall|k: int|
        #![trigger s[k]]
        0 <= k < s.len() ==> table_lookup(qt, s[k].q_name@) is Some && s[k].qs <= s[k].qe
            && s[k].qe <= table_lookup(qt, s[k].q_name@).unwrap()
}

/// The error reported for a single bad record, or `None` if it is fine.
/// Name errors are reported before interval errors.
pub open spec fn record_error(r: AlnRecord, tt: Seq<SeqLenEntry>, qt: Seq<SeqLenEntry>, i: int) -> Option<
    PlotError,
> {
    if table_lookup(tt, r.t_name@) is None {
        Some(PlotError::MissingTargetLength { record: i as usize })
    } else if table_lookup(qt, r.q_name@) is None {
        Some(PlotError::MissingQueryLength { record: i as usize })
    } else if !(r.ts <= r.te && r.qs <= r.qe && r.qe <= table_lookup(qt, r.q_name@).unwrap()) {
        Some(PlotError::BadRecordInterval { record: i as usize })
    } else {
        None
    }
}

/// The validation verdict for the records starting at index `i`: the
/// error of the first bad record, if any.
pub open spec fn validate_from(
    records: Seq<AlnRecord>,
    tt: Seq<SeqLenEntry>,
    qt: Seq<SeqLenEntry>,
    i: int,
) -> Result<(), PlotError>
    decreases records.len() - i,
{
    if i < 0 || i >= records.len() {
        Ok(())
    } else {
        match record_error(records[i], tt, qt, i) {
            Some(e) => Err(e),
            None => validate_from(records, tt, qt, i + 1),
        }
    }
}

pub open spec fn validate_spec(
    records: Seq<AlnRecord>,
    tt: Seq<SeqLenEntry>,
    qt: Seq<SeqLenEntry>,
) -> Result<(), PlotError> {
    validate_from(records, tt, qt, 0)
}

proof fn lemma_validate_prefix_ok(
    records: Seq<AlnRecord>,
    tt: Seq<SeqLenEntry>,
    qt: Seq<SeqLenEntry>,
    i: int,
)
    requires
        0 <= i <= records.len(),
        forall|j: int| 0 <= j < i ==> record_error(records[j], tt, qt, j) is None,
    ensures
        validate_spec(records, tt, qt) == validate_from(records, tt, qt, i),
    decreases i,
{
    if i > 0 {
        lemma_validate_prefix_ok(records, tt, qt, i - 1);
    }
}

/// Checks every record against the two tables, in input order, and
/// reports the first violation; succeeds if and only if every record is
/// well formed.
pub fn validate_records(
    records: &Vec<AlnRecord>,
    tt: &Vec<SeqLenEntry>,
    qt: &Vec<SeqLenEntry>,
) -> (r: Result<(), PlotError>)
    ensures
        r == validate_spec(records@, tt@, qt@),
        r is Ok <==> forall|j: int| 0 <= j < records@.len() ==> record_ok(records@[j], tt@, qt@),
{
    let mut i: usize = 0;
    while i < records.len()
        invariant
            0 <= i <= records.len(),
            forall|j: int| 0 <= j < i ==> record_error(records@[j], tt@, qt@, j) is None,
            forall|j: int| 0 <= j < i ==> record_ok(records@[j], tt@, qt@),
        decreases records.len() - i,
    {
        let r = &records[i];
        proof {
            lemma_validate_prefix_ok(records@, tt@, qt@, i as int);
        }
        if lookup_len(tt, &r.t_name).is_none() {
            return Err(PlotError::MissingTargetLength { record: i });
        }
        let qlen = match lookup_len(qt, &r.q_name) {
            Some(l) => l,
            None => {
                return Err(PlotError::MissingQueryLength { record: i });
            },
        };
        if !(r.ts <= r.te && r.qs <= r.qe && r.qe <= qlen) {
            return Err(PlotError::BadRecordInterval { record: i });
        }
        i = i + 1;
    }
    proof {
        lemma_validate_prefix_ok(records@, tt@, qt@, records@.len() as int);
    }
    Ok(())
}

} // verus!
