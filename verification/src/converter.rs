//! The converter: an ordered registry of records with exact-match prefix
//! lookup, longest-prefix URI lookup, and the uniqueness invariant over
//! both axes.
//!
//! Lookups scan the record sequence directly; the registry targets at most
//! a few thousand entries, where a linear longest-prefix scan is the
//! simplest correct index.

use vstd::prelude::*;

use crate::error::{CuriesError, ErrorView};
use crate::pattern::{spec_validate, validate_id};
use crate::record::{
    Record, RecordView, record_has_prefix, record_has_prefix_exec, record_has_uri_prefix,
    record_has_uri_prefix_exec, rec_match_len, record_match_len, spec_strip, strip_uri_prefix,
};
use crate::record::{extend_unique, longest_syn_len, push_unique, seq_extend_unique, seq_push_unique};
use crate::strutil::{
    concat2, concat3, dec_rep, is_prefix_of, spec_split2, split2, str_eq, u64_to_string,
};

verus! {

/// Spec-level value of a [`Converter`]: its records in insertion order and
/// its CURIE delimiter.
#[verifier::ext_equal]
pub struct ConverterView {
    pub records: Seq<RecordView>,
    pub delimiter: Seq<char>,
}

/// A bidirectional CURIE/URI converter over a registry of records.
#[derive(Debug)]
pub struct Converter {
    records: Vec<Record>,
    delimiter: String,
}

impl View for Converter {
    type V = ConverterView;

    closed spec fn view(&self) -> ConverterView {
        ConverterView { records: self.records.deep_view(), delimiter: self.delimiter@ }
    }
}

/// No prefix string and no URI prefix string is shared between the two
/// records.
pub open spec fn records_disjoint(a: RecordView, b: RecordView) -> bool {
    &&& forall|s: Seq<char>|
        #![trigger record_has_prefix(a, s)]
        #![trigger record_has_prefix(b, s)]
        !(record_has_prefix(a, s) && record_has_prefix(b, s))
    &&& forall|s: Seq<char>|
        #![trigger record_has_uri_prefix(a, s)]
        #![trigger record_has_uri_prefix(b, s)]
        !(record_has_uri_prefix(a, s) && record_has_uri_prefix(b, s))
}

/// The registry invariant over a record sequence: every prefix string and
/// every URI prefix string belongs to at most one record.
pub open spec fn records_wf(recs: Seq<RecordView>) -> bool {
    forall|i: int, j: int|
        0 <= i < j < recs.len() ==> records_disjoint(#[trigger] recs[i], #[trigger] recs[j])
}

/// The registry invariant of a converter.
pub open spec fn converter_wf(c: ConverterView) -> bool {
    records_wf(c.records)
}

impl Converter {
    /// The registry invariant, as a predicate on the converter itself.
    pub open spec fn wf(&self) -> bool {
        converter_wf(self@)
    }
}

/// The index of the first record owning `p` as a prefix (canonical or
/// synonym), if any.
pub open spec fn spec_find_owner(recs: Seq<RecordView>, p: Seq<char>) -> Option<int>
    decreases recs.len(),
{
    if recs.len() == 0 {
        None
    } else if record_has_prefix(recs[0], p) {
        Some(0)
    } else {
        match spec_find_owner(recs.drop_first(), p) {
            None => None,
            Some(i) => Some(i + 1),
        }
    }
}

/// What `spec_find_owner` returns: the least index owning `p`, or `None`
/// when no record owns it.
pub proof fn lemma_find_owner_props(recs: Seq<RecordView>, p: Seq<char>)
    ensures
        match spec_find_owner(recs, p) {
            Some(i) => 0 <= i < recs.len() && record_has_prefix(recs[i], p) && (forall|k: int|
                0 <= k < i ==> !record_has_prefix(#[trigger] recs[k], p)),
            None => forall|k: int| 0 <= k < recs.len() ==> !record_has_prefix(#[trigger] recs[k], p),
        },
    decreases recs.len(),
{
    if recs.len() > 0 && !record_has_prefix(recs[0], p) {
        lemma_find_owner_props(recs.drop_first(), p);
        let df = recs.drop_first();
        match spec_find_owner(df, p) {
            None => {
                assert forall|k: int|
                    0 <= k < recs.len() implies !record_has_prefix(#[trigger] recs[k], p) by {
                    if k > 0 {
                        assert(df[k - 1] == recs[k]);
                    }
                }
            },
            Some(j) => {
                assert(df[j] == recs[j + 1]);
                assert forall|k: int|
                    0 <= k < j + 1 implies !record_has_prefix(#[trigger] recs[k], p) by {
                    if k > 0 {
                        assert(df[k - 1] == recs[k]);
                    }
                }
            },
        }
    }
}

/// A record found by a left-to-right scan is the one `spec_find_owner`
/// designates.
pub proof fn lemma_find_owner_unique(recs: Seq<RecordView>, p: Seq<char>, i: int)
    requires
        0 <= i < recs.len(),
        record_has_prefix(recs[i], p),
        forall|k: int| 0 <= k < i ==> !record_has_prefix(#[trigger] recs[k], p),
    ensures
        spec_find_owner(recs, p) == Some(i),
{
    lemma_find_owner_props(recs, p);
    match spec_find_owner(recs, p) {
        None => {
            assert(!record_has_prefix(recs[i], p));
        },
        Some(j) => {
            if j < i {
                assert(!record_has_prefix(recs[j], p));
            } else if i < j {
                assert(!record_has_prefix(recs[i], p));
            }
        },
    }
}

/// The index of the first record owning `u` as a URI prefix (canonical or
/// synonym), if any. This is exact-match lookup, not longest-prefix match.
pub open spec fn spec_find_uri_owner(recs: Seq<RecordView>, u: Seq<char>) -> Option<int>
    decreases recs.len(),
{
    if recs.len() == 0 {
        None
    } else if record_has_uri_prefix(recs[0], u) {
        Some(0)
    } else {
        match spec_find_uri_owner(recs.drop_first(), u) {
            None => None,
            Some(i) => Some(i + 1),
        }
    }
}

/// What `spec_find_uri_owner` returns: the least index owning `u`, or
/// `None` when no record owns it.
pub proof fn lemma_find_uri_owner_props(recs: Seq<RecordView>, u: Seq<char>)
    ensures
        match spec_find_uri_owner(recs, u) {
            Some(i) => 0 <= i < recs.len() && record_has_uri_prefix(recs[i], u) && (forall|k: int|
                0 <= k < i ==> !record_has_uri_prefix(#[trigger] recs[k], u)),
            None => forall|k: int|
                0 <= k < recs.len() ==> !record_has_uri_prefix(#[trigger] recs[k], u),
        },
    decreases recs.len(),
{
    if recs.len() > 0 && !record_has_uri_prefix(recs[0], u) {
        lemma_find_uri_owner_props(recs.drop_first(), u);
        let df = recs.drop_first();
        match spec_find_uri_owner(df, u) {
            None => {
                assert forall|k: int|
                    0 <= k < recs.len() implies !record_has_uri_prefix(#[trigger] recs[k], u) by {
                    if k > 0 {
                        assert(df[k - 1] == recs[k]);
                    }
                }
            },
            Some(j) => {
                assert(df[j] == recs[j + 1]);
                assert forall|k: int|
                    0 <= k < j + 1 implies !record_has_uri_prefix(#[trigger] recs[k], u) by {
                    if k > 0 {
                        assert(df[k - 1] == recs[k]);
                    }
                }
            },
        }
    }
}

/// A record found by a left-to-right scan is the one `spec_find_uri_owner`
/// designates.
pub proof fn lemma_find_uri_owner_unique(recs: Seq<RecordView>, u: Seq<char>, i: int)
    requires
        0 <= i < recs.len(),
        record_has_uri_prefix(recs[i], u),
        forall|k: int| 0 <= k < i ==> !record_has_uri_prefix(#[trigger] recs[k], u),
    ensures
        spec_find_uri_owner(recs, u) == Some(i),
{
    lemma_find_uri_owner_props(recs, u);
    match spec_find_uri_owner(recs, u) {
        None => {
            assert(!record_has_uri_prefix(recs[i], u));
        },
        Some(j) => {
            if j < i {
                assert(!record_has_uri_prefix(recs[j], u));
            } else if i < j {
                assert(!record_has_uri_prefix(recs[i], u));
            }
        },
    }
}

impl Converter {
    /// Creates an empty converter with the given CURIE delimiter.
    pub fn new(delimiter: &str) -> (r: Self)
        ensures
            r@.records == Seq::<RecordView>::empty(),
            r@.delimiter == delimiter@,
    {
        let r = Converter { records: Vec::new(), delimiter: delimiter.to_owned() };
        proof {
            assert(r@.records =~= Seq::<RecordView>::empty());
        }
        r
    }

    /// The number of records in the converter.
    pub fn len(&self) -> (n: usize)
        ensures
            n == self@.records.len(),
    {
        self.records.len()
    }

    /// Whether the converter holds no record.
    pub fn is_empty(&self) -> (b: bool)
        ensures
            b == (self@.records.len() == 0),
    {
        self.records.is_empty()
    }

    /// Finds the index of the record owning prefix `p`, scanning in
    /// insertion order.
    fn find_owner_idx(&self, p: &str) -> (r: Option<usize>)
        ensures
            ({
                let sp = spec_find_owner(self@.records, p@);
                match r {
                    Some(i) => sp == Some(i as int),
                    None => sp is None,
                }
            }),
    {
        let mut i: usize = 0;
        while i < self.records.len()
            invariant
                i <= self.records.len(),
                forall|k: int| 0 <= k < i ==> !record_has_prefix(#[trigger] self@.records[k], p@),
            decreases self.records.len() - i,
        {
            if record_has_prefix_exec(&self.records[i], p) {
                proof {
                    lemma_find_owner_unique(self@.records, p@, i as int);
                }
                return Some(i);
            }
            i = i + 1;
        }
        proof {
            lemma_find_owner_props(self@.records, p@);
        }
        None
    }

    /// Finds the index of the record owning URI prefix `u` exactly,
    /// scanning in insertion order.
    fn find_uri_owner_idx(&self, u: &str) -> (r: Option<usize>)
        ensures
            ({
                let sp = spec_find_uri_owner(self@.records, u@);
                match r {
                    Some(i) => sp == Some(i as int),
                    None => sp is None,
                }
            }),
    {
        let mut i: usize = 0;
        while i < self.records.len()
            invariant
                i <= self.records.len(),
                forall|k: int|
                    0 <= k < i ==> !record_has_uri_prefix(#[trigger] self@.records[k], u@),
            decreases self.records.len() - i,
        {
            if record_has_uri_prefix_exec(&self.records[i], u) {
                proof {
                    lemma_find_uri_owner_unique(self@.records, u@, i as int);
                }
                return Some(i);
            }
            i = i + 1;
        }
        proof {
            lemma_find_uri_owner_props(self@.records, u@);
        }
        None
    }

    /// Finds the record owning prefix `p` (canonical or synonym).
    pub fn find_by_prefix(&self, prefix: &str) -> (r: Result<&Record, CuriesError>)
        ensures
            ({
                match spec_find_owner(self@.records, prefix@) {
                    Some(i) => r matches Ok(rec) && rec@ == self@.records[i],
                    None => r matches Err(e) && e@ == ErrorView::NotFound(prefix@),
                }
            }),
    {
        match self.find_owner_idx(prefix) {
            Some(i) => {
                proof {
                    lemma_find_owner_props(self@.records, prefix@);
                    assert(self@.records[i as int] == self.records@[i as int]@);
                }
                Ok(&self.records[i])
            },
            None => Err(CuriesError::NotFound(prefix.to_owned())),
        }
    }

    /// Finds the record owning URI prefix `u` exactly (canonical or
    /// synonym); no longest-prefix matching happens here.
    pub fn find_by_uri_prefix(&self, uri_prefix: &str) -> (r: Result<&Record, CuriesError>)
        ensures
            ({
                match spec_find_uri_owner(self@.records, uri_prefix@) {
                    Some(i) => r matches Ok(rec) && rec@ == self@.records[i],
                    None => r matches Err(e) && e@ == ErrorView::NotFound(uri_prefix@),
                }
            }),
    {
        match self.find_uri_owner_idx(uri_prefix) {
            Some(i) => {
                proof {
                    lemma_find_uri_owner_props(self@.records, uri_prefix@);
                    assert(self@.records[i as int] == self.records@[i as int]@);
                }
                Ok(&self.records[i])
            },
            None => Err(CuriesError::NotFound(uri_prefix.to_owned())),
        }
    }
}

/// The first prefix synonym in `syns` already owned by some record, if any.
pub open spec fn first_taken_prefix_syn(recs: Seq<RecordView>, syns: Seq<Seq<char>>) -> Option<
    Seq<char>,
>
    decreases syns.len(),
{
    if syns.len() == 0 {
        None
    } else if spec_find_owner(recs, syns[0]) is Some {
        Some(syns[0])
    } else {
        first_taken_prefix_syn(recs, syns.drop_first())
    }
}

/// The first URI prefix synonym in `syns` already owned by some record, if
/// any.
pub open spec fn first_taken_uri_syn(recs: Seq<RecordView>, syns: Seq<Seq<char>>) -> Option<
    Seq<char>,
>
    decreases syns.len(),
{
    if syns.len() == 0 {
        None
    } else if spec_find_uri_owner(recs, syns[0]) is Some {
        Some(syns[0])
    } else {
        first_taken_uri_syn(recs, syns.drop_first())
    }
}

/// What `first_taken_prefix_syn` returns.
pub proof fn lemma_first_taken_prefix_syn_props(recs: Seq<RecordView>, syns: Seq<Seq<char>>)
    ensures
        match first_taken_prefix_syn(recs, syns) {
            Some(s) => spec_find_owner(recs, s) is Some && syns.contains(s),
            None => forall|k: int|
                0 <= k < syns.len() ==> spec_find_owner(recs, #[trigger] syns[k]) is None,
        },
    decreases syns.len(),
{
    if syns.len() > 0 && spec_find_owner(recs, syns[0]) is None {
        lemma_first_taken_prefix_syn_props(recs, syns.drop_first());
        let df = syns.drop_first();
        match first_taken_prefix_syn(recs, df) {
            Some(s) => {
                let k = choose|k: int| 0 <= k < df.len() && df[k] == s;
                assert(df[k] == syns[k + 1]);
                assert(syns.contains(s));
            },
            None => {
                assert forall|k: int|
                    0 <= k < syns.len() implies spec_find_owner(recs, #[trigger] syns[k]) is None by {
                    if k > 0 {
                        assert(df[k - 1] == syns[k]);
                    }
                }
            },
        }
    }
}

/// What `first_taken_uri_syn` returns.
pub proof fn lemma_first_taken_uri_syn_props(recs: Seq<RecordView>, syns: Seq<Seq<char>>)
    ensures
        match first_taken_uri_syn(recs, syns) {
            Some(s) => spec_find_uri_owner(recs, s) is Some && syns.contains(s),
            None => forall|k: int|
                0 <= k < syns.len() ==> spec_find_uri_owner(recs, #[trigger] syns[k]) is None,
        },
    decreases syns.len(),
{
    if syns.len() > 0 && spec_find_uri_owner(recs, syns[0]) is None {
        lemma_first_taken_uri_syn_props(recs, syns.drop_first());
        let df = syns.drop_first();
        match first_taken_uri_syn(recs, df) {
            Some(s) => {
                let k = choose|k: int| 0 <= k < df.len() && df[k] == s;
                assert(df[k] == syns[k + 1]);
                assert(syns.contains(s));
            },
            None => {
                assert forall|k: int|
                    0 <= k < syns.len() implies spec_find_uri_owner(recs, #[trigger] syns[k])
                    is None by {
                    if k > 0 {
                        assert(df[k - 1] == syns[k]);
                    }
                }
            },
        }
    }
}

/// A synonym found taken by a left-to-right scan is the first taken one.
pub proof fn lemma_first_taken_prefix_syn_at(recs: Seq<RecordView>, syns: Seq<Seq<char>>, i: int)
    requires
        0 <= i < syns.len(),
        spec_find_owner(recs, syns[i]) is Some,
        forall|k: int| 0 <= k < i ==> spec_find_owner(recs, #[trigger] syns[k]) is None,
    ensures
        first_taken_prefix_syn(recs, syns) == Some(syns[i]),
    decreases syns.len(),
{
    if i > 0 {
        let df = syns.drop_first();
        assert forall|k: int|
            0 <= k < i - 1 implies spec_find_owner(recs, #[trigger] df[k]) is None by {
            assert(df[k] == syns[k + 1]);
        }
        assert(df[i - 1] == syns[i]);
        lemma_first_taken_prefix_syn_at(recs, df, i - 1);
    }
}

/// A URI synonym found taken by a left-to-right scan is the first taken
/// one.
pub proof fn lemma_first_taken_uri_syn_at(recs: Seq<RecordView>, syns: Seq<Seq<char>>, i: int)
    requires
        0 <= i < syns.len(),
        spec_find_uri_owner(recs, syns[i]) is Some,
        forall|k: int| 0 <= k < i ==> spec_find_uri_owner(recs, #[trigger] syns[k]) is None,
    ensures
        first_taken_uri_syn(recs, syns) == Some(syns[i]),
    decreases syns.len(),
{
    if i > 0 {
        let df = syns.drop_first();
        assert forall|k: int|
            0 <= k < i - 1 implies spec_find_uri_owner(recs, #[trigger] df[k]) is None by {
            assert(df[k] == syns[k + 1]);
        }
        assert(df[i - 1] == syns[i]);
        lemma_first_taken_uri_syn_at(recs, df, i - 1);
    }
}

/// The string that makes inserting `r` collide with the registry, checked
/// in the order the insertion uses: canonical prefix, canonical URI prefix,
/// prefix synonyms, URI prefix synonyms. `None` when `r` can be inserted.
pub open spec fn spec_dup_key(recs: Seq<RecordView>, r: RecordView) -> Option<Seq<char>> {
    if spec_find_owner(recs, r.prefix) is Some {
        Some(r.prefix)
    } else if spec_find_uri_owner(recs, r.uri_prefix) is Some {
        Some(r.uri_prefix)
    } else if first_taken_prefix_syn(recs, r.prefix_synonyms) is Some {
        first_taken_prefix_syn(recs, r.prefix_synonyms)
    } else {
        first_taken_uri_syn(recs, r.uri_prefix_synonyms)
    }
}

/// Inserting a record: all-or-nothing. Either some prefix string or URI
/// prefix string of `r` is already owned and the registry is unchanged, or
/// `r` is appended to the record sequence.
pub open spec fn spec_add_record(c: ConverterView, r: RecordView) -> Result<
    ConverterView,
    ErrorView,
> {
    match spec_dup_key(c.records, r) {
        Some(k) => Err(ErrorView::DuplicateRecord(k)),
        None => Ok(ConverterView { records: c.records.push(r), delimiter: c.delimiter }),
    }
}

/// Inserting a record that collides with nothing preserves the registry
/// invariant.
pub proof fn lemma_add_preserves_wf(c: ConverterView, r: RecordView)
    requires
        converter_wf(c),
        spec_dup_key(c.records, r) is None,
    ensures
        converter_wf(ConverterView { records: c.records.push(r), delimiter: c.delimiter }),
{
    let recs = c.records;
    let recs2 = recs.push(r);
    lemma_find_owner_props(recs, r.prefix);
    lemma_find_uri_owner_props(recs, r.uri_prefix);
    lemma_first_taken_prefix_syn_props(recs, r.prefix_synonyms);
    lemma_first_taken_uri_syn_props(recs, r.uri_prefix_synonyms);
    assert forall|i: int, j: int|
        0 <= i < j < recs2.len() implies records_disjoint(
        #[trigger] recs2[i],
        #[trigger] recs2[j],
    ) by {
        if j < recs.len() {
            assert(records_disjoint(recs[i], recs[j]));
        } else {
            assert(recs2[j] == r);
            assert(recs2[i] == recs[i]);
            assert forall|s: Seq<char>|
                !(record_has_prefix(recs[i], s) && record_has_prefix(r, s)) by {
                if record_has_prefix(r, s) {
                    if s == r.prefix {
                        assert(!record_has_prefix(recs[i], s));
                    } else {
                        let k = choose|k: int|
                            0 <= k < r.prefix_synonyms.len() && r.prefix_synonyms[k] == s;
                        assert(spec_find_owner(recs, r.prefix_synonyms[k]) is None);
                        lemma_find_owner_props(recs, s);
                    }
                }
            }
            assert forall|s: Seq<char>|
                !(record_has_uri_prefix(recs[i], s) && record_has_uri_prefix(r, s)) by {
                if record_has_uri_prefix(r, s) {
                    if s == r.uri_prefix {
                        assert(!record_has_uri_prefix(recs[i], s));
                    } else {
                        let k = choose|k: int|
                            0 <= k < r.uri_prefix_synonyms.len() && r.uri_prefix_synonyms[k] == s;
                        assert(spec_find_uri_owner(recs, r.uri_prefix_synonyms[k]) is None);
                        lemma_find_uri_owner_props(recs, s);
                    }
                }
            }
            assert(records_disjoint(recs2[i], recs2[j]));
        }
    }
}

impl Converter {
    /// Adds a record, after checking that none of its prefix strings or URI
    /// prefix strings is already owned; on a collision nothing changes and
    /// the offending string is reported.
    #[verifier::loop_isolation(false)]
    pub fn add_record(&mut self, record: Record) -> (r: Result<(), CuriesError>)
        ensures
            ({
                match spec_add_record(old(self)@, record@) {
                    Ok(cv) => r is Ok && final(self)@ == cv,
                    Err(e) => (r matches Err(err) && err@ == e) && final(self)@ == old(self)@,
                }
            }),
            old(self).wf() && r is Ok ==> final(self).wf(),
    {
        if self.find_owner_idx(record.prefix.as_str()).is_some() {
            return Err(CuriesError::DuplicateRecord(record.prefix.clone()));
        }
        if self.find_uri_owner_idx(record.uri_prefix.as_str()).is_some() {
            return Err(CuriesError::DuplicateRecord(record.uri_prefix.clone()));
        }
        let mut k: usize = 0;
        while k < record.prefix_synonyms.len()
            invariant
                k <= record.prefix_synonyms.len(),
                forall|j: int|
                    0 <= j < k ==> spec_find_owner(
                        self@.records,
                        #[trigger] record@.prefix_synonyms[j],
                    ) is None,
            decreases record.prefix_synonyms.len() - k,
        {
            if self.find_owner_idx(record.prefix_synonyms[k].as_str()).is_some() {
                proof {
                    assert(record@.prefix_synonyms[k as int] == record.prefix_synonyms@[
                        k as int
                    ]@);
                    lemma_first_taken_prefix_syn_at(
                        self@.records,
                        record@.prefix_synonyms,
                        k as int,
                    );
                }
                return Err(CuriesError::DuplicateRecord(record.prefix_synonyms[k].clone()));
            }
            k = k + 1;
        }
        proof {
            lemma_first_taken_prefix_syn_props(self@.records, record@.prefix_synonyms);
        }
        let mut k: usize = 0;
        while k < record.uri_prefix_synonyms.len()
            invariant
                k <= record.uri_prefix_synonyms.len(),
                forall|j: int|
                    0 <= j < k ==> spec_find_uri_owner(
                        self@.records,
                        #[trigger] record@.uri_prefix_synonyms[j],
                    ) is None,
            decreases record.uri_prefix_synonyms.len() - k,
        {
            if self.find_uri_owner_idx(record.uri_prefix_synonyms[k].as_str()).is_some() {
                proof {
                    assert(record@.uri_prefix_synonyms[k as int] == record.uri_prefix_synonyms@[
                        k as int
                    ]@);
                    lemma_first_taken_uri_syn_at(
                        self@.records,
                        record@.uri_prefix_synonyms,
                        k as int,
                    );
                }
                return Err(CuriesError::DuplicateRecord(record.uri_prefix_synonyms[k].clone()));
            }
            k = k + 1;
        }
        proof {
            lemma_first_taken_uri_syn_props(self@.records, record@.uri_prefix_synonyms);
            if converter_wf(self@) {
                lemma_add_preserves_wf(self@, record@);
            }
        }
        self.records.push(record);
        proof {
            assert(self@.records =~= old(self)@.records.push(record@));
        }
        Ok(())
    }

    /// Adds a record built from a prefix and a URI prefix alone.
    pub fn add_prefix(&mut self, prefix: &str, uri_prefix: &str) -> (r: Result<(), CuriesError>)
        ensures
            ({
                let rec = RecordView {
                    prefix: prefix@,
                    uri_prefix: uri_prefix@,
                    prefix_synonyms: Seq::empty(),
                    uri_prefix_synonyms: Seq::empty(),
                    pattern: None,
                };
                match spec_add_record(old(self)@, rec) {
                    Ok(cv) => r is Ok && final(self)@ == cv,
                    Err(e) => (r matches Err(err) && err@ == e) && final(self)@ == old(self)@,
                }
            }),
            old(self).wf() && r is Ok ==> final(self).wf(),
    {
        self.add_record(Record::new(prefix, uri_prefix))
    }
}

/// The index of the record holding the longest URI prefix (canonical or
/// synonym) that is a literal prefix of `uri`; the earliest record wins on
/// equal match lengths, which under the registry invariant cannot happen
/// across distinct records.
pub open spec fn spec_best_match(recs: Seq<RecordView>, uri: Seq<char>) -> Option<int>
    decreases recs.len(),
{
    if recs.len() == 0 {
        None
    } else {
        let prev = spec_best_match(recs.drop_last(), uri);
        let l = rec_match_len(recs.last(), uri);
        match prev {
            None => if l >= 0 {
                Some(recs.len() - 1)
            } else {
                None
            },
            Some(j) => if l > rec_match_len(recs[j], uri) {
                Some(recs.len() - 1)
            } else {
                Some(j)
            },
        }
    }
}

/// What `spec_best_match` returns: the earliest index whose match length
/// is maximal, or `None` when no record matches `uri` at all.
pub proof fn lemma_best_match_props(recs: Seq<RecordView>, uri: Seq<char>)
    ensures
        match spec_best_match(recs, uri) {
            Some(j) => 0 <= j < recs.len() && rec_match_len(recs[j], uri) >= 0 && (forall|k: int|
                0 <= k < recs.len() ==> rec_match_len(#[trigger] recs[k], uri) <= rec_match_len(
                    recs[j],
                    uri,
                )) && (forall|k: int|
                0 <= k < j ==> rec_match_len(#[trigger] recs[k], uri) < rec_match_len(
                    recs[j],
                    uri,
                )),
            None => forall|k: int| 0 <= k < recs.len() ==> rec_match_len(#[trigger] recs[k], uri) < 0,
        },
    decreases recs.len(),
{
    if recs.len() > 0 {
        lemma_best_match_props(recs.drop_last(), uri);
        let dl = recs.drop_last();
        let n = recs.len() - 1;
        assert(recs.last() == recs[n]);
        crate::record::lemma_rec_match_len_props(recs[n], uri);
        match spec_best_match(dl, uri) {
            None => {
                assert forall|k: int|
                    0 <= k < n implies rec_match_len(#[trigger] recs[k], uri) < 0 by {
                    assert(dl[k] == recs[k]);
                }
            },
            Some(j) => {
                assert(dl[j] == recs[j]);
                let jn = if rec_match_len(recs[n], uri) > rec_match_len(recs[j], uri) {
                    n
                } else {
                    j
                };
                assert(spec_best_match(recs, uri) == Some(jn));
                assert forall|k: int|
                    0 <= k < recs.len() implies rec_match_len(#[trigger] recs[k], uri)
                    <= rec_match_len(recs[jn], uri) by {
                    if k < n {
                        assert(dl[k] == recs[k]);
                    }
                }
                assert forall|k: int|
                    0 <= k < jn implies rec_match_len(#[trigger] recs[k], uri) < rec_match_len(
                    recs[jn],
                    uri,
                ) by {
                    if k < n {
                        assert(dl[k] == recs[k]);
                    }
                }
            },
        }
    }
}

impl Converter {
    /// Finds the index of the record with the longest matching URI prefix
    /// for `uri`, scanning all records.
    fn best_match_idx(&self, uri: &str) -> (r: Option<usize>)
        ensures
            ({
                let sp = spec_best_match(self@.records, uri@);
                match r {
                    Some(i) => sp == Some(i as int),
                    None => sp is None,
                }
            }),
    {
        let mut best: Option<(usize, usize)> = None;
        let mut i: usize = 0;
        while i < self.records.len()
            invariant
                i <= self.records.len(),
                ({
                    let sp = spec_best_match(self@.records.subrange(0, i as int), uri@);
                    match best {
                        Some(b) => sp == Some(b.0 as int) && b.0 < i && b.1 as int
                            == rec_match_len(self@.records[b.0 as int], uri@),
                        None => sp is None,
                    }
                }),
            decreases self.records.len() - i,
        {
            proof {
                let rv = self@.records;
                assert(rv.subrange(0, i + 1int).drop_last() =~= rv.subrange(0, i as int));
                assert(rv.subrange(0, i + 1int).last() == rv[i as int]);
                assert(self@.records[i as int] == self.records@[i as int]@);
            }
            let ml = record_match_len(&self.records[i], uri);
            match ml {
                None => {},
                Some(n) => {
                    best = match best {
                        None => Some((i, n)),
                        Some(b) => if n > b.1 {
                            Some((i, n))
                        } else {
                            Some(b)
                        },
                    };
                },
            }
            i = i + 1;
        }
        proof {
            assert(self@.records.subrange(0, self.records.len() as int) =~= self@.records);
        }
        match best {
            Some(b) => Some(b.0),
            None => None,
        }
    }

    /// Finds the record whose URI prefix (canonical or synonym) is the
    /// longest literal prefix of `uri`.
    pub fn find_by_uri(&self, uri: &str) -> (r: Result<&Record, CuriesError>)
        ensures
            ({
                match spec_best_match(self@.records, uri@) {
                    Some(i) => r matches Ok(rec) && rec@ == self@.records[i],
                    None => r matches Err(e) && e@ == ErrorView::NotFound(uri@),
                }
            }),
    {
        match self.best_match_idx(uri) {
            Some(i) => {
                proof {
                    lemma_best_match_props(self@.records, uri@);
                    assert(self@.records[i as int] == self.records@[i as int]@);
                }
                Ok(&self.records[i])
            },
            None => Err(CuriesError::NotFound(uri.to_owned())),
        }
    }
}

/// Compression of a URI: the record with the longest matching URI prefix
/// is selected, the canonical URI prefix (or, failing that, the longest
/// matching synonym) is stripped, the remaining local identifier is
/// validated against the record's pattern, and the CURIE is assembled as
/// canonical prefix, delimiter, local identifier.
pub open spec fn spec_compress(c: ConverterView, uri: Seq<char>) -> Result<Seq<char>, ErrorView> {
    match spec_best_match(c.records, uri) {
        None => Err(ErrorView::NotFound(uri)),
        Some(i) => {
            let r = c.records[i];
            match spec_strip(r, uri) {
                None => Err(ErrorView::NotFound(uri)),
                Some(id) => match spec_validate(r, id) {
                    Some(e) => Err(e),
                    None => Ok(r.prefix + c.delimiter + id),
                },
            }
        },
    }
}

/// Expansion of a CURIE: the CURIE splits into exactly two parts on the
/// converter's delimiter, the prefix part selects a record, the local
/// identifier is validated against the record's pattern, and the URI is
/// the record's canonical URI prefix followed by the local identifier.
pub open spec fn spec_expand(c: ConverterView, curie: Seq<char>) -> Result<Seq<char>, ErrorView> {
    match spec_split2(curie, c.delimiter) {
        None => Err(ErrorView::InvalidCurie(curie)),
        Some(parts) => match spec_find_owner(c.records, parts.0) {
            None => Err(ErrorView::NotFound(parts.0)),
            Some(i) => match spec_validate(c.records[i], parts.1) {
                Some(e) => Err(e),
                None => Ok(c.records[i].uri_prefix + parts.1),
            },
        },
    }
}

impl Converter {
    /// Compresses a URI to a CURIE.
    pub fn compress(&self, uri: &str) -> (r: Result<String, CuriesError>)
        ensures
            ({
                match spec_compress(self@, uri@) {
                    Ok(s) => r matches Ok(c) && c@ == s,
                    Err(e) => r matches Err(err) && err@ == e,
                }
            }),
    {
        match self.best_match_idx(uri) {
            None => Err(CuriesError::NotFound(uri.to_owned())),
            Some(i) => {
                proof {
                    lemma_best_match_props(self@.records, uri@);
                    assert(self@.records[i as int] == self.records@[i as int]@);
                }
                let rec = &self.records[i];
                match strip_uri_prefix(rec, uri) {
                    None => Err(CuriesError::NotFound(uri.to_owned())),
                    Some(id) => match validate_id(rec, id.as_str()) {
                        Err(e) => Err(e),
                        Ok(()) => Ok(
                            concat3(rec.prefix.as_str(), self.delimiter.as_str(), id.as_str()),
                        ),
                    },
                }
            },
        }
    }

    /// Expands a CURIE to a URI.
    pub fn expand(&self, curie: &str) -> (r: Result<String, CuriesError>)
        ensures
            ({
                match spec_expand(self@, curie@) {
                    Ok(s) => r matches Ok(u) && u@ == s,
                    Err(e) => r matches Err(err) && err@ == e,
                }
            }),
    {
        match split2(curie, self.delimiter.as_str()) {
            None => Err(CuriesError::InvalidCurie(curie.to_owned())),
            Some(parts) => {
                let (p, id) = parts;
                match self.find_owner_idx(p) {
                    None => Err(CuriesError::NotFound(p.to_owned())),
                    Some(i) => {
                        proof {
                            lemma_find_owner_props(self@.records, p@);
                            assert(self@.records[i as int] == self.records@[i as int]@);
                        }
                        let rec = &self.records[i];
                        match validate_id(rec, id) {
                            Err(e) => Err(e),
                            Ok(()) => Ok(concat2(rec.uri_prefix.as_str(), id)),
                        }
                    },
                }
            },
        }
    }
}

/// Resolution of a (possibly synonym) prefix to its record's canonical
/// prefix.
pub open spec fn spec_standardize_prefix(c: ConverterView, p: Seq<char>) -> Result<
    Seq<char>,
    ErrorView,
> {
    match spec_find_owner(c.records, p) {
        None => Err(ErrorView::NotFound(p)),
        Some(i) => Ok(c.records[i].prefix),
    }
}

/// Standardization of a CURIE: the prefix part is replaced by its
/// canonical form and the local identifier is untouched. The split here is
/// on a literal `":"`, not on the configured delimiter, and an input that
/// does not split in exactly two parts passes through unchanged; both
/// follow the looser contract of this operation.
pub open spec fn spec_standardize_curie(c: ConverterView, curie: Seq<char>) -> Result<
    Seq<char>,
    ErrorView,
> {
    match spec_split2(curie, ":"@) {
        None => Ok(curie),
        Some(parts) => match spec_find_owner(c.records, parts.0) {
            None => Err(ErrorView::NotFound(parts.0)),
            Some(i) => Ok(c.records[i].prefix + ":"@ + parts.1),
        },
    }
}

/// Standardization of a URI: the longest matching record is selected as in
/// compression; a URI already starting with the canonical URI prefix
/// passes through, otherwise the longest matching synonym is replaced by
/// the canonical URI prefix.
pub open spec fn spec_standardize_uri(c: ConverterView, uri: Seq<char>) -> Result<
    Seq<char>,
    ErrorView,
> {
    match spec_best_match(c.records, uri) {
        None => Err(ErrorView::NotFound(uri)),
        Some(i) => {
            let r = c.records[i];
            if is_prefix_of(r.uri_prefix, uri) {
                Ok(uri)
            } else {
                let l = longest_syn_len(r.uri_prefix_synonyms, uri);
                if l >= 0 {
                    Ok(r.uri_prefix + uri.skip(l))
                } else {
                    Err(ErrorView::NotFound(uri))
                }
            }
        },
    }
}

impl Converter {
    /// Resolves a (possibly synonym) prefix to the canonical prefix of its
    /// record.
    pub fn standardize_prefix(&self, prefix: &str) -> (r: Result<String, CuriesError>)
        ensures
            ({
                match spec_standardize_prefix(self@, prefix@) {
                    Ok(s) => r matches Ok(p) && p@ == s,
                    Err(e) => r matches Err(err) && err@ == e,
                }
            }),
    {
        match self.find_owner_idx(prefix) {
            None => Err(CuriesError::NotFound(prefix.to_owned())),
            Some(i) => {
                proof {
                    lemma_find_owner_props(self@.records, prefix@);
                    assert(self@.records[i as int] == self.records@[i as int]@);
                }
                Ok(self.records[i].prefix.clone())
            },
        }
    }

    /// Replaces the prefix part of a CURIE by its canonical form; inputs
    /// that do not split into exactly two `":"`-separated parts pass
    /// through unchanged.
    pub fn standardize_curie(&self, curie: &str) -> (r: Result<String, CuriesError>)
        ensures
            ({
                match spec_standardize_curie(self@, curie@) {
                    Ok(s) => r matches Ok(c) && c@ == s,
                    Err(e) => r matches Err(err) && err@ == e,
                }
            }),
    {
        match split2(curie, ":") {
            None => Ok(curie.to_owned()),
            Some(parts) => {
                let (p, id) = parts;
                match self.find_owner_idx(p) {
                    None => Err(CuriesError::NotFound(p.to_owned())),
                    Some(i) => {
                        proof {
                            lemma_find_owner_props(self@.records, p@);
                            assert(self@.records[i as int] == self.records@[i as int]@);
                        }
                        Ok(concat3(self.records[i].prefix.as_str(), ":", id))
                    },
                }
            },
        }
    }

    /// Resolves a URI to its canonical form: the longest matching synonym
    /// is replaced by the record's canonical URI prefix.
    pub fn standardize_uri(&self, uri: &str) -> (r: Result<String, CuriesError>)
        ensures
            ({
                match spec_standardize_uri(self@, uri@) {
                    Ok(s) => r matches Ok(u) && u@ == s,
                    Err(e) => r matches Err(err) && err@ == e,
                }
            }),
    {
        match self.best_match_idx(uri) {
            None => Err(CuriesError::NotFound(uri.to_owned())),
            Some(i) => {
                proof {
                    lemma_best_match_props(self@.records, uri@);
                    assert(self@.records[i as int] == self.records@[i as int]@);
                }
                let rec = &self.records[i];
                if crate::strutil::str_starts_with(uri, rec.uri_prefix.as_str()) {
                    Ok(uri.to_owned())
                } else {
                    match crate::record::syn_match_len(&rec.uri_prefix_synonyms, uri) {
                        Some(l) => {
                            proof {
                                crate::record::lemma_longest_syn_len_props(
                                    rec@.uri_prefix_synonyms,
                                    uri@,
                                );
                            }
                            let ulen = uri.unicode_len();
                            let id = uri.substring_char(l, ulen);
                            proof {
                                assert(id@ =~= uri@.skip(l as int));
                            }
                            Ok(concat2(rec.uri_prefix.as_str(), id))
                        },
                        None => Err(CuriesError::NotFound(uri.to_owned())),
                    }
                }
            },
        }
    }

    /// Whether the input is a CURIE this converter can expand.
    pub fn is_curie(&self, curie: &str) -> (b: bool)
        ensures
            b == (spec_expand(self@, curie@) is Ok),
    {
        self.expand(curie).is_ok()
    }

    /// Whether the input is a URI this converter can compress.
    pub fn is_uri(&self, uri: &str) -> (b: bool)
        ensures
            b == (spec_compress(self@, uri@) is Ok),
    {
        self.compress(uri).is_ok()
    }

    /// Compresses the input when it is a URI, or standardizes it when it
    /// already is a CURIE.
    pub fn compress_or_standardize(&self, input: &str) -> (r: Result<String, CuriesError>)
        ensures
            ({
                let sp = if spec_expand(self@, input@) is Ok {
                    spec_standardize_curie(self@, input@)
                } else {
                    spec_compress(self@, input@)
                };
                match sp {
                    Ok(s) => r matches Ok(o) && o@ == s,
                    Err(e) => r matches Err(err) && err@ == e,
                }
            }),
    {
        if self.is_curie(input) {
            self.standardize_curie(input)
        } else {
            self.compress(input)
        }
    }

    /// Expands the input when it is a CURIE, or standardizes it when it
    /// already is a URI.
    pub fn expand_or_standardize(&self, input: &str) -> (r: Result<String, CuriesError>)
        ensures
            ({
                let sp = if spec_expand(self@, input@) is Ok {
                    spec_expand(self@, input@)
                } else {
                    spec_standardize_uri(self@, input@)
                };
                match sp {
                    Ok(s) => r matches Ok(o) && o@ == s,
                    Err(e) => r matches Err(err) && err@ == e,
                }
            }),
    {
        if self.is_curie(input) {
            self.expand(input)
        } else {
            self.standardize_uri(input)
        }
    }
}

/// The per-item outcome of a batch conversion: a successful conversion, or
/// (with passthrough) the input unchanged, or an absent slot.
pub open spec fn spec_list_item(
    item: Result<Seq<char>, ErrorView>,
    input: Seq<char>,
    passthrough: bool,
) -> Option<Seq<char>> {
    match item {
        Ok(s) => Some(s),
        Err(e) => if passthrough {
            Some(input)
        } else {
            None
        },
    }
}

impl Converter {
    /// Expands each CURIE in the list; a failing item becomes the input
    /// itself when `passthrough` is set, and an absent slot otherwise.
    pub fn expand_list(&self, curies: Vec<&str>, passthrough: bool) -> (r: Vec<Option<String>>)
        ensures
            r.deep_view() == Seq::new(
                curies.deep_view().len(),
                |k: int|
                    spec_list_item(
                        spec_expand(self@, curies.deep_view()[k]),
                        curies.deep_view()[k],
                        passthrough,
                    ),
            ),
    {
        let mut out: Vec<Option<String>> = Vec::new();
        let mut i: usize = 0;
        while i < curies.len()
            invariant
                i <= curies.len(),
                out@.len() == i,
                forall|k: int|
                    0 <= k < i ==> out.deep_view()[k] == spec_list_item(
                        spec_expand(self@, curies.deep_view()[k]),
                        curies.deep_view()[k],
                        passthrough,
                    ),
            decreases curies.len() - i,
        {
            let cur = curies[i];
            proof {
                assert(curies.deep_view()[i as int] == curies@[i as int]@);
            }
            let item: Option<String> = match self.expand(cur) {
                Ok(u) => Some(u),
                Err(_) => if passthrough {
                    Some(cur.to_owned())
                } else {
                    None
                },
            };
            proof {
                assert(item.deep_view() == spec_list_item(
                    spec_expand(self@, cur@),
                    cur@,
                    passthrough,
                ));
            }
            let ghost prev = out.deep_view();
            out.push(item);
            proof {
                assert(out.deep_view() =~= prev.push(item.deep_view()));
            }
            i = i + 1;
        }
        proof {
            assert(out.deep_view() =~= Seq::new(
                curies.deep_view().len(),
                |k: int|
                    spec_list_item(
                        spec_expand(self@, curies.deep_view()[k]),
                        curies.deep_view()[k],
                        passthrough,
                    ),
            ));
        }
        out
    }

    /// Compresses each URI in the list; a failing item becomes the input
    /// itself when `passthrough` is set, and an absent slot otherwise.
    pub fn compress_list(&self, uris: Vec<&str>, passthrough: bool) -> (r: Vec<Option<String>>)
        ensures
            r.deep_view() == Seq::new(
                uris.deep_view().len(),
                |k: int|
                    spec_list_item(
                        spec_compress(self@, uris.deep_view()[k]),
                        uris.deep_view()[k],
                        passthrough,
                    ),
            ),
    {
        let mut out: Vec<Option<String>> = Vec::new();
        let mut i: usize = 0;
        while i < uris.len()
            invariant
                i <= uris.len(),
                out@.len() == i,
                forall|k: int|
                    0 <= k < i ==> out.deep_view()[k] == spec_list_item(
                        spec_compress(self@, uris.deep_view()[k]),
                        uris.deep_view()[k],
                        passthrough,
                    ),
            decreases uris.len() - i,
        {
            let cur = uris[i];
            proof {
                assert(uris.deep_view()[i as int] == uris@[i as int]@);
            }
            let item: Option<String> = match self.compress(cur) {
                Ok(u) => Some(u),
                Err(_) => if passthrough {
                    Some(cur.to_owned())
                } else {
                    None
                },
            };
            proof {
                assert(item.deep_view() == spec_list_item(
                    spec_compress(self@, cur@),
                    cur@,
                    passthrough,
                ));
            }
            let ghost prev = out.deep_view();
            out.push(item);
            proof {
                assert(out.deep_view() =~= prev.push(item.deep_view()));
            }
            i = i + 1;
        }
        proof {
            assert(out.deep_view() =~= Seq::new(
                uris.deep_view().len(),
                |k: int|
                    spec_list_item(
                        spec_compress(self@, uris.deep_view()[k]),
                        uris.deep_view()[k],
                        passthrough,
                    ),
            ));
        }
        out
    }
}

/// The index of the first record whose canonical prefix is `p`, if any;
/// synonyms do not count here.
pub open spec fn spec_canonical_pos(recs: Seq<RecordView>, p: Seq<char>) -> Option<int>
    decreases recs.len(),
{
    if recs.len() == 0 {
        None
    } else if recs[0].prefix == p {
        Some(0)
    } else {
        match spec_canonical_pos(recs.drop_first(), p) {
            None => None,
            Some(i) => Some(i + 1),
        }
    }
}

/// What `spec_canonical_pos` returns: the least index whose canonical
/// prefix is `p`, or `None` when no record has it.
pub proof fn lemma_canonical_pos_props(recs: Seq<RecordView>, p: Seq<char>)
    ensures
        match spec_canonical_pos(recs, p) {
            Some(i) => 0 <= i < recs.len() && recs[i].prefix == p && (forall|k: int|
                0 <= k < i ==> (#[trigger] recs[k]).prefix != p),
            None => forall|k: int| 0 <= k < recs.len() ==> (#[trigger] recs[k]).prefix != p,
        },
    decreases recs.len(),
{
    if recs.len() > 0 && recs[0].prefix != p {
        lemma_canonical_pos_props(recs.drop_first(), p);
        let df = recs.drop_first();
        match spec_canonical_pos(df, p) {
            None => {
                assert forall|k: int|
                    0 <= k < recs.len() implies (#[trigger] recs[k]).prefix != p by {
                    if k > 0 {
                        assert(df[k - 1] == recs[k]);
                    }
                }
            },
            Some(j) => {
                assert(df[j] == recs[j + 1]);
                assert forall|k: int| 0 <= k < j + 1 implies (#[trigger] recs[k]).prefix != p by {
                    if k > 0 {
                        assert(df[k - 1] == recs[k]);
                    }
                }
            },
        }
    }
}

/// A record found by a left-to-right scan of canonical prefixes is the one
/// `spec_canonical_pos` designates.
pub proof fn lemma_canonical_pos_unique(recs: Seq<RecordView>, p: Seq<char>, i: int)
    requires
        0 <= i < recs.len(),
        recs[i].prefix == p,
        forall|k: int| 0 <= k < i ==> (#[trigger] recs[k]).prefix != p,
    ensures
        spec_canonical_pos(recs, p) == Some(i),
{
    lemma_canonical_pos_props(recs, p);
    match spec_canonical_pos(recs, p) {
        None => {
            assert(recs[i].prefix != p);
        },
        Some(j) => {
            if j < i {
                assert(recs[j].prefix != p);
            } else if i < j {
                assert(recs[i].prefix != p);
            }
        },
    }
}

/// Updating a record: the record at the same canonical prefix is replaced
/// wholesale, or `NotFound` is reported and nothing changes.
pub open spec fn spec_update_record(c: ConverterView, r: RecordView) -> Result<
    ConverterView,
    ErrorView,
> {
    match spec_canonical_pos(c.records, r.prefix) {
        None => Err(ErrorView::NotFound(r.prefix)),
        Some(i) => Ok(ConverterView { records: c.records.update(i, r), delimiter: c.delimiter }),
    }
}

impl Converter {
    /// Replaces the record registered at the same canonical prefix; the
    /// record must already exist.
    #[verifier::loop_isolation(false)]
    pub fn update_record(&mut self, record: Record) -> (r: Result<(), CuriesError>)
        ensures
            ({
                match spec_update_record(old(self)@, record@) {
                    Ok(cv) => r is Ok && final(self)@ == cv,
                    Err(e) => (r matches Err(err) && err@ == e) && final(self)@ == old(self)@,
                }
            }),
    {
        let mut i: usize = 0;
        while i < self.records.len()
            invariant
                i <= self.records.len(),
                self == old(self),
                forall|k: int| 0 <= k < i ==> (#[trigger] self@.records[k]).prefix != record@.prefix,
            decreases self.records.len() - i,
        {
            proof {
                assert(self@.records[i as int] == self.records@[i as int]@);
            }
            if str_eq(self.records[i].prefix.as_str(), record.prefix.as_str()) {
                proof {
                    lemma_canonical_pos_unique(self@.records, record@.prefix, i as int);
                }
                self.records[i] = record;
                proof {
                    assert(self@.records =~= old(self)@.records.update(i as int, record@));
                    assert(self@ =~= (ConverterView {
                        records: old(self)@.records.update(i as int, record@),
                        delimiter: old(self)@.delimiter,
                    }));
                }
                return Ok(());
            }
            i = i + 1;
        }
        proof {
            lemma_canonical_pos_props(self@.records, record@.prefix);
        }
        Err(CuriesError::NotFound(record.prefix.clone()))
    }
}

/// The prefixes of the records in insertion order: each record's
/// canonical prefix, followed by its synonyms when `with_syns` is set.
pub open spec fn spec_prefixes(recs: Seq<RecordView>, with_syns: bool) -> Seq<Seq<char>>
    decreases recs.len(),
{
    if recs.len() == 0 {
        Seq::empty()
    } else {
        spec_prefixes(recs.drop_last(), with_syns) + (if with_syns {
            seq![recs.last().prefix] + recs.last().prefix_synonyms
        } else {
            seq![recs.last().prefix]
        })
    }
}

/// The URI prefixes of the records in insertion order: each record's
/// canonical URI prefix, followed by its synonyms when `with_syns` is set.
pub open spec fn spec_uri_prefixes(recs: Seq<RecordView>, with_syns: bool) -> Seq<Seq<char>>
    decreases recs.len(),
{
    if recs.len() == 0 {
        Seq::empty()
    } else {
        spec_uri_prefixes(recs.drop_last(), with_syns) + (if with_syns {
            seq![recs.last().uri_prefix] + recs.last().uri_prefix_synonyms
        } else {
            seq![recs.last().uri_prefix]
        })
    }
}

/// Appends `s` and, when `with_syns` is set, every string of `syns` to
/// `out`.
fn push_group(out: &mut Vec<String>, s: &String, syns: &Vec<String>, with_syns: bool)
    ensures
        final(out).deep_view() == old(out).deep_view() + (if with_syns {
            seq![s@] + syns.deep_view()
        } else {
            seq![s@]
        }),
{
    let ghost prev = out.deep_view();
    out.push(s.clone());
    proof {
        assert(out.deep_view() =~= prev + seq![s@]);
    }
    if with_syns {
        let mut k: usize = 0;
        while k < syns.len()
            invariant
                k <= syns.len(),
                out.deep_view() =~= prev + seq![s@] + syns.deep_view().subrange(0, k as int),
            decreases syns.len() - k,
        {
            let ghost p2 = out.deep_view();
            out.push(syns[k].clone());
            proof {
                assert(out.deep_view() =~= p2.push(syns.deep_view()[k as int]));
                assert(out.deep_view() =~= prev + seq![s@] + syns.deep_view().subrange(
                    0,
                    k + 1int,
                ));
            }
            k = k + 1;
        }
        proof {
            assert(syns.deep_view().subrange(0, syns.len() as int) =~= syns.deep_view());
        }
    }
}

impl Converter {
    /// The prefixes of all records, in insertion order; with
    /// `include_synonyms`, each record's synonyms follow its canonical
    /// prefix.
    pub fn get_prefixes(&self, include_synonyms: bool) -> (r: Vec<String>)
        ensures
            r.deep_view() == spec_prefixes(self@.records, include_synonyms),
    {
        let mut out: Vec<String> = Vec::new();
        proof {
            assert(out.deep_view() =~= Seq::<Seq<char>>::empty());
            assert(self@.records.subrange(0, 0) =~= Seq::<RecordView>::empty());
        }
        let mut i: usize = 0;
        while i < self.records.len()
            invariant
                i <= self.records.len(),
                out.deep_view() == spec_prefixes(
                    self@.records.subrange(0, i as int),
                    include_synonyms,
                ),
            decreases self.records.len() - i,
        {
            proof {
                let rv = self@.records;
                assert(rv.subrange(0, i + 1int).drop_last() =~= rv.subrange(0, i as int));
                assert(rv.subrange(0, i + 1int).last() == rv[i as int]);
                assert(self@.records[i as int] == self.records@[i as int]@);
            }
            let rec = &self.records[i];
            push_group(&mut out, &rec.prefix, &rec.prefix_synonyms, include_synonyms);
            i = i + 1;
        }
        proof {
            assert(self@.records.subrange(0, self.records.len() as int) =~= self@.records);
        }
        out
    }

    /// The URI prefixes of all records, in insertion order; with
    /// `include_synonyms`, each record's synonyms follow its canonical URI
    /// prefix.
    pub fn get_uri_prefixes(&self, include_synonyms: bool) -> (r: Vec<String>)
        ensures
            r.deep_view() == spec_uri_prefixes(self@.records, include_synonyms),
    {
        let mut out: Vec<String> = Vec::new();
        proof {
            assert(out.deep_view() =~= Seq::<Seq<char>>::empty());
            assert(self@.records.subrange(0, 0) =~= Seq::<RecordView>::empty());
        }
        let mut i: usize = 0;
        while i < self.records.len()
            invariant
                i <= self.records.len(),
                out.deep_view() == spec_uri_prefixes(
                    self@.records.subrange(0, i as int),
                    include_synonyms,
                ),
            decreases self.records.len() - i,
        {
            proof {
                let rv = self@.records;
                assert(rv.subrange(0, i + 1int).drop_last() =~= rv.subrange(0, i as int));
                assert(rv.subrange(0, i + 1int).last() == rv[i as int]);
                assert(self@.records[i as int] == self.records@[i as int]@);
            }
            let rec = &self.records[i];
            push_group(&mut out, &rec.uri_prefix, &rec.uri_prefix_synonyms, include_synonyms);
            i = i + 1;
        }
        proof {
            assert(self@.records.subrange(0, self.records.len() as int) =~= self@.records);
        }
        out
    }
}

/// The simple prefix map of the registry: one pair of canonical prefix
/// and canonical URI prefix per record, in insertion order. Synonyms and
/// patterns are lost here by design.
pub open spec fn spec_prefix_map(recs: Seq<RecordView>) -> Seq<(Seq<char>, Seq<char>)> {
    Seq::new(recs.len(), |i: int| (recs[i].prefix, recs[i].uri_prefix))
}

impl Converter {
    /// Writes the simple prefix map: canonical prefix and canonical URI
    /// prefix pairs in insertion order; synonyms and patterns are dropped.
    pub fn write_prefix_map(&self) -> (r: Vec<(String, String)>)
        ensures
            r.deep_view() == spec_prefix_map(self@.records),
    {
        let mut out: Vec<(String, String)> = Vec::new();
        let mut i: usize = 0;
        while i < self.records.len()
            invariant
                i <= self.records.len(),
                out@.len() == i,
                forall|k: int|
                    0 <= k < i ==> out.deep_view()[k] == (
                    self@.records[k].prefix,
                    self@.records[k].uri_prefix,
                ),
            decreases self.records.len() - i,
        {
            proof {
                assert(self@.records[i as int] == self.records@[i as int]@);
            }
            let rec = &self.records[i];
            let ghost prev = out.deep_view();
            out.push((rec.prefix.clone(), rec.uri_prefix.clone()));
            proof {
                assert(out.deep_view() =~= prev.push((rec@.prefix, rec@.uri_prefix)));
            }
            i = i + 1;
        }
        proof {
            assert(out.deep_view() =~= spec_prefix_map(self@.records));
        }
        out
    }
}

/// Bulk construction: records are added one after the other to an empty
/// converter with the default `":"` delimiter; the first collision aborts
/// with its error.
pub open spec fn spec_add_all(c: ConverterView, rs: Seq<RecordView>) -> Result<
    ConverterView,
    ErrorView,
>
    decreases rs.len(),
{
    if rs.len() == 0 {
        Ok(c)
    } else {
        match spec_add_record(c, rs[0]) {
            Err(e) => Err(e),
            Ok(c2) => spec_add_all(c2, rs.drop_first()),
        }
    }
}

/// The record a bare prefix pair stands for.
pub open spec fn pair_record(p: (Seq<char>, Seq<char>)) -> RecordView {
    RecordView {
        prefix: p.0,
        uri_prefix: p.1,
        prefix_synonyms: Seq::empty(),
        uri_prefix_synonyms: Seq::empty(),
        pattern: None,
    }
}

/// Bulk construction from bare prefix pairs.
pub open spec fn spec_add_pairs(c: ConverterView, ps: Seq<(Seq<char>, Seq<char>)>) -> Result<
    ConverterView,
    ErrorView,
>
    decreases ps.len(),
{
    if ps.len() == 0 {
        Ok(c)
    } else {
        match spec_add_record(c, pair_record(ps[0])) {
            Err(e) => Err(e),
            Ok(c2) => spec_add_pairs(c2, ps.drop_first()),
        }
    }
}

/// The empty converter with the default delimiter, the starting point of
/// the bulk constructors.
pub open spec fn spec_empty_converter() -> ConverterView {
    ConverterView { records: Seq::empty(), delimiter: ":"@ }
}

impl Converter {
    /// Builds a converter from prefix/URI-prefix pairs, in order. The
    /// caller supplies the pairs as a list, so construction is
    /// deterministic whatever map they came out of.
    #[verifier::loop_isolation(false)]
    pub fn from_prefix_map(prefix_map: Vec<(String, String)>) -> (r: Result<
        Converter,
        CuriesError,
    >)
        ensures
            ({
                match spec_add_pairs(spec_empty_converter(), prefix_map.deep_view()) {
                    Ok(cv) => r matches Ok(c) && c@ == cv && c.wf(),
                    Err(e) => r matches Err(err) && err@ == e,
                }
            }),
    {
        let mut conv = Converter::default();
        proof {
            assert(prefix_map.deep_view().skip(0) =~= prefix_map.deep_view());
        }
        let mut i: usize = 0;
        while i < prefix_map.len()
            invariant
                i <= prefix_map.len(),
                conv.wf(),
                spec_add_pairs(spec_empty_converter(), prefix_map.deep_view()) == spec_add_pairs(
                    conv@,
                    prefix_map.deep_view().skip(i as int),
                ),
            decreases prefix_map.len() - i,
        {
            proof {
                let ps = prefix_map.deep_view();
                assert(ps.skip(i as int).drop_first() =~= ps.skip(i + 1int));
                assert(ps.skip(i as int)[0] == ps[i as int]);
                assert(ps[i as int] == prefix_map@[i as int].deep_view());
            }
            let pair = &prefix_map[i];
            let rec = Record::new(pair.0.as_str(), pair.1.as_str());
            proof {
                assert(rec@ =~= pair_record(prefix_map.deep_view()[i as int]));
            }
            match conv.add_record(rec) {
                Ok(()) => {},
                Err(e) => {
                    return Err(e);
                },
            }
            i = i + 1;
        }
        proof {
            assert(prefix_map.deep_view().skip(prefix_map.len() as int) =~= Seq::<(
                Seq<char>,
                Seq<char>,
            )>::empty());
        }
        Ok(conv)
    }

    /// Builds a converter from a list of full records, in order.
    #[verifier::loop_isolation(false)]
    pub fn from_extended_prefix_map(records: Vec<Record>) -> (r: Result<Converter, CuriesError>)
        ensures
            ({
                match spec_add_all(spec_empty_converter(), records.deep_view()) {
                    Ok(cv) => r matches Ok(c) && c@ == cv && c.wf(),
                    Err(e) => r matches Err(err) && err@ == e,
                }
            }),
    {
        let mut conv = Converter::default();
        proof {
            assert(records.deep_view().skip(0) =~= records.deep_view());
        }
        let mut i: usize = 0;
        while i < records.len()
            invariant
                i <= records.len(),
                conv.wf(),
                spec_add_all(spec_empty_converter(), records.deep_view()) == spec_add_all(
                    conv@,
                    records.deep_view().skip(i as int),
                ),
            decreases records.len() - i,
        {
            proof {
                let rs = records.deep_view();
                assert(rs.skip(i as int).drop_first() =~= rs.skip(i + 1int));
                assert(rs.skip(i as int)[0] == rs[i as int]);
                assert(rs[i as int] == records@[i as int]@);
            }
            let rec = records[i].clone();
            match conv.add_record(rec) {
                Ok(()) => {},
                Err(e) => {
                    return Err(e);
                },
            }
            i = i + 1;
        }
        proof {
            assert(records.deep_view().skip(records.len() as int) =~= Seq::<RecordView>::empty());
        }
        Ok(conv)
    }
}

/// The record of the registry that the incoming record `r` lands on
/// during a merge: the owner of `r`'s canonical prefix, or failing that,
/// the owner of the first prefix synonym of `r` that is owned at all.
pub open spec fn spec_first_syn_owner(recs: Seq<RecordView>, syns: Seq<Seq<char>>) -> Option<int>
    decreases syns.len(),
{
    if syns.len() == 0 {
        None
    } else {
        match spec_find_owner(recs, syns[0]) {
            Some(i) => Some(i),
            None => spec_first_syn_owner(recs, syns.drop_first()),
        }
    }
}

/// What `spec_first_syn_owner` returns.
pub proof fn lemma_first_syn_owner_props(recs: Seq<RecordView>, syns: Seq<Seq<char>>)
    ensures
        match spec_first_syn_owner(recs, syns) {
            Some(i) => 0 <= i < recs.len(),
            None => forall|k: int|
                0 <= k < syns.len() ==> spec_find_owner(recs, #[trigger] syns[k]) is None,
        },
    decreases syns.len(),
{
    if syns.len() > 0 {
        match spec_find_owner(recs, syns[0]) {
            Some(i) => {
                lemma_find_owner_props(recs, syns[0]);
            },
            None => {
                lemma_first_syn_owner_props(recs, syns.drop_first());
                let df = syns.drop_first();
                if spec_first_syn_owner(recs, df) is None {
                    assert forall|k: int|
                        0 <= k < syns.len() implies spec_find_owner(recs, #[trigger] syns[k])
                        is None by {
                        if k > 0 {
                            assert(df[k - 1] == syns[k]);
                        }
                    }
                }
            },
        }
    }
}

/// A synonym owner found by a left-to-right scan is the one
/// `spec_first_syn_owner` designates.
pub proof fn lemma_first_syn_owner_at(recs: Seq<RecordView>, syns: Seq<Seq<char>>, k: int)
    requires
        0 <= k < syns.len(),
        spec_find_owner(recs, syns[k]) is Some,
        forall|j: int| 0 <= j < k ==> spec_find_owner(recs, #[trigger] syns[j]) is None,
    ensures
        spec_first_syn_owner(recs, syns) == spec_find_owner(recs, syns[k]),
    decreases syns.len(),
{
    if k > 0 {
        let df = syns.drop_first();
        assert forall|j: int|
            0 <= j < k - 1 implies spec_find_owner(recs, #[trigger] df[j]) is None by {
            assert(df[j] == syns[j + 1]);
        }
        assert(df[k - 1] == syns[k]);
        lemma_first_syn_owner_at(recs, df, k - 1);
    }
}

/// Where the incoming record `r` lands during a merge, found by its
/// canonical prefix first and then by its prefix synonyms in order.
pub open spec fn spec_merge_target(recs: Seq<RecordView>, r: RecordView) -> Option<int> {
    match spec_find_owner(recs, r.prefix) {
        Some(i) => Some(i),
        None => spec_first_syn_owner(recs, r.prefix_synonyms),
    }
}

/// The existing record `ex` after absorbing the conflicting identity of
/// the incoming record `inc`: the canonical identity and pattern of `ex`
/// are kept; `inc`'s canonical URI prefix and both synonym lists of `inc`
/// are merged into `ex`'s synonym lists, skipping duplicates.
pub open spec fn spec_merged_record(ex: RecordView, inc: RecordView) -> RecordView {
    RecordView {
        prefix: ex.prefix,
        uri_prefix: ex.uri_prefix,
        prefix_synonyms: seq_extend_unique(ex.prefix_synonyms, inc.prefix_synonyms),
        uri_prefix_synonyms: seq_extend_unique(
            seq_push_unique(ex.uri_prefix_synonyms, inc.uri_prefix),
            inc.uri_prefix_synonyms,
        ),
        pattern: ex.pattern,
    }
}

/// One step of the chain merge. An incoming record that lands on no
/// existing record is inserted with the normal uniqueness checks. One that
/// lands on a record with the same canonical URI prefix is already
/// represented and changes nothing. Otherwise the existing record absorbs
/// the incoming identity as synonyms and is written back.
pub open spec fn spec_merge_record(c: ConverterView, r: RecordView) -> Result<
    ConverterView,
    ErrorView,
> {
    match spec_merge_target(c.records, r) {
        None => spec_add_record(c, r),
        Some(i) => if c.records[i].uri_prefix == r.uri_prefix {
            Ok(c)
        } else {
            spec_update_record(c, spec_merged_record(c.records[i], r))
        },
    }
}

/// Folding a whole record list into the base converter, stopping at the
/// first error.
pub open spec fn spec_merge_all(c: ConverterView, rs: Seq<RecordView>) -> Result<
    ConverterView,
    ErrorView,
>
    decreases rs.len(),
{
    if rs.len() == 0 {
        Ok(c)
    } else {
        match spec_merge_record(c, rs[0]) {
            Err(e) => Err(e),
            Ok(c2) => spec_merge_all(c2, rs.drop_first()),
        }
    }
}

/// Folding the records of each remaining converter, in order, into the
/// base.
pub open spec fn spec_chain_rest(c: ConverterView, cs: Seq<ConverterView>) -> Result<
    ConverterView,
    ErrorView,
>
    decreases cs.len(),
{
    if cs.len() == 0 {
        Ok(c)
    } else {
        match spec_merge_all(c, cs[0].records) {
            Err(e) => Err(e),
            Ok(c2) => spec_chain_rest(c2, cs.drop_first()),
        }
    }
}

/// Chaining converters: the first is the base and keeps priority; every
/// record of every later converter is merged into it. An empty list is
/// malformed input.
pub open spec fn spec_chain(cs: Seq<ConverterView>) -> Result<ConverterView, ErrorView> {
    if cs.len() == 0 {
        Err(ErrorView::InvalidFormat("The list of converters is empty"@))
    } else {
        spec_chain_rest(cs[0], cs.drop_first())
    }
}

impl DeepView for Converter {
    type V = ConverterView;

    open spec fn deep_view(&self) -> ConverterView {
        self.view()
    }
}

impl Converter {
    /// Finds the record an incoming record lands on during a merge.
    #[verifier::loop_isolation(false)]
    fn merge_target_idx(&self, record: &Record) -> (r: Option<usize>)
        ensures
            ({
                let sp = spec_merge_target(self@.records, record@);
                match r {
                    Some(i) => sp == Some(i as int) && (i as int) < self@.records.len(),
                    None => sp is None,
                }
            }),
    {
        match self.find_owner_idx(record.prefix.as_str()) {
            Some(i) => {
                proof {
                    lemma_find_owner_props(self@.records, record@.prefix);
                }
                Some(i)
            },
            None => {
                let mut k: usize = 0;
                while k < record.prefix_synonyms.len()
                    invariant
                        k <= record.prefix_synonyms.len(),
                        forall|j: int|
                            0 <= j < k ==> spec_find_owner(
                                self@.records,
                                #[trigger] record@.prefix_synonyms[j],
                            ) is None,
                    decreases record.prefix_synonyms.len() - k,
                {
                    proof {
                        assert(record@.prefix_synonyms[k as int] == record.prefix_synonyms@[
                            k as int
                        ]@);
                    }
                    match self.find_owner_idx(record.prefix_synonyms[k].as_str()) {
                        Some(i) => {
                            proof {
                                lemma_first_syn_owner_at(
                                    self@.records,
                                    record@.prefix_synonyms,
                                    k as int,
                                );
                                lemma_find_owner_props(
                                    self@.records,
                                    record@.prefix_synonyms[k as int],
                                );
                            }
                            return Some(i);
                        },
                        None => {},
                    }
                    k = k + 1;
                }
                proof {
                    lemma_first_syn_owner_props(self@.records, record@.prefix_synonyms);
                    if spec_first_syn_owner(self@.records, record@.prefix_synonyms) is Some {
                        assert(exists|j: int|
                            0 <= j < record@.prefix_synonyms.len() && spec_find_owner(
                                self@.records,
                                #[trigger] record@.prefix_synonyms[j],
                            ) is Some) by {
                            lemma_first_syn_owner_some_witness(
                                self@.records,
                                record@.prefix_synonyms,
                            );
                        }
                    }
                }
                None
            },
        }
    }

    /// Merges one incoming record into the registry, as one chain step.
    fn merge_record(&mut self, record: Record) -> (r: Result<(), CuriesError>)
        ensures
            ({
                match spec_merge_record(old(self)@, record@) {
                    Ok(cv) => r is Ok && final(self)@ == cv,
                    Err(e) => (r matches Err(err) && err@ == e) && final(self)@ == old(self)@,
                }
            }),
    {
        match self.merge_target_idx(&record) {
            None => self.add_record(record),
            Some(i) => {
                if str_eq(self.records[i].uri_prefix.as_str(), record.uri_prefix.as_str()) {
                    proof {
                        assert(self@.records[i as int] == self.records@[i as int]@);
                    }
                    Ok(())
                } else {
                    proof {
                        assert(self@.records[i as int] == self.records@[i as int]@);
                    }
                    let mut updated = self.records[i].clone();
                    push_unique(&mut updated.uri_prefix_synonyms, record.uri_prefix.clone());
                    extend_unique(&mut updated.uri_prefix_synonyms, &record.uri_prefix_synonyms);
                    extend_unique(&mut updated.prefix_synonyms, &record.prefix_synonyms);
                    proof {
                        assert(updated@ =~= spec_merged_record(
                            old(self)@.records[i as int],
                            record@,
                        ));
                    }
                    self.update_record(updated)
                }
            },
        }
    }

    /// Merges every record of `other` into the registry, in order,
    /// stopping at the first error.
    #[verifier::loop_isolation(false)]
    fn merge_all_from(&mut self, other: &Converter) -> (r: Result<(), CuriesError>)
        ensures
            ({
                match spec_merge_all(old(self)@, other@.records) {
                    Ok(cv) => r is Ok && final(self)@ == cv,
                    Err(e) => r matches Err(err) && err@ == e,
                }
            }),
    {
        proof {
            assert(other@.records.skip(0) =~= other@.records);
        }
        let mut j: usize = 0;
        while j < other.records.len()
            invariant
                j <= other.records.len(),
                spec_merge_all(old(self)@, other@.records) == spec_merge_all(
                    self@,
                    other@.records.skip(j as int),
                ),
            decreases other.records.len() - j,
        {
            proof {
                let rs = other@.records;
                assert(rs.skip(j as int).drop_first() =~= rs.skip(j + 1int));
                assert(rs.skip(j as int)[0] == rs[j as int]);
                assert(rs[j as int] == other.records@[j as int]@);
            }
            let rec = other.records[j].clone();
            match self.merge_record(rec) {
                Ok(()) => {},
                Err(e) => {
                    return Err(e);
                },
            }
            j = j + 1;
        }
        proof {
            assert(other@.records.skip(other.records.len() as int) =~= Seq::<RecordView>::empty());
        }
        Ok(())
    }

    /// Chains converters into one. The first converter is the base and its
    /// records keep priority; records of later converters are merged in as
    /// in `spec_merge_record`. An empty list is rejected as malformed.
    #[verifier::loop_isolation(false)]
    pub fn chain(converters: Vec<Converter>) -> (r: Result<Converter, CuriesError>)
        ensures
            ({
                match spec_chain(converters.deep_view()) {
                    Ok(cv) => r matches Ok(c) && c@ == cv,
                    Err(e) => r matches Err(err) && err@ == e,
                }
            }),
    {
        let mut convs = converters;
        let ghost cs0 = convs.deep_view();
        if convs.is_empty() {
            return Err(CuriesError::InvalidFormat("The list of converters is empty".to_owned()));
        }
        let mut base = convs.remove(0);
        proof {
            assert(convs.deep_view() =~= cs0.drop_first());
            assert(convs.deep_view().skip(0) =~= convs.deep_view());
        }
        let mut ci: usize = 0;
        while ci < convs.len()
            invariant
                ci <= convs.len(),
                spec_chain(cs0) == spec_chain_rest(base@, convs.deep_view().skip(ci as int)),
            decreases convs.len() - ci,
        {
            proof {
                let cv = convs.deep_view();
                assert(cv.skip(ci as int).drop_first() =~= cv.skip(ci + 1int));
                assert(cv.skip(ci as int)[0] == cv[ci as int]);
                assert(cv[ci as int] == convs@[ci as int]@);
            }
            match base.merge_all_from(&convs[ci]) {
                Ok(()) => {},
                Err(e) => {
                    return Err(e);
                },
            }
            ci = ci + 1;
        }
        proof {
            assert(convs.deep_view().skip(convs.len() as int) =~= Seq::<ConverterView>::empty());
        }
        Ok(base)
    }
}

/// A `Some` result of `spec_first_syn_owner` points through some synonym.
pub proof fn lemma_first_syn_owner_some_witness(recs: Seq<RecordView>, syns: Seq<Seq<char>>)
    requires
        spec_first_syn_owner(recs, syns) is Some,
    ensures
        exists|k: int|
            0 <= k < syns.len() && spec_find_owner(recs, #[trigger] syns[k]) is Some,
    decreases syns.len(),
{
    if syns.len() > 0 {
        if spec_find_owner(recs, syns[0]) is Some {
        } else {
            lemma_first_syn_owner_some_witness(recs, syns.drop_first());
            let df = syns.drop_first();
            let k = choose|k: int| 0 <= k < df.len() && spec_find_owner(recs, #[trigger] df[k]) is Some;
            assert(df[k] == syns[k + 1]);
        }
    }
}

impl Clone for Converter {
    /// Cloning preserves the registry and the delimiter.
    fn clone(&self) -> (r: Self)
        ensures
            r@ == self@,
    {
        let mut records: Vec<Record> = Vec::new();
        let mut i: usize = 0;
        while i < self.records.len()
            invariant
                i <= self.records.len(),
                records@.len() == i,
                forall|k: int| 0 <= k < i ==> records@[k]@ == self.records@[k]@,
            decreases self.records.len() - i,
        {
            records.push(self.records[i].clone());
            i = i + 1;
        }
        let r = Converter { records, delimiter: self.delimiter.clone() };
        proof {
            assert(r@.records =~= self@.records);
        }
        r
    }
}

impl Converter {
    /// Renders a one-line summary naming the number of records.
    pub fn to_string(&self) -> (r: String)
        ensures
            r@ == "Converter contains "@ + dec_rep(self@.records.len() as nat) + " records"@,
    {
        let n = u64_to_string(self.records.len() as u64);
        let mut s = concat2("Converter contains ", n.as_str());
        s.append(" records");
        proof {
            assert(s@ =~= "Converter contains "@ + dec_rep(self@.records.len() as nat)
                + " records"@);
        }
        s
    }
}

impl Converter {
    /// Writes the extended prefix map: a lossless JSON array holding every
    /// record with its synonyms and pattern, in insertion order.
    pub fn write_extended_prefix_map(&self) -> (r: Result<String, CuriesError>)
        ensures
            r matches Ok(s) && s@ == crate::json::json_extended_prefix_map(self@.records),
    {
        Ok(crate::json::render_extended_prefix_map(&self.records))
    }

    /// Writes the JSON-LD-shaped context object mapping every prefix and
    /// prefix synonym to its canonical URI prefix, in insertion order.
    pub fn write_jsonld(&self) -> (r: String)
        ensures
            r@ == crate::json::jsonld_context(self@.records),
    {
        crate::json::render_jsonld(&self.records)
    }
}

impl Default for Converter {
    /// The default converter is empty, with `":"` as its delimiter.
    fn default() -> (r: Self)
        ensures
            r@.records == Seq::<RecordView>::empty(),
            r@.delimiter == ":"@,
    {
        Converter::new(":")
    }
}

} // verus!
