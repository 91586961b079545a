//! The laws of the converter, stated and proved over the spec-level
//! pipeline: round-tripping, longest-prefix selection, the uniqueness
//! invariant, and chain precedence.

use vstd::prelude::*;

use crate::converter::{
    lemma_best_match_props, lemma_canonical_pos_props, lemma_find_owner_props,
    lemma_find_uri_owner_props, lemma_first_taken_prefix_syn_props, lemma_first_taken_uri_syn_props,
    records_disjoint, records_wf, spec_add_record, spec_best_match, spec_canonical_pos,
    spec_compress, spec_expand, spec_find_owner, spec_find_uri_owner, spec_merge_record,
    spec_merge_target, spec_merged_record, ConverterView,
};
use crate::pattern::id_valid;
use crate::record::{
    lemma_longest_syn_len_props, lemma_rec_match_len_props, longest_syn_len, rec_match_len,
    record_has_prefix, record_has_uri_prefix, seq_extend_unique, seq_push_unique, uri_matches,
    RecordView,
};
use crate::strutil::{is_prefix_of, spec_split2};

verus! {

/// Two literal prefixes of the same sequence with equal lengths are the
/// same string.
proof fn lemma_equal_prefixes(u1: Seq<char>, u2: Seq<char>, uri: Seq<char>)
    requires
        is_prefix_of(u1, uri),
        is_prefix_of(u2, uri),
        u1.len() == u2.len(),
    ensures
        u1 == u2,
{
    assert(u1 =~= u2);
}

/// Longest-prefix correctness: under the registry invariant, when record
/// `j` holds a URI prefix `u` matching `uri` and no registered URI prefix
/// matching `uri` is longer, then the longest-prefix lookup selects
/// exactly record `j`. In particular a record holding a more specific
/// (longer) URI prefix is never shadowed by a record holding a shorter
/// one.
pub proof fn lemma_longest_prefix_wins(recs: Seq<RecordView>, j: int, u: Seq<char>, uri: Seq<char>)
    requires
        records_wf(recs),
        0 <= j < recs.len(),
        uri_matches(recs[j], u, uri),
        forall|k: int, u2: Seq<char>|
            0 <= k < recs.len() && #[trigger] uri_matches(recs[k], u2, uri) ==> u2.len() <= u.len(),
    ensures
        spec_best_match(recs, uri) == Some(j),
{
    lemma_best_match_props(recs, uri);
    lemma_rec_match_len_props(recs[j], uri);
    assert(rec_match_len(recs[j], uri) >= u.len());
    match spec_best_match(recs, uri) {
        None => {
            assert(rec_match_len(recs[j], uri) < 0);
        },
        Some(j0) => {
            lemma_rec_match_len_props(recs[j0], uri);
            // the best match length is reached by some URI prefix of j0
            let u0 = choose|u0: Seq<char>|
                uri_matches(recs[j0], u0, uri) && u0.len() as int == rec_match_len(recs[j0], uri);
            assert(u0.len() <= u.len());
            assert(rec_match_len(recs[j0], uri) >= rec_match_len(recs[j], uri));
            assert(u0.len() == u.len());
            lemma_equal_prefixes(u0, u, uri);
            if j0 != j {
                if j0 < j {
                    assert(records_disjoint(recs[j0], recs[j]));
                } else {
                    assert(records_disjoint(recs[j], recs[j0]));
                }
                assert(record_has_uri_prefix(recs[j0], u));
                assert(record_has_uri_prefix(recs[j], u));
            }
        },
    }
}

/// Round-tripping: for a record `i` of a well-formed registry and a local
/// identifier `id` accepted by its pattern, expanding the CURIE built
/// from the record's canonical prefix yields the record's canonical URI,
/// and compressing that URI yields the CURIE back. The split hypothesis
/// rules out a delimiter occurring inside the prefix or the identifier,
/// and the last hypothesis rules out another registered URI prefix
/// matching the expanded URI more specifically.
pub proof fn lemma_round_trip(c: ConverterView, i: int, id: Seq<char>)
    requires
        records_wf(c.records),
        0 <= i < c.records.len(),
        spec_split2(c.records[i].prefix + c.delimiter + id, c.delimiter) == Some(
            (c.records[i].prefix, id),
        ),
        id_valid(c.records[i], id),
        forall|k: int, u: Seq<char>|
            0 <= k < c.records.len() && #[trigger] uri_matches(
                c.records[k],
                u,
                c.records[i].uri_prefix + id,
            ) ==> u.len() <= c.records[i].uri_prefix.len(),
    ensures
        spec_expand(c, c.records[i].prefix + c.delimiter + id) == Ok::<Seq<char>, crate::error::ErrorView>(
            c.records[i].uri_prefix + id,
        ),
        spec_compress(c, c.records[i].uri_prefix + id) == Ok::<Seq<char>, crate::error::ErrorView>(
            c.records[i].prefix + c.delimiter + id,
        ),
{
    let p = c.records[i].prefix;
    let up = c.records[i].uri_prefix;
    let uri = up + id;
    // expansion: the owner of the canonical prefix is record i
    lemma_find_owner_props(c.records, p);
    assert(record_has_prefix(c.records[i], p));
    match spec_find_owner(c.records, p) {
        None => {
            assert(!record_has_prefix(c.records[i], p));
        },
        Some(i0) => {
            if i0 != i {
                if i0 < i {
                    assert(records_disjoint(c.records[i0], c.records[i]));
                } else {
                    assert(records_disjoint(c.records[i], c.records[i0]));
                }
                assert(record_has_prefix(c.records[i0], p));
            }
            assert(i0 == i);
        },
    }
    // compression: the canonical URI prefix is the longest match
    assert(is_prefix_of(up, uri)) by {
        assert(uri.subrange(0, up.len() as int) =~= up);
    }
    assert(uri_matches(c.records[i], up, uri));
    lemma_longest_prefix_wins(c.records, i, up, uri);
    assert(uri.skip(up.len() as int) =~= id);
}

/// The uniqueness invariant: inserting a record fails exactly when some
/// prefix string or URI prefix string of the incoming record is already
/// held by a record of the registry, and then the failure is a
/// `DuplicateRecord`. (That a failed insertion leaves the converter
/// unchanged is part of the insertion's own contract.)
pub proof fn lemma_add_record_uniqueness(c: ConverterView, r: RecordView)
    ensures
        spec_add_record(c, r) is Err <==> (exists|k: int, s: Seq<char>|
            #![trigger record_has_prefix(c.records[k], s)]
            #![trigger record_has_uri_prefix(c.records[k], s)]
            0 <= k < c.records.len() && ((record_has_prefix(c.records[k], s) && record_has_prefix(
                r,
                s,
            )) || (record_has_uri_prefix(c.records[k], s) && record_has_uri_prefix(r, s)))),
        spec_add_record(c, r) is Err ==> (spec_add_record(c, r) matches Err(e)
            && e is DuplicateRecord),
{
    let recs = c.records;
    lemma_find_owner_props(recs, r.prefix);
    lemma_find_uri_owner_props(recs, r.uri_prefix);
    lemma_first_taken_prefix_syn_props(recs, r.prefix_synonyms);
    lemma_first_taken_uri_syn_props(recs, r.uri_prefix_synonyms);
    if spec_add_record(c, r) is Err {
        // one of the four checks found an owner: produce the shared string
        if spec_find_owner(recs, r.prefix) is Some {
            let k = spec_find_owner(recs, r.prefix)->Some_0;
            assert(record_has_prefix(c.records[k], r.prefix) && record_has_prefix(r, r.prefix));
        } else if spec_find_uri_owner(recs, r.uri_prefix) is Some {
            let k = spec_find_uri_owner(recs, r.uri_prefix)->Some_0;
            assert(record_has_uri_prefix(c.records[k], r.uri_prefix) && record_has_uri_prefix(
                r,
                r.uri_prefix,
            ));
        } else if crate::converter::first_taken_prefix_syn(recs, r.prefix_synonyms) is Some {
            let s = crate::converter::first_taken_prefix_syn(recs, r.prefix_synonyms)->Some_0;
            lemma_find_owner_props(recs, s);
            let k = spec_find_owner(recs, s)->Some_0;
            assert(record_has_prefix(c.records[k], s) && record_has_prefix(r, s));
        } else {
            let s = crate::converter::first_taken_uri_syn(recs, r.uri_prefix_synonyms)->Some_0;
            lemma_find_uri_owner_props(recs, s);
            let k = spec_find_uri_owner(recs, s)->Some_0;
            assert(record_has_uri_prefix(c.records[k], s) && record_has_uri_prefix(r, s));
        }
    }
    if exists|k: int, s: Seq<char>|
        #![trigger record_has_prefix(c.records[k], s)]
        #![trigger record_has_uri_prefix(c.records[k], s)]
        0 <= k < c.records.len() && ((record_has_prefix(c.records[k], s) && record_has_prefix(
            r,
            s,
        )) || (record_has_uri_prefix(c.records[k], s) && record_has_uri_prefix(r, s))) {
        let (k, s) = choose|k: int, s: Seq<char>|
            #![trigger record_has_prefix(c.records[k], s)]
            #![trigger record_has_uri_prefix(c.records[k], s)]
            0 <= k < c.records.len() && ((record_has_prefix(c.records[k], s) && record_has_prefix(
                r,
                s,
            )) || (record_has_uri_prefix(c.records[k], s) && record_has_uri_prefix(r, s)));
        if spec_add_record(c, r) is Ok {
            // all four checks passed, so no record owns any string of r
            if record_has_prefix(r, s) && record_has_prefix(c.records[k], s) {
                if s == r.prefix {
                    assert(!record_has_prefix(c.records[k], s));
                } else {
                    let j = choose|j: int|
                        0 <= j < r.prefix_synonyms.len() && r.prefix_synonyms[j] == s;
                    assert(spec_find_owner(recs, r.prefix_synonyms[j]) is None);
                    lemma_find_owner_props(recs, s);
                    assert(!record_has_prefix(c.records[k], s));
                }
            }
            if record_has_uri_prefix(r, s) && record_has_uri_prefix(c.records[k], s) {
                if s == r.uri_prefix {
                    assert(!record_has_uri_prefix(c.records[k], s));
                } else {
                    let j = choose|j: int|
                        0 <= j < r.uri_prefix_synonyms.len() && r.uri_prefix_synonyms[j] == s;
                    assert(spec_find_uri_owner(recs, r.uri_prefix_synonyms[j]) is None);
                    lemma_find_uri_owner_props(recs, s);
                    assert(!record_has_uri_prefix(c.records[k], s));
                }
            }
        }
    }
}

/// Membership in `seq_push_unique`: exactly the old members and the new
/// item.
pub proof fn lemma_push_unique_contains(s: Seq<Seq<char>>, x: Seq<char>, y: Seq<char>)
    ensures
        seq_push_unique(s, x).contains(y) == (s.contains(y) || y == x),
{
    if s.contains(x) {
    } else {
        let r = s.push(x);
        if s.contains(y) {
            let j = choose|j: int| 0 <= j < s.len() && s[j] == y;
            assert(r[j] == y);
            assert(r.contains(y));
        }
        if y == x {
            assert(r[s.len() as int] == y);
            assert(r.contains(y));
        }
        if r.contains(y) {
            let j = choose|j: int| 0 <= j < r.len() && r[j] == y;
            if j < s.len() {
                assert(s[j] == y);
            }
        }
    }
}

/// Membership in `seq_extend_unique`: exactly the members of either side.
pub proof fn lemma_extend_unique_contains(s: Seq<Seq<char>>, xs: Seq<Seq<char>>, y: Seq<char>)
    ensures
        seq_extend_unique(s, xs).contains(y) == (s.contains(y) || xs.contains(y)),
    decreases xs.len(),
{
    if xs.len() == 0 {
        assert(!xs.contains(y));
    } else {
        lemma_push_unique_contains(s, xs[0], y);
        lemma_extend_unique_contains(seq_push_unique(s, xs[0]), xs.drop_first(), y);
        let df = xs.drop_first();
        if xs.contains(y) {
            let j = choose|j: int| 0 <= j < xs.len() && xs[j] == y;
            if j > 0 {
                assert(df[j - 1] == y);
                assert(df.contains(y));
            }
        }
        if df.contains(y) {
            let j = choose|j: int| 0 <= j < df.len() && df[j] == y;
            assert(xs[j + 1] == y);
            assert(xs.contains(y));
        }
    }
}

/// One chain step on a conflicting record: when the incoming record `r`
/// lands on record `i` of a well-formed base and brings a different
/// canonical URI prefix, the merge succeeds, every other record is
/// untouched, record `i` keeps its canonical prefix, canonical URI prefix
/// and pattern, and gains `r`'s canonical URI prefix as a synonym.
pub proof fn lemma_chain_merge_keeps_base(c: ConverterView, r: RecordView, i: int)
    requires
        records_wf(c.records),
        0 <= i < c.records.len(),
        spec_merge_target(c.records, r) == Some(i),
        c.records[i].uri_prefix != r.uri_prefix,
    ensures
        spec_merge_record(c, r) is Ok,
        ({
            let m = spec_merge_record(c, r)->Ok_0;
            &&& m.delimiter == c.delimiter
            &&& m.records.len() == c.records.len()
            &&& m.records[i].prefix == c.records[i].prefix
            &&& m.records[i].uri_prefix == c.records[i].uri_prefix
            &&& m.records[i].pattern == c.records[i].pattern
            &&& record_has_uri_prefix(m.records[i], r.uri_prefix)
            &&& forall|k: int| 0 <= k < c.records.len() && k != i ==> m.records[k] == c.records[k]
        }),
{
    let merged = spec_merged_record(c.records[i], r);
    assert(merged.prefix == c.records[i].prefix);
    // the record at the same canonical prefix is record i itself
    lemma_canonical_pos_props(c.records, merged.prefix);
    match spec_canonical_pos(c.records, merged.prefix) {
        None => {
            assert(c.records[i].prefix != merged.prefix);
        },
        Some(i0) => {
            if i0 != i {
                if i0 < i {
                    assert(records_disjoint(c.records[i0], c.records[i]));
                } else {
                    assert(records_disjoint(c.records[i], c.records[i0]));
                }
                assert(record_has_prefix(c.records[i0], merged.prefix));
                assert(record_has_prefix(c.records[i], merged.prefix));
            }
            assert(i0 == i);
        },
    }
    // the merged synonyms hold the incoming canonical URI prefix
    lemma_push_unique_contains(c.records[i].uri_prefix_synonyms, r.uri_prefix, r.uri_prefix);
    lemma_extend_unique_contains(
        seq_push_unique(c.records[i].uri_prefix_synonyms, r.uri_prefix),
        r.uri_prefix_synonyms,
        r.uri_prefix,
    );
    assert(merged.uri_prefix_synonyms.contains(r.uri_prefix));
}

/// Chain precedence: after merging an incoming record `r` that lands on
/// record `i` of the base with a different canonical URI prefix, the base
/// identity wins both ways. Expanding a CURIE under record `i`'s
/// canonical prefix still yields the base URI prefix, and compressing a
/// URI under the incoming URI prefix yields the CURIE under the base's
/// canonical prefix. The hypotheses require the merged registry to be
/// well formed, the base URI prefix not to be a prefix of the queried
/// URI, and no registered URI prefix to match the queried URI more
/// specifically than the incoming one.
pub proof fn lemma_chain_precedence(c: ConverterView, r: RecordView, i: int, id: Seq<char>)
    requires
        records_wf(c.records),
        0 <= i < c.records.len(),
        spec_merge_target(c.records, r) == Some(i),
        c.records[i].uri_prefix != r.uri_prefix,
        records_wf((spec_merge_record(c, r)->Ok_0).records),
        spec_split2(c.records[i].prefix + c.delimiter + id, c.delimiter) == Some(
            (c.records[i].prefix, id),
        ),
        id_valid(c.records[i], id),
        !is_prefix_of(c.records[i].uri_prefix, r.uri_prefix + id),
        forall|k: int, u: Seq<char>|
            0 <= k < (spec_merge_record(c, r)->Ok_0).records.len() && #[trigger] uri_matches(
                (spec_merge_record(c, r)->Ok_0).records[k],
                u,
                r.uri_prefix + id,
            ) ==> u.len() <= r.uri_prefix.len(),
    ensures
        spec_merge_record(c, r) is Ok,
        ({
            let m = spec_merge_record(c, r)->Ok_0;
            &&& spec_expand(m, c.records[i].prefix + c.delimiter + id) == Ok::<
                Seq<char>,
                crate::error::ErrorView,
            >(c.records[i].uri_prefix + id)
            &&& spec_compress(m, r.uri_prefix + id) == Ok::<Seq<char>, crate::error::ErrorView>(
                c.records[i].prefix + c.delimiter + id,
            )
        }),
{
    lemma_chain_merge_keeps_base(c, r, i);
    let m = spec_merge_record(c, r)->Ok_0;
    let p = c.records[i].prefix;
    let uri = r.uri_prefix + id;
    // expansion on the merged registry: the owner of p is still record i
    lemma_find_owner_props(m.records, p);
    assert(record_has_prefix(m.records[i], p));
    match spec_find_owner(m.records, p) {
        None => {
            assert(!record_has_prefix(m.records[i], p));
        },
        Some(i0) => {
            if i0 != i {
                if i0 < i {
                    assert(records_disjoint(m.records[i0], m.records[i]));
                } else {
                    assert(records_disjoint(m.records[i], m.records[i0]));
                }
                assert(record_has_prefix(m.records[i0], p));
            }
            assert(i0 == i);
        },
    }
    // the pattern is kept, so validation agrees with the base record
    assert(crate::pattern::spec_validate(m.records[i], id) == crate::pattern::spec_validate(
        c.records[i],
        id,
    ));
    // compression on the merged registry: the incoming URI prefix is the
    // longest match, through record i's new synonym
    assert(is_prefix_of(r.uri_prefix, uri)) by {
        assert(uri.subrange(0, r.uri_prefix.len() as int) =~= r.uri_prefix);
    }
    assert(uri_matches(m.records[i], r.uri_prefix, uri));
    lemma_longest_prefix_wins(m.records, i, r.uri_prefix, uri);
    // the longest matching synonym of record i has exactly the incoming
    // URI prefix's length
    let syns = m.records[i].uri_prefix_synonyms;
    lemma_longest_syn_len_props(syns, uri);
    let ll = longest_syn_len(syns, uri);
    assert(syns.contains(r.uri_prefix));
    let kk = choose|kk: int| 0 <= kk < syns.len() && syns[kk] == r.uri_prefix;
    assert(is_prefix_of(syns[kk], uri));
    assert(ll >= r.uri_prefix.len());
    let k2 = choose|k2: int|
        0 <= k2 < syns.len() && is_prefix_of(#[trigger] syns[k2], uri) && syns[k2].len() as int
            == ll;
    assert(syns.contains(syns[k2]));
    assert(record_has_uri_prefix(m.records[i], syns[k2]));
    assert(uri_matches(m.records[i], syns[k2], uri));
    assert(ll <= r.uri_prefix.len());
    assert(uri.skip(r.uri_prefix.len() as int) =~= id);
}

} // verus!

