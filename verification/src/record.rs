//! One registry entry: a canonical prefix, a canonical URI prefix, their
//! synonyms, and an optional validation pattern for local identifiers.

use vstd::prelude::*;

use crate::strutil::{concat2, is_prefix_of, str_eq, str_starts_with};

verus! {

/// Spec-level value of a [`Record`].
#[verifier::ext_equal]
pub struct RecordView {
    pub prefix: Seq<char>,
    pub uri_prefix: Seq<char>,
    pub prefix_synonyms: Seq<Seq<char>>,
    pub uri_prefix_synonyms: Seq<Seq<char>>,
    pub pattern: Option<Seq<char>>,
}

/// A CURIE record: its prefixes and URI prefixes, used by a converter to
/// resolve CURIEs and URIs.
#[derive(Debug)]
pub struct Record {
    pub prefix: String,
    pub uri_prefix: String,
    pub prefix_synonyms: Vec<String>,
    pub uri_prefix_synonyms: Vec<String>,
    pub pattern: Option<String>,
}

impl View for Record {
    type V = RecordView;

    open spec fn view(&self) -> RecordView {
        RecordView {
            prefix: self.prefix@,
            uri_prefix: self.uri_prefix@,
            prefix_synonyms: self.prefix_synonyms.deep_view(),
            uri_prefix_synonyms: self.uri_prefix_synonyms.deep_view(),
            pattern: self.pattern.deep_view(),
        }
    }
}

impl DeepView for Record {
    type V = RecordView;

    open spec fn deep_view(&self) -> RecordView {
        self.view()
    }
}

/// Clones a vector of strings, preserving the sequence of views.
pub fn clone_string_vec(v: &Vec<String>) -> (r: Vec<String>)
    ensures
        r.deep_view() == v.deep_view(),
{
    let mut r: Vec<String> = Vec::new();
    let mut i: usize = 0;
    while i < v.len()
        invariant
            i <= v.len(),
            r@.len() == i,
            forall|j: int| 0 <= j < i ==> r@[j]@ == v@[j]@,
        decreases v.len() - i,
    {
        r.push(v[i].clone());
        i = i + 1;
    }
    proof {
        assert(r.deep_view() =~= v.deep_view());
    }
    r
}

impl Clone for Record {
    /// Cloning preserves the record's value.
    fn clone(&self) -> (r: Self)
        ensures
            r@ == self@,
    {
        let r = Record {
            prefix: self.prefix.clone(),
            uri_prefix: self.uri_prefix.clone(),
            prefix_synonyms: clone_string_vec(&self.prefix_synonyms),
            uri_prefix_synonyms: clone_string_vec(&self.uri_prefix_synonyms),
            pattern: match &self.pattern {
                Some(p) => Some(p.clone()),
                None => None,
            },
        };
        proof {
            assert(r@.pattern == self@.pattern);
        }
        r
    }
}

impl Record {
    /// Creates a record from a prefix and a URI prefix, with no synonyms and
    /// no pattern.
    pub fn new(prefix: &str, uri_prefix: &str) -> (r: Self)
        ensures
            r@ == (RecordView {
                prefix: prefix@,
                uri_prefix: uri_prefix@,
                prefix_synonyms: Seq::empty(),
                uri_prefix_synonyms: Seq::empty(),
                pattern: None,
            }),
    {
        let r = Record {
            prefix: prefix.to_owned(),
            uri_prefix: uri_prefix.to_owned(),
            prefix_synonyms: Vec::new(),
            uri_prefix_synonyms: Vec::new(),
            pattern: None,
        };
        proof {
            assert(r@.prefix_synonyms =~= Seq::<Seq<char>>::empty());
            assert(r@.uri_prefix_synonyms =~= Seq::<Seq<char>>::empty());
        }
        r
    }

    /// Renders the record's prefixes and URI prefixes, one line each.
    pub fn to_string(&self) -> (r: String)
        ensures
            r@ == spec_record_display(self@),
    {
        let mut s = concat2("Prefix: ", self.prefix.as_str());
        s.append("\n");
        s.append("URI prefix: ");
        s.append(self.uri_prefix.as_str());
        s.append("\n");
        s.append("Prefix synonyms: ");
        append_joined(&mut s, &self.prefix_synonyms);
        s.append("\n");
        s.append("URI prefix synonyms: ");
        append_joined(&mut s, &self.uri_prefix_synonyms);
        s.append("\n");
        proof {
            assert(s@ =~= spec_record_display(self@));
        }
        s
    }
}

/// The items of `parts` joined with `", "` between consecutive items.
pub open spec fn spec_joined(parts: Seq<Seq<char>>) -> Seq<char>
    decreases parts.len(),
{
    if parts.len() == 0 {
        Seq::empty()
    } else if parts.len() == 1 {
        parts[0]
    } else {
        spec_joined(parts.drop_last()) + ", "@ + parts.last()
    }
}

/// The display form of a record: one line per field group.
pub open spec fn spec_record_display(r: RecordView) -> Seq<char> {
    "Prefix: "@ + r.prefix + "\n"@ + "URI prefix: "@ + r.uri_prefix + "\n"@ + "Prefix synonyms: "@
        + spec_joined(r.prefix_synonyms) + "\n"@ + "URI prefix synonyms: "@ + spec_joined(
        r.uri_prefix_synonyms,
    ) + "\n"@
}

/// Appends the strings of `parts` to `out`, joined with `", "`.
fn append_joined(out: &mut String, parts: &Vec<String>)
    ensures
        final(out)@ == old(out)@ + spec_joined(parts.deep_view()),
{
    let mut i: usize = 0;
    while i < parts.len()
        invariant
            i <= parts.len(),
            out@ == old(out)@ + spec_joined(parts.deep_view().subrange(0, i as int)),
        decreases parts.len() - i,
    {
        if i > 0 {
            out.append(", ");
        }
        out.append(parts[i].as_str());
        proof {
            let pv = parts.deep_view();
            assert(pv.subrange(0, i + 1int).drop_last() =~= pv.subrange(0, i as int));
            assert(pv.subrange(0, i + 1int).last() == pv[i as int]);
            assert(out@ =~= old(out)@ + spec_joined(pv.subrange(0, i + 1int)));
        }
        i = i + 1;
    }
    proof {
        assert(parts.deep_view().subrange(0, parts.len() as int) =~= parts.deep_view());
    }
}

/// Whether `p` is the record's canonical prefix or one of its prefix
/// synonyms.
pub open spec fn record_has_prefix(r: RecordView, p: Seq<char>) -> bool {
    r.prefix == p || r.prefix_synonyms.contains(p)
}

/// Whether `u` is the record's canonical URI prefix or one of its URI prefix
/// synonyms.
pub open spec fn record_has_uri_prefix(r: RecordView, u: Seq<char>) -> bool {
    r.uri_prefix == u || r.uri_prefix_synonyms.contains(u)
}

/// Whether `u` is a URI prefix of the record and a literal prefix of `uri`.
pub open spec fn uri_matches(r: RecordView, u: Seq<char>, uri: Seq<char>) -> bool {
    record_has_uri_prefix(r, u) && is_prefix_of(u, uri)
}

/// Whether `p` equals the canonical prefix or a synonym, decided by
/// character comparison.
pub fn record_has_prefix_exec(r: &Record, p: &str) -> (res: bool)
    ensures
        res == record_has_prefix(r@, p@),
{
    if str_eq(r.prefix.as_str(), p) {
        return true;
    }
    let mut k: usize = 0;
    while k < r.prefix_synonyms.len()
        invariant
            k <= r.prefix_synonyms.len(),
            forall|j: int| 0 <= j < k ==> r@.prefix_synonyms[j] != p@,
        decreases r.prefix_synonyms.len() - k,
    {
        if str_eq(r.prefix_synonyms[k].as_str(), p) {
            assert(r@.prefix_synonyms[k as int] == p@);
            return true;
        }
        k = k + 1;
    }
    assert(!r@.prefix_synonyms.contains(p@));
    false
}

/// Whether `u` equals the canonical URI prefix or a synonym, decided by
/// character comparison.
pub fn record_has_uri_prefix_exec(r: &Record, u: &str) -> (res: bool)
    ensures
        res == record_has_uri_prefix(r@, u@),
{
    if str_eq(r.uri_prefix.as_str(), u) {
        return true;
    }
    let mut k: usize = 0;
    while k < r.uri_prefix_synonyms.len()
        invariant
            k <= r.uri_prefix_synonyms.len(),
            forall|j: int| 0 <= j < k ==> r@.uri_prefix_synonyms[j] != u@,
        decreases r.uri_prefix_synonyms.len() - k,
    {
        if str_eq(r.uri_prefix_synonyms[k].as_str(), u) {
            assert(r@.uri_prefix_synonyms[k as int] == u@);
            return true;
        }
        k = k + 1;
    }
    assert(!r@.uri_prefix_synonyms.contains(u@));
    false
}

/// The length of the longest synonym in `syns` that is a prefix of `uri`,
/// or `-1` when none is.
pub open spec fn longest_syn_len(syns: Seq<Seq<char>>, uri: Seq<char>) -> int
    decreases syns.len(),
{
    if syns.len() == 0 {
        -1
    } else {
        let rest = longest_syn_len(syns.drop_last(), uri);
        if is_prefix_of(syns.last(), uri) && syns.last().len() as int > rest {
            syns.last().len() as int
        } else {
            rest
        }
    }
}

/// What `longest_syn_len` returns: the maximum length of a synonym that
/// prefixes `uri`, reached by some synonym, or `-1` when none prefixes it.
pub proof fn lemma_longest_syn_len_props(syns: Seq<Seq<char>>, uri: Seq<char>)
    ensures
        longest_syn_len(syns, uri) >= -1,
        forall|k: int|
            0 <= k < syns.len() && is_prefix_of(#[trigger] syns[k], uri) ==> syns[k].len() as int
                <= longest_syn_len(syns, uri),
        longest_syn_len(syns, uri) >= 0 ==> exists|k: int|
            0 <= k < syns.len() && is_prefix_of(#[trigger] syns[k], uri) && syns[k].len() as int
                == longest_syn_len(syns, uri),
        longest_syn_len(syns, uri) >= 0 ==> longest_syn_len(syns, uri) <= uri.len() as int,
    decreases syns.len(),
{
    if syns.len() > 0 {
        lemma_longest_syn_len_props(syns.drop_last(), uri);
        let dl = syns.drop_last();
        let rest = longest_syn_len(dl, uri);
        let l = longest_syn_len(syns, uri);
        assert(forall|k: int| 0 <= k < syns.len() - 1 ==> syns[k] == #[trigger] dl[k]);
        assert(syns.last() == syns[syns.len() - 1]);
        assert(l >= rest);
        assert forall|k: int|
            0 <= k < syns.len() && is_prefix_of(#[trigger] syns[k], uri) implies syns[k].len() as int
            <= l by {
            if k < syns.len() - 1 {
                assert(syns[k] == dl[k]);
                assert(is_prefix_of(dl[k], uri));
                assert(dl[k].len() as int <= rest);
            }
        }
        if l >= 0 {
            if is_prefix_of(syns.last(), uri) && syns.last().len() as int > rest {
                assert(is_prefix_of(syns[syns.len() - 1], uri) && syns[syns.len() - 1].len() as int
                    == l);
            } else {
                assert(l == rest);
                let k = choose|k: int|
                    0 <= k < dl.len() && is_prefix_of(#[trigger] dl[k], uri) && dl[k].len() as int
                        == rest;
                assert(syns[k] == dl[k]);
                assert(is_prefix_of(syns[k], uri) && syns[k].len() as int == l);
            }
        }
    }
}

/// The length of the longest URI prefix (canonical or synonym) of the record
/// that is a prefix of `uri`, or `-1` when none matches.
pub open spec fn rec_match_len(r: RecordView, uri: Seq<char>) -> int {
    let syn = longest_syn_len(r.uri_prefix_synonyms, uri);
    if is_prefix_of(r.uri_prefix, uri) && r.uri_prefix.len() as int > syn {
        r.uri_prefix.len() as int
    } else {
        syn
    }
}

/// What `rec_match_len` returns: the maximum length over all matching URI
/// prefixes of the record, or `-1` when no URI prefix of the record matches.
pub proof fn lemma_rec_match_len_props(r: RecordView, uri: Seq<char>)
    ensures
        rec_match_len(r, uri) >= -1,
        rec_match_len(r, uri) >= 0 <==> exists|u: Seq<char>| uri_matches(r, u, uri),
        forall|u: Seq<char>| uri_matches(r, u, uri) ==> u.len() as int <= rec_match_len(r, uri),
        rec_match_len(r, uri) >= 0 ==> exists|u: Seq<char>|
            uri_matches(r, u, uri) && u.len() as int == rec_match_len(r, uri),
{
    lemma_longest_syn_len_props(r.uri_prefix_synonyms, uri);
    let l = rec_match_len(r, uri);
    if l >= 0 {
        if is_prefix_of(r.uri_prefix, uri) && r.uri_prefix.len() as int == l {
            assert(uri_matches(r, r.uri_prefix, uri));
        } else {
            let k = choose|k: int|
                0 <= k < r.uri_prefix_synonyms.len() && is_prefix_of(
                    #[trigger] r.uri_prefix_synonyms[k],
                    uri,
                ) && r.uri_prefix_synonyms[k].len() as int == longest_syn_len(
                    r.uri_prefix_synonyms,
                    uri,
                );
            assert(r.uri_prefix_synonyms.contains(r.uri_prefix_synonyms[k]));
            assert(uri_matches(r, r.uri_prefix_synonyms[k], uri));
        }
    }
    assert forall|u: Seq<char>| uri_matches(r, u, uri) implies u.len() as int <= l by {
        if u != r.uri_prefix {
            let k = choose|k: int|
                0 <= k < r.uri_prefix_synonyms.len() && r.uri_prefix_synonyms[k] == u;
            assert(is_prefix_of(r.uri_prefix_synonyms[k], uri));
        }
    }
    if exists|u: Seq<char>| uri_matches(r, u, uri) {
        let u = choose|u: Seq<char>| uri_matches(r, u, uri);
        assert(u.len() as int <= l);
    }
}

/// The length of the longest synonym in `syns` that prefixes `uri`,
/// computed by scanning the synonyms in order.
pub fn syn_match_len(syns: &Vec<String>, uri: &str) -> (res: Option<usize>)
    ensures
        ({
            let l = longest_syn_len(syns.deep_view(), uri@);
            match res {
                Some(n) => n as int == l,
                None => l == -1,
            }
        }),
{
    let mut best: Option<usize> = None;
    let mut k: usize = 0;
    while k < syns.len()
        invariant
            k <= syns.len(),
            ({
                let l = longest_syn_len(syns.deep_view().subrange(0, k as int), uri@);
                match best {
                    Some(n) => n as int == l,
                    None => l == -1,
                }
            }),
        decreases syns.len() - k,
    {
        let syn = &syns[k];
        proof {
            let sv = syns.deep_view();
            assert(sv.subrange(0, k + 1int).drop_last() =~= sv.subrange(0, k as int));
            assert(sv.subrange(0, k + 1int).last() == sv[k as int]);
            assert(sv[k as int] == syns@[k as int]@);
        }
        if str_starts_with(uri, syn.as_str()) {
            let sl = syn.unicode_len();
            best = match best {
                Some(n) => if sl > n {
                    Some(sl)
                } else {
                    Some(n)
                },
                None => Some(sl),
            };
        }
        k = k + 1;
    }
    proof {
        assert(syns.deep_view().subrange(0, syns.len() as int) =~= syns.deep_view());
    }
    best
}

/// The longest matching URI prefix of a record, measured in characters,
/// computed by scanning the canonical URI prefix and every synonym.
pub fn record_match_len(r: &Record, uri: &str) -> (res: Option<usize>)
    ensures
        ({
            let l = rec_match_len(r@, uri@);
            match res {
                Some(n) => n as int == l,
                None => l == -1,
            }
        }),
{
    let best = syn_match_len(&r.uri_prefix_synonyms, uri);
    if str_starts_with(uri, r.uri_prefix.as_str()) {
        let cl = r.uri_prefix.unicode_len();
        match best {
            Some(n) => if cl > n {
                Some(cl)
            } else {
                Some(n)
            },
            None => Some(cl),
        }
    } else {
        best
    }
}

/// `s` with `x` appended, unless `s` already contains `x`; the
/// sequence-level meaning of inserting into a set of synonyms.
pub open spec fn seq_push_unique(s: Seq<Seq<char>>, x: Seq<char>) -> Seq<Seq<char>> {
    if s.contains(x) {
        s
    } else {
        s.push(x)
    }
}

/// `s` extended with every item of `xs` in order, skipping those already
/// present; the sequence-level meaning of extending a set of synonyms.
pub open spec fn seq_extend_unique(s: Seq<Seq<char>>, xs: Seq<Seq<char>>) -> Seq<Seq<char>>
    decreases xs.len(),
{
    if xs.len() == 0 {
        s
    } else {
        seq_extend_unique(seq_push_unique(s, xs[0]), xs.drop_first())
    }
}

/// Whether some string in `v` equals `x`, by character comparison.
pub fn contains_str(v: &Vec<String>, x: &str) -> (b: bool)
    ensures
        b == v.deep_view().contains(x@),
{
    let mut k: usize = 0;
    while k < v.len()
        invariant
            k <= v.len(),
            forall|j: int| 0 <= j < k ==> v.deep_view()[j] != x@,
        decreases v.len() - k,
    {
        if str_eq(v[k].as_str(), x) {
            assert(v.deep_view()[k as int] == x@);
            return true;
        }
        k = k + 1;
    }
    assert(!v.deep_view().contains(x@));
    false
}

/// Appends `x` unless it is already present.
pub fn push_unique(v: &mut Vec<String>, x: String)
    ensures
        final(v).deep_view() == seq_push_unique(old(v).deep_view(), x@),
{
    let ghost prev = v.deep_view();
    if !contains_str(v, x.as_str()) {
        v.push(x);
        proof {
            assert(v.deep_view() =~= prev.push(x@));
        }
    }
}

/// Appends every string of `xs` not already present, in order.
pub fn extend_unique(v: &mut Vec<String>, xs: &Vec<String>)
    ensures
        final(v).deep_view() == seq_extend_unique(old(v).deep_view(), xs.deep_view()),
{
    let ghost total = seq_extend_unique(old(v).deep_view(), xs.deep_view());
    proof {
        assert(xs.deep_view().skip(0) =~= xs.deep_view());
    }
    let mut k: usize = 0;
    while k < xs.len()
        invariant
            k <= xs.len(),
            total == seq_extend_unique(v.deep_view(), xs.deep_view().skip(k as int)),
        decreases xs.len() - k,
    {
        proof {
            let xv = xs.deep_view();
            assert(xv.skip(k as int).drop_first() =~= xv.skip(k + 1int));
            assert(xv.skip(k as int)[0] == xv[k as int]);
            assert(xv[k as int] == xs@[k as int]@);
        }
        push_unique(v, xs[k].clone());
        k = k + 1;
    }
    proof {
        assert(xs.deep_view().skip(xs.len() as int) =~= Seq::<Seq<char>>::empty());
    }
}

/// What compression strips from the front of `uri`: the canonical URI
/// prefix when `uri` starts with it, otherwise the longest URI prefix
/// synonym that prefixes `uri`; `None` when neither applies.
pub open spec fn spec_strip(r: RecordView, uri: Seq<char>) -> Option<Seq<char>> {
    if is_prefix_of(r.uri_prefix, uri) {
        Some(uri.skip(r.uri_prefix.len() as int))
    } else {
        let l = longest_syn_len(r.uri_prefix_synonyms, uri);
        if l >= 0 {
            Some(uri.skip(l))
        } else {
            None
        }
    }
}

/// Strips the record's matching URI prefix from the front of `uri`,
/// trying the canonical URI prefix first and falling back to the longest
/// matching synonym.
pub fn strip_uri_prefix(r: &Record, uri: &str) -> (res: Option<String>)
    ensures
        ({
            match spec_strip(r@, uri@) {
                Some(id) => res matches Some(s) && s@ == id,
                None => res is None,
            }
        }),
{
    let ulen = uri.unicode_len();
    if str_starts_with(uri, r.uri_prefix.as_str()) {
        let plen = r.uri_prefix.unicode_len();
        let id = uri.substring_char(plen, ulen);
        proof {
            assert(id@ =~= uri@.skip(r@.uri_prefix.len() as int));
        }
        Some(id.to_owned())
    } else {
        match syn_match_len(&r.uri_prefix_synonyms, uri) {
            Some(l) => {
                proof {
                    lemma_longest_syn_len_props(r@.uri_prefix_synonyms, uri@);
                }
                let id = uri.substring_char(l, ulen);
                proof {
                    assert(id@ =~= uri@.skip(l as int));
                }
                Some(id.to_owned())
            },
            None => None,
        }
    }
}

} // verus!
