//! JSON rendering of the registry: the lossless extended prefix map (an
//! array of record objects) and the JSON-LD-shaped context object. Both
//! are rendered character by character against a spec of the exact output.

use vstd::prelude::*;

use crate::record::{Record, RecordView};
use crate::strutil::push_char;

verus! {

/// The hexadecimal digit `d`, lower case.
pub open spec fn hex_digit(d: int) -> char {
    if d < 10 {
        ((48 + d) as u8) as char
    } else {
        ((87 + d) as u8) as char
    }
}

/// The JSON escape of one character: quote and backslash are escaped,
/// control characters get their short escapes or a `\u00XX` form, and
/// every other character stands as itself.
pub open spec fn json_escape_char(c: char) -> Seq<char> {
    if c == '"' {
        seq!['\\', '"']
    } else if c == '\\' {
        seq!['\\', '\\']
    } else if c == '\u{8}' {
        seq!['\\', 'b']
    } else if c == '\u{9}' {
        seq!['\\', 't']
    } else if c == '\u{A}' {
        seq!['\\', 'n']
    } else if c == '\u{C}' {
        seq!['\\', 'f']
    } else if c == '\u{D}' {
        seq!['\\', 'r']
    } else if (c as u32) < 32 {
        seq!['\\', 'u', '0', '0', hex_digit(c as u32 as int / 16), hex_digit(c as u32 as int % 16)]
    } else {
        seq![c]
    }
}

/// The JSON escape of a whole string body.
pub open spec fn json_escape(s: Seq<char>) -> Seq<char>
    decreases s.len(),
{
    if s.len() == 0 {
        Seq::empty()
    } else {
        json_escape(s.drop_last()) + json_escape_char(s.last())
    }
}

/// A JSON string literal: the escaped body between quotes.
pub open spec fn json_string(s: Seq<char>) -> Seq<char> {
    seq!['"'] + json_escape(s) + seq!['"']
}

/// The items joined with a comma between consecutive items.
pub open spec fn comma_join(items: Seq<Seq<char>>) -> Seq<char>
    decreases items.len(),
{
    if items.len() == 0 {
        Seq::empty()
    } else if items.len() == 1 {
        items[0]
    } else {
        comma_join(items.drop_last()) + seq![','] + items.last()
    }
}

/// Each string rendered as a JSON string literal.
pub open spec fn json_string_seq(items: Seq<Seq<char>>) -> Seq<Seq<char>> {
    items.map_values(|s: Seq<char>| json_string(s))
}

/// One record as a JSON object, fields in declaration order.
pub open spec fn json_record(r: RecordView) -> Seq<char> {
    "{\"prefix\":"@ + json_string(r.prefix) + ",\"uri_prefix\":"@ + json_string(r.uri_prefix)
        + ",\"prefix_synonyms\":["@ + comma_join(json_string_seq(r.prefix_synonyms)) + "]"@
        + ",\"uri_prefix_synonyms\":["@ + comma_join(json_string_seq(r.uri_prefix_synonyms))
        + "]"@ + ",\"pattern\":"@ + (match r.pattern {
        None => "null"@,
        Some(p) => json_string(p),
    }) + "}"@
}

/// Each record rendered as a JSON object.
pub open spec fn json_records_rendered(recs: Seq<RecordView>) -> Seq<Seq<char>> {
    recs.map_values(|r: RecordView| json_record(r))
}

/// The lossless extended prefix map: a JSON array of record objects in
/// insertion order.
pub open spec fn json_extended_prefix_map(recs: Seq<RecordView>) -> Seq<char> {
    "["@ + comma_join(json_records_rendered(recs)) + "]"@
}

/// One context entry `"key":"uri"`.
pub open spec fn jsonld_entry(key: Seq<char>, value: Seq<char>) -> Seq<char> {
    json_string(key) + seq![':'] + json_string(value)
}

/// The context entries of the synonyms, each mapped to `value`.
pub open spec fn jsonld_syn_entries(syns: Seq<Seq<char>>, value: Seq<char>) -> Seq<Seq<char>>
    decreases syns.len(),
{
    if syns.len() == 0 {
        Seq::empty()
    } else {
        jsonld_syn_entries(syns.drop_last(), value).push(jsonld_entry(syns.last(), value))
    }
}

/// The context entries of one record: its canonical prefix and each
/// prefix synonym, all mapped to the canonical URI prefix.
pub open spec fn jsonld_pairs(r: RecordView) -> Seq<Seq<char>> {
    seq![jsonld_entry(r.prefix, r.uri_prefix)] + jsonld_syn_entries(
        r.prefix_synonyms,
        r.uri_prefix,
    )
}

/// The context entries of all records, in insertion order.
pub open spec fn all_jsonld_pairs(recs: Seq<RecordView>) -> Seq<Seq<char>>
    decreases recs.len(),
{
    if recs.len() == 0 {
        Seq::empty()
    } else {
        all_jsonld_pairs(recs.drop_last()) + jsonld_pairs(recs.last())
    }
}

/// The JSON-LD-shaped context object over all prefixes and synonyms.
pub open spec fn jsonld_context(recs: Seq<RecordView>) -> Seq<char> {
    "{\"@context\":{"@ + comma_join(all_jsonld_pairs(recs)) + "}}"@
}

/// Appends the lower-case hexadecimal digit `d`.
fn push_hex_digit(out: &mut String, d: u32)
    requires
        d < 16,
    ensures
        final(out)@ == old(out)@.push(hex_digit(d as int)),
{
    if d < 10 {
        push_char(out, (48 + d as u8) as char);
    } else {
        push_char(out, (87 + d as u8) as char);
    }
}

/// Appends the JSON escape of the body of `s`.
fn append_escaped(out: &mut String, s: &str)
    ensures
        final(out)@ == old(out)@ + json_escape(s@),
{
    let n = s.unicode_len();
    proof {
        assert(s@.subrange(0, 0) =~= Seq::<char>::empty());
        assert(old(out)@ + json_escape(s@.subrange(0, 0)) =~= old(out)@);
    }
    let mut i: usize = 0;
    while i < n
        invariant
            i <= n,
            n == s@.len(),
            out@ == old(out)@ + json_escape(s@.subrange(0, i as int)),
        decreases n - i,
    {
        proof {
            assert(s@.subrange(0, i + 1int).drop_last() =~= s@.subrange(0, i as int));
            assert(s@.subrange(0, i + 1int).last() == s@[i as int]);
        }
        let c = s.get_char(i);
        if c == '"' {
            push_char(out, '\\');
            push_char(out, '"');
        } else if c == '\\' {
            push_char(out, '\\');
            push_char(out, '\\');
        } else if c == '\u{8}' {
            push_char(out, '\\');
            push_char(out, 'b');
        } else if c == '\u{9}' {
            push_char(out, '\\');
            push_char(out, 't');
        } else if c == '\u{A}' {
            push_char(out, '\\');
            push_char(out, 'n');
        } else if c == '\u{C}' {
            push_char(out, '\\');
            push_char(out, 'f');
        } else if c == '\u{D}' {
            push_char(out, '\\');
            push_char(out, 'r');
        } else if (c as u32) < 32 {
            push_char(out, '\\');
            push_char(out, 'u');
            push_char(out, '0');
            push_char(out, '0');
            push_hex_digit(out, c as u32 / 16);
            push_hex_digit(out, c as u32 % 16);
        } else {
            push_char(out, c);
        }
        proof {
            assert(out@ =~= old(out)@ + json_escape(s@.subrange(0, i + 1int)));
        }
        i = i + 1;
    }
    proof {
        assert(s@.subrange(0, n as int) =~= s@);
    }
}

/// Appends `s` as a JSON string literal.
fn append_json_string(out: &mut String, s: &str)
    ensures
        final(out)@ == old(out)@ + json_string(s@),
{
    push_char(out, '"');
    append_escaped(out, s);
    push_char(out, '"');
    proof {
        assert(out@ =~= old(out)@ + json_string(s@));
    }
}

/// Appends the rendered entries joined with commas.
fn append_comma_join(out: &mut String, entries: &Vec<String>)
    ensures
        final(out)@ == old(out)@ + comma_join(entries.deep_view()),
{
    let mut k: usize = 0;
    proof {
        assert(entries.deep_view().subrange(0, 0) =~= Seq::<Seq<char>>::empty());
        assert(old(out)@ + comma_join(entries.deep_view().subrange(0, 0)) =~= old(out)@);
    }
    while k < entries.len()
        invariant
            k <= entries.len(),
            out@ == old(out)@ + comma_join(entries.deep_view().subrange(0, k as int)),
        decreases entries.len() - k,
    {
        proof {
            let ev = entries.deep_view();
            assert(ev.subrange(0, k + 1int).drop_last() =~= ev.subrange(0, k as int));
            assert(ev.subrange(0, k + 1int).last() == ev[k as int]);
            assert(ev[k as int] == entries@[k as int]@);
        }
        if k > 0 {
            push_char(out, ',');
        }
        out.append(entries[k].as_str());
        proof {
            assert(out@ =~= old(out)@ + comma_join(entries.deep_view().subrange(0, k + 1int)));
        }
        k = k + 1;
    }
    proof {
        assert(entries.deep_view().subrange(0, entries.len() as int) =~= entries.deep_view());
    }
}

/// Renders each string of `v` as a JSON string literal.
fn render_string_seq(v: &Vec<String>) -> (r: Vec<String>)
    ensures
        r.deep_view() == json_string_seq(v.deep_view()),
{
    let mut out: Vec<String> = Vec::new();
    let mut k: usize = 0;
    while k < v.len()
        invariant
            k <= v.len(),
            out@.len() == k,
            forall|j: int| 0 <= j < k ==> out@[j]@ == json_string(v.deep_view()[j]),
        decreases v.len() - k,
    {
        let mut s = String::new();
        append_json_string(&mut s, v[k].as_str());
        proof {
            assert(s@ =~= json_string(v.deep_view()[k as int]));
        }
        out.push(s);
        k = k + 1;
    }
    proof {
        assert(out.deep_view() =~= json_string_seq(v.deep_view()));
    }
    out
}

/// Renders one record as a JSON object.
fn render_record(r: &Record) -> (res: String)
    ensures
        res@ == json_record(r@),
{
    let mut out = String::new();
    out.append("{\"prefix\":");
    append_json_string(&mut out, r.prefix.as_str());
    out.append(",\"uri_prefix\":");
    append_json_string(&mut out, r.uri_prefix.as_str());
    out.append(",\"prefix_synonyms\":[");
    let rendered = render_string_seq(&r.prefix_synonyms);
    append_comma_join(&mut out, &rendered);
    out.append("]");
    out.append(",\"uri_prefix_synonyms\":[");
    let rendered = render_string_seq(&r.uri_prefix_synonyms);
    append_comma_join(&mut out, &rendered);
    out.append("]");
    out.append(",\"pattern\":");
    match &r.pattern {
        None => out.append("null"),
        Some(p) => append_json_string(&mut out, p.as_str()),
    }
    out.append("}");
    proof {
        assert(out@ =~= json_record(r@));
    }
    out
}

/// Renders the registry as the extended prefix map JSON array.
pub fn render_extended_prefix_map(records: &Vec<Record>) -> (res: String)
    ensures
        res@ == json_extended_prefix_map(records.deep_view()),
{
    let mut rendered: Vec<String> = Vec::new();
    let mut i: usize = 0;
    while i < records.len()
        invariant
            i <= records.len(),
            rendered@.len() == i,
            forall|j: int| 0 <= j < i ==> rendered@[j]@ == json_record(records.deep_view()[j]),
        decreases records.len() - i,
    {
        let s = render_record(&records[i]);
        proof {
            assert(records.deep_view()[i as int] == records@[i as int]@);
        }
        rendered.push(s);
        i = i + 1;
    }
    proof {
        assert(rendered.deep_view() =~= json_records_rendered(records.deep_view()));
    }
    let mut out = String::new();
    out.append("[");
    append_comma_join(&mut out, &rendered);
    out.append("]");
    proof {
        assert(out@ =~= json_extended_prefix_map(records.deep_view()));
    }
    out
}

/// Appends the context entries of one record to the entry list.
fn push_jsonld_pairs(entries: &mut Vec<String>, r: &Record)
    ensures
        final(entries).deep_view() == old(entries).deep_view() + jsonld_pairs(r@),
{
    let ghost prev = entries.deep_view();
    let mut s = String::new();
    append_json_string(&mut s, r.prefix.as_str());
    push_char(&mut s, ':');
    append_json_string(&mut s, r.uri_prefix.as_str());
    proof {
        assert(s@ =~= jsonld_entry(r@.prefix, r@.uri_prefix));
    }
    entries.push(s);
    proof {
        assert(entries.deep_view() =~= prev + seq![jsonld_entry(r@.prefix, r@.uri_prefix)]);
    }
    let mut k: usize = 0;
    while k < r.prefix_synonyms.len()
        invariant
            k <= r.prefix_synonyms.len(),
            entries.deep_view() =~= prev + seq![jsonld_entry(r@.prefix, r@.uri_prefix)]
                + jsonld_syn_entries(r@.prefix_synonyms.subrange(0, k as int), r@.uri_prefix),
        decreases r.prefix_synonyms.len() - k,
    {
        let mut s = String::new();
        append_json_string(&mut s, r.prefix_synonyms[k].as_str());
        push_char(&mut s, ':');
        append_json_string(&mut s, r.uri_prefix.as_str());
        proof {
            assert(r@.prefix_synonyms[k as int] == r.prefix_synonyms@[k as int]@);
            assert(s@ =~= jsonld_entry(r@.prefix_synonyms[k as int], r@.uri_prefix));
        }
        let ghost p2 = entries.deep_view();
        let ghost sv = s@;
        entries.push(s);
        proof {
            assert(entries.deep_view() =~= p2.push(sv));
            let syns = r@.prefix_synonyms;
            assert(syns.subrange(0, k + 1int).drop_last() =~= syns.subrange(0, k as int));
            assert(syns.subrange(0, k + 1int).last() == syns[k as int]);
            assert(entries.deep_view() =~= prev + seq![jsonld_entry(r@.prefix, r@.uri_prefix)]
                + jsonld_syn_entries(syns.subrange(0, k + 1int), r@.uri_prefix));
        }
        k = k + 1;
    }
    proof {
        assert(r@.prefix_synonyms.subrange(0, r.prefix_synonyms.len() as int)
            =~= r@.prefix_synonyms);
        assert(entries.deep_view() =~= old(entries).deep_view() + jsonld_pairs(r@));
    }
}

/// Renders the registry as a JSON-LD-shaped context object mapping every
/// prefix and prefix synonym to its canonical URI prefix.
pub fn render_jsonld(records: &Vec<Record>) -> (res: String)
    ensures
        res@ == jsonld_context(records.deep_view()),
{
    let mut entries: Vec<String> = Vec::new();
    proof {
        assert(entries.deep_view() =~= Seq::<Seq<char>>::empty());
        assert(records.deep_view().subrange(0, 0) =~= Seq::<RecordView>::empty());
    }
    let mut i: usize = 0;
    while i < records.len()
        invariant
            i <= records.len(),
            entries.deep_view() == all_jsonld_pairs(records.deep_view().subrange(0, i as int)),
        decreases records.len() - i,
    {
        proof {
            let rv = records.deep_view();
            assert(rv.subrange(0, i + 1int).drop_last() =~= rv.subrange(0, i as int));
            assert(rv.subrange(0, i + 1int).last() == rv[i as int]);
            assert(rv[i as int] == records@[i as int]@);
        }
        push_jsonld_pairs(&mut entries, &records[i]);
        i = i + 1;
    }
    proof {
        assert(records.deep_view().subrange(0, records.len() as int) =~= records.deep_view());
    }
    let mut out = String::new();
    out.append("{\"@context\":{");
    append_comma_join(&mut out, &entries);
    out.append("}}");
    proof {
        assert(out@ =~= jsonld_context(records.deep_view()));
    }
    out
}

} // verus!
