//! The `meta.toml` file of a note: how metadata is written as a TOML
//! document, and how it is read back.
//!
//! The document is what `toml` writes for a map that holds `id`, `ctime`
//! and `mtime` as strings, `aliases` as an array of strings, and then every
//! user-defined key at the top level.
use vstd::prelude::*;
use crate::extra::{ExtraTable, EntryView, inserted, lookup, sorted, lemma_lookup_first, lemma_lookup_absent, lemma_inserted_last};
use crate::identifier::lemma_parse_text;
use crate::text::seq_lt;
use crate::identifier::Identifier;
use crate::note::{Metadata, MetadataView, is_reserved, is_reserved_key, strings_view};
use crate::text::{chars_of, concat, owned};
use crate::timestamp::{Timestamp, rfc3339_text, rfc3339_instant};
use crate::toml_value::{ShapeView, TomlShape, TomlValue, TomlValueView, entries_view, parse_toml_table, string_value_view, strings_value_view, toml_document, toml_document_text, toml_string_value, toml_strings_value, toml_table_of};

verus! {

/// The entries of `meta.toml` for the metadata `m` whose instants have the
/// RFC 3339 texts `c` and `t`: `id`, `ctime` and `mtime` as strings,
/// `aliases` as an array of strings, and then the user-defined entries.
pub open spec fn meta_entries(m: MetadataView, c: Seq<char>, t: Seq<char>) -> Seq<
    (Seq<char>, TomlValueView),
> {
    seq![
        ("id"@, string_value_view(m.id.text())),
        ("ctime"@, string_value_view(c)),
        ("mtime"@, string_value_view(t)),
        ("aliases"@, strings_value_view(m.aliases)),
    ] + m.extra
}

/// The text of `meta.toml` for the metadata `m`, or why it cannot be
/// written: the document that `toml` writes for the entries
/// [`meta_entries`]; a creation or modification time that has no RFC 3339
/// text cannot be written.
pub open spec fn meta_text(m: MetadataView) -> Result<Seq<char>, Seq<char>> {
    match (rfc3339_text(m.ctime.secs, m.ctime.nanos), rfc3339_text(m.mtime.secs, m.mtime.nanos)) {
        (Some(c), Some(t)) => toml_document_text(meta_entries(m, c, t)),
        (None, _) => Err("ctime cannot be written as an RFC 3339 date-time"@),
        (Some(_), None) => Err("mtime cannot be written as an RFC 3339 date-time"@),
    }
}

/// The string under `key` in the entries `s`.
pub open spec fn string_field(s: Seq<EntryView>, key: Seq<char>) -> Result<Seq<char>, Seq<char>> {
    match lookup(s, key) {
        None => Err("missing field `"@ + key + "`"@),
        Some(v) => match v.shape {
            ShapeView::Str(x) => Ok(x),
            _ => Err("field `"@ + key + "` is not a string"@),
        },
    }
}

/// The instant written under `key` in the entries `s`.
pub open spec fn time_field(s: Seq<EntryView>, key: Seq<char>) -> Result<Timestamp, Seq<char>> {
    match string_field(s, key) {
        Err(e) => Err(e),
        Ok(x) => match rfc3339_instant(x) {
            Some(p) => Ok(Timestamp { secs: p.0, nanos: p.1 }),
            None => Err("field `"@ + key + "` is not an RFC 3339 date-time"@),
        },
    }
}

/// Whether every item of an array is a string.
pub open spec fn all_strings(items: Seq<Option<Seq<char>>>) -> bool {
    forall|i: int| 0 <= i < items.len() ==> (#[trigger] items[i]) is Some
}

/// The aliases written in the entries `s`.
pub open spec fn aliases_field(s: Seq<EntryView>) -> Result<Seq<Seq<char>>, Seq<char>> {
    match lookup(s, "aliases"@) {
        None => Err("missing field `aliases`"@),
        Some(v) => match v.shape {
            ShapeView::Array(items) => if all_strings(items) {
                Ok(items.map_values(|o: Option<Seq<char>>| o->Some_0))
            } else {
                Err("field `aliases` is not an array of strings"@)
            },
            _ => Err("field `aliases` is not an array of strings"@),
        },
    }
}

/// The user-defined metadata in the entries `s`: every entry whose key is
/// not reserved, inserted in order into an empty table.
pub open spec fn extra_of(s: Seq<EntryView>) -> Seq<EntryView>
    decreases s.len(),
{
    if s.len() == 0 {
        seq![]
    } else if is_reserved(s.last().0) {
        extra_of(s.drop_last())
    } else {
        inserted(extra_of(s.drop_last()), s.last().0, s.last().1)
    }
}

/// The metadata that the entries `s` of a TOML document describe, or why
/// they describe none.
pub open spec fn meta_of_entries(s: Seq<EntryView>) -> Result<MetadataView, Seq<char>> {
    match string_field(s, "id"@) {
        Err(e) => Err(e),
        Ok(x) => match Identifier::parsed(x) {
            None => Err("field `id` is not a valid identifier"@),
            Some(id) => match time_field(s, "ctime"@) {
                Err(e) => Err(e),
                Ok(ctime) => match time_field(s, "mtime"@) {
                    Err(e) => Err(e),
                    Ok(mtime) => match aliases_field(s) {
                        Err(e) => Err(e),
                        Ok(aliases) => Ok(
                            MetadataView { id, ctime, mtime, aliases, extra: extra_of(s) },
                        ),
                    },
                },
            },
        },
    }
}

/// The metadata that the text of a `meta.toml` describes, or why it
/// describes none: the error of the TOML reader, or the first field that
/// is missing or malformed.
pub open spec fn meta_of_text(text: Seq<char>) -> Result<MetadataView, Seq<char>> {
    match toml_table_of(text) {
        Err(e) => Err(e),
        Ok(s) => meta_of_entries(s),
    }
}

/// The entries of `s` whose keys are not reserved, in order.
pub open spec fn unreserved(s: Seq<EntryView>) -> Seq<EntryView>
    decreases s.len(),
{
    if s.len() == 0 {
        seq![]
    } else if is_reserved(s.last().0) {
        unreserved(s.drop_last())
    } else {
        unreserved(s.drop_last()).push(s.last())
    }
}

proof fn lemma_unreserved_bound(s: Seq<EntryView>, b: Seq<char>)
    requires
        forall|j: int| 0 <= j < s.len() ==> seq_lt(#[trigger] s[j].0, b),
    ensures
        forall|i: int| 0 <= i < unreserved(s).len() ==> seq_lt(#[trigger] unreserved(s)[i].0, b),
    decreases s.len(),
{
    if s.len() > 0 {
        let t = s.drop_last();
        assert forall|j: int| 0 <= j < t.len() implies seq_lt(#[trigger] t[j].0, b) by {
            assert(t[j] == s[j]);
        }
        lemma_unreserved_bound(t, b);
        assert(seq_lt(s[s.len() - 1].0, b));
        let u = unreserved(s);
        let ut = unreserved(t);
        assert forall|i: int| 0 <= i < u.len() implies seq_lt(#[trigger] u[i].0, b) by {
            if !is_reserved(s.last().0) && i == ut.len() {
                assert(u[i] == s.last());
            } else {
                assert(u[i] == ut[i]);
            }
        }
    }
}

/// Reading the entries of a document in key order keeps its unreserved
/// entries as they are.
pub proof fn lemma_extra_of_sorted(s: Seq<EntryView>)
    requires
        sorted(s),
    ensures
        extra_of(s) == unreserved(s),
    decreases s.len(),
{
    if s.len() > 0 {
        let t = s.drop_last();
        assert(sorted(t)) by {
            assert forall|a: int, b: int| 0 <= a < b < t.len() implies seq_lt(
                #[trigger] t[a].0,
                #[trigger] t[b].0,
            ) by {
                assert(t[a] == s[a] && t[b] == s[b]);
            }
        }
        lemma_extra_of_sorted(t);
        if !is_reserved(s.last().0) {
            assert forall|j: int| 0 <= j < t.len() implies seq_lt(#[trigger] t[j].0, s.last().0) by {
                assert(t[j] == s[j]);
            }
            lemma_unreserved_bound(t, s.last().0);
            lemma_inserted_last(unreserved(t), s.last().0, s.last().1);
        }
    }
}

/// Reading back what was written: when the TOML reader gives, in key
/// order, entries that hold the identifier's text as `id`, texts of the
/// metadata's instants as `ctime` and `mtime`, the aliases as an array of
/// strings, and exactly the user-defined entries besides, reading them gives
/// back the metadata.
pub proof fn lemma_read_back(s: Seq<EntryView>, m: MetadataView, c: Seq<char>, t: Seq<char>)
    requires
        sorted(s),
        unreserved(s) == m.extra,
        lookup(s, "id"@) matches Some(v) && v.shape == ShapeView::Str(m.id.text()),
        lookup(s, "ctime"@) matches Some(v) && v.shape == ShapeView::Str(c),
        rfc3339_instant(c) == Some((m.ctime.secs, m.ctime.nanos)),
        lookup(s, "mtime"@) matches Some(v) && v.shape == ShapeView::Str(t),
        rfc3339_instant(t) == Some((m.mtime.secs, m.mtime.nanos)),
        lookup(s, "aliases"@) matches Some(v) && v.shape == ShapeView::Array(
            m.aliases.map_values(|a: Seq<char>| Some(a)),
        ),
    ensures
        meta_of_entries(s) == Ok::<MetadataView, Seq<char>>(m),
{
    lemma_parse_text(m.id);
    lemma_extra_of_sorted(s);
    let items = m.aliases.map_values(|a: Seq<char>| Some(a));
    assert(all_strings(items));
    assert(items.map_values(|o: Option<Seq<char>>| o->Some_0) =~= m.aliases);
}

/// Writes the metadata `m` as the text of a `meta.toml`.
pub fn render_metadata(m: &Metadata) -> (r: Result<String, String>)
    ensures
        match r {
            Ok(s) => meta_text(m@) == Ok::<Seq<char>, Seq<char>>(s@),
            Err(e) => meta_text(m@) == Err::<Seq<char>, Seq<char>>(e@),
        },
{
    let ctime = m.ctime().to_rfc3339();
    let mtime = m.mtime().to_rfc3339();
    let (c, t) = match (ctime, mtime) {
        (Some(c), Some(t)) => (c, t),
        (None, _) => {
            return Err(owned("ctime cannot be written as an RFC 3339 date-time"));
        },
        (Some(_), None) => {
            return Err(owned("mtime cannot be written as an RFC 3339 date-time"));
        },
    };
    let id = m.id().to_string();
    let mut entries: Vec<(String, TomlValue)> = Vec::new();
    entries.push((owned("id"), toml_string_value(id.as_str())));
    entries.push((owned("ctime"), toml_string_value(c.as_str())));
    entries.push((owned("mtime"), toml_string_value(t.as_str())));
    entries.push((owned("aliases"), toml_strings_value(m.aliases())));
    let ghost head = entries_view(entries@);
    assert(head =~= meta_entries(m@, c@, t@).take(4));
    let extra = m.extra().entries();
    let mut i: usize = 0;
    while i < extra.len()
        invariant
            i <= extra@.len(),
            entries_view(extra@) == m@.extra,
            head == meta_entries(m@, c@, t@).take(4),
            entries_view(entries@) == head + m@.extra.take(i as int),
        decreases extra@.len() - i,
    {
        let (k, v) = &extra[i];
        assert(entries_view(extra@)[i as int] == (k@, v@));
        let ghost before = entries_view(entries@);
        entries.push((owned(k.as_str()), v.clone()));
        assert(entries_view(entries@) =~= before.push(m@.extra[i as int]));
        assert(m@.extra.take(i + 1) =~= m@.extra.take(i as int).push(m@.extra[i as int]));
        assert(entries_view(entries@) =~= head + m@.extra.take(i + 1));
        i = i + 1;
    }
    assert(m@.extra.take(m@.extra.len() as int) =~= m@.extra);
    assert(entries_view(entries@) =~= meta_entries(m@, c@, t@));
    toml_document(&entries)
}

/// The index of the first entry of `key`.
pub(crate) fn find_entry(entries: &Vec<(String, TomlValue)>, key: &str) -> (r: Option<usize>)
    ensures
        r matches Some(i) ==> i < entries@.len() && lookup(entries_view(entries@), key@) == Some(
            entries@[i as int].1@,
        ),
        r is None ==> lookup(entries_view(entries@), key@) is None,
{
    let k = chars_of(key);
    let ghost s = entries_view(entries@);
    let mut i: usize = 0;
    while i < entries.len()
        invariant
            i <= entries@.len(),
            s == entries_view(entries@),
            k@ == key@,
            forall|j: int| 0 <= j < i ==> #[trigger] s[j].0 != key@,
        decreases entries@.len() - i,
    {
        let e = chars_of(entries[i].0.as_str());
        assert(s[i as int] == (entries@[i as int].0@, entries@[i as int].1@));
        if crate::text::chars_eq(&e, &k) {
            proof {
                lemma_lookup_first(s, key@, i as int);
            }
            return Some(i);
        }
        i = i + 1;
    }
    proof {
        lemma_lookup_absent(s, key@);
    }
    None
}

fn string_field_of(entries: &Vec<(String, TomlValue)>, key: &str) -> (r: Result<String, String>)
    ensures
        match r {
            Ok(x) => string_field(entries_view(entries@), key@) == Ok::<Seq<char>, Seq<char>>(x@),
            Err(e) => string_field(entries_view(entries@), key@) == Err::<Seq<char>, Seq<char>>(
                e@,
            ),
        },
{
    match find_entry(entries, key) {
        None => Err(concat(concat(owned("missing field `"), key), "`")),
        Some(i) => match entries[i].1.shape() {
            TomlShape::Str(x) => Ok(x.clone()),
            _ => Err(concat(concat(owned("field `"), key), "` is not a string")),
        },
    }
}

fn time_field_of(entries: &Vec<(String, TomlValue)>, key: &str) -> (r: Result<Timestamp, String>)
    ensures
        match r {
            Ok(t) => time_field(entries_view(entries@), key@) == Ok::<Timestamp, Seq<char>>(t),
            Err(e) => time_field(entries_view(entries@), key@) == Err::<Timestamp, Seq<char>>(e@),
        },
{
    match string_field_of(entries, key) {
        Err(e) => Err(e),
        Ok(x) => match Timestamp::parse_rfc3339(x.as_str()) {
            Some(t) => Ok(t),
            None => Err(concat(concat(owned("field `"), key), "` is not an RFC 3339 date-time")),
        },
    }
}

fn aliases_field_of(entries: &Vec<(String, TomlValue)>) -> (r: Result<Vec<String>, String>)
    ensures
        match r {
            Ok(a) => aliases_field(entries_view(entries@)) == Ok::<Seq<Seq<char>>, Seq<char>>(
                strings_view(a@),
            ),
            Err(e) => aliases_field(entries_view(entries@)) == Err::<Seq<Seq<char>>, Seq<char>>(
                e@,
            ),
        },
{
    match find_entry(entries, "aliases") {
        None => Err(owned("missing field `aliases`")),
        Some(i) => match entries[i].1.shape() {
            TomlShape::Array(items) => {
                let ghost iv = items@.map_values(
                    |o: Option<String>| crate::toml_value::option_string_view(o),
                );
                let mut out: Vec<String> = Vec::new();
                let mut j: usize = 0;
                assert(entries@[i as int].1@.shape == ShapeView::Array(iv));
                while j < items.len()
                    invariant
                        i < entries@.len(),
                        lookup(entries_view(entries@), "aliases"@) == Some(entries@[i as int].1@),
                        entries@[i as int].1@.shape == ShapeView::Array(iv),
                        j <= items@.len(),
                        iv == items@.map_values(
                            |o: Option<String>| crate::toml_value::option_string_view(o),
                        ),
                        out@.len() == j,
                        forall|k: int| 0 <= k < j ==> (#[trigger] iv[k]) is Some,
                        forall|k: int| #![trigger out@[k]] 0 <= k < j ==> Some(out@[k]@) == iv[k],
                    decreases items@.len() - j,
                {
                    match &items[j] {
                        Some(s) => {
                            out.push(s.clone());
                        },
                        None => {
                            assert(iv[j as int] is None);
                            assert(!all_strings(iv));
                            assert(entries@[i as int].1@.shape == ShapeView::Array(iv));
                            assert(aliases_field(entries_view(entries@)) == Err::<
                                Seq<Seq<char>>,
                                Seq<char>,
                            >("field `aliases` is not an array of strings"@));
                            return Err(owned("field `aliases` is not an array of strings"));
                        },
                    }
                    j = j + 1;
                }
                assert(strings_view(out@) =~= iv.map_values(|o: Option<Seq<char>>| o->Some_0));
                Ok(out)
            },
            _ => Err(owned("field `aliases` is not an array of strings")),
        },
    }
}

fn extra_of_entries(entries: &Vec<(String, TomlValue)>) -> (t: ExtraTable)
    ensures
        t.wf(),
        t@ == extra_of(entries_view(entries@)),
{
    let ghost s = entries_view(entries@);
    let mut t = ExtraTable::new();
    let mut i: usize = 0;
    assert(s.take(0) =~= Seq::<EntryView>::empty());
    while i < entries.len()
        invariant
            i <= entries@.len(),
            s == entries_view(entries@),
            t.wf(),
            t@ == extra_of(s.take(i as int)),
        decreases entries@.len() - i,
    {
        let ghost p = s.take(i + 1);
        assert(p.drop_last() =~= s.take(i as int));
        assert(p.last() == (entries@[i as int].0@, entries@[i as int].1@));
        let key = &entries[i].0;
        if !is_reserved_key(key.as_str()) {
            t.insert(key.clone(), entries[i].1.clone());
        }
        i = i + 1;
    }
    assert(s.take(entries@.len() as int) =~= s);
    t
}

/// Reads metadata from the text of a `meta.toml`.
pub fn parse_metadata(text: &str) -> (r: Result<Metadata, String>)
    ensures
        match r {
            Ok(m) => m.wf() && meta_of_text(text@) == Ok::<MetadataView, Seq<char>>(m@),
            Err(e) => meta_of_text(text@) == Err::<MetadataView, Seq<char>>(e@),
        },
{
    let entries = match parse_toml_table(text) {
        Err(e) => {
            return Err(e);
        },
        Ok(entries) => entries,
    };
    let id_text = match string_field_of(&entries, "id") {
        Err(e) => {
            return Err(e);
        },
        Ok(x) => x,
    };
    let id = match Identifier::parse(id_text.as_str()) {
        None => {
            return Err(owned("field `id` is not a valid identifier"));
        },
        Some(id) => id,
    };
    let ctime = match time_field_of(&entries, "ctime") {
        Err(e) => {
            return Err(e);
        },
        Ok(t) => t,
    };
    let mtime = match time_field_of(&entries, "mtime") {
        Err(e) => {
            return Err(e);
        },
        Ok(t) => t,
    };
    let aliases = match aliases_field_of(&entries) {
        Err(e) => {
            return Err(e);
        },
        Ok(a) => a,
    };
    let extra = extra_of_entries(&entries);
    Ok(Metadata::new(id, ctime, mtime, aliases, extra))
}

} // verus!
