//! Requests to edit a note: what they change, how raw `--set`, `--unset`
//! and `--clear-extra` arguments become one, and how one is applied
//! through a note editor.
use vstd::prelude::*;
use crate::extra::{ExtraTable, EntryView, inserted, lookup, sorted, lemma_lookup_inserted, lemma_lookup_removed, lemma_inserted_sorted, lemma_removed_sorted};
use crate::note::{edit_clear_extra, edit_remove_extra_key, edit_set_aliases, edit_set_body, edit_set_extra, edit_set_extra_value, fresh_editor, honest_edit, is_reserved, lemma_edits_honest, lemma_honest_edit_transitive, meta_result_view, strings_view, copy_strings, updated, EditorView, MetadataError, NoteEditor, NoteUpdate, NoteView};
use crate::text::{chars_of, concat, owned, string_of, trim, trim_chars, trimmed};
use crate::toml_value::{TomlValue, TomlValueView, entries_view, parse_toml_table, table_result_view, toml_table_of, toml_values_equal};
use crate::validation::{first_key_error, keys_of, validation, validate_extra_key, validate_keys, lemma_first_key_error_prefix, lemma_first_key_error_none};
use crate::repository::{RepositoryError, is_validation};

verus! {

/// How an edit changes a note's body.
#[derive(Debug, Clone)]
pub enum BodyEdit {
    Keep,
    Replace(String),
    Clear,
}

/// How an edit changes a note's aliases.
#[derive(Debug, Clone)]
pub enum AliasesEdit {
    Keep,
    Replace(Vec<String>),
    Clear,
}

/// How an edit changes a note's user-defined metadata: first everything is
/// removed if `clear`, then each of `set` is set, then each of `unset` is
/// removed.
#[derive(Debug, Clone)]
pub struct ExtraEdit {
    pub set: Vec<(String, TomlValue)>,
    pub unset: Vec<String>,
    pub clear: bool,
}

/// A request to edit a note.
#[derive(Debug, Clone)]
pub struct EditSpec {
    pub body: BodyEdit,
    pub aliases: AliasesEdit,
    pub extra: ExtraEdit,
}

/// The view of a [`BodyEdit`].
pub enum BodyEditView {
    Keep,
    Replace(Seq<char>),
    Clear,
}

/// The view of an [`AliasesEdit`].
pub enum AliasesEditView {
    Keep,
    Replace(Seq<Seq<char>>),
    Clear,
}

/// The view of an [`ExtraEdit`].
pub struct ExtraEditView {
    pub set: Seq<(Seq<char>, TomlValueView)>,
    pub unset: Seq<Seq<char>>,
    pub clear: bool,
}

/// The view of an [`EditSpec`].
pub struct EditSpecView {
    pub body: BodyEditView,
    pub aliases: AliasesEditView,
    pub extra: ExtraEditView,
}

impl View for BodyEdit {
    type V = BodyEditView;

    open spec fn view(&self) -> BodyEditView {
        match self {
            BodyEdit::Keep => BodyEditView::Keep,
            BodyEdit::Replace(b) => BodyEditView::Replace(b@),
            BodyEdit::Clear => BodyEditView::Clear,
        }
    }
}

impl View for AliasesEdit {
    type V = AliasesEditView;

    open spec fn view(&self) -> AliasesEditView {
        match self {
            AliasesEdit::Keep => AliasesEditView::Keep,
            AliasesEdit::Replace(a) => AliasesEditView::Replace(strings_view(a@)),
            AliasesEdit::Clear => AliasesEditView::Clear,
        }
    }
}

impl View for ExtraEdit {
    type V = ExtraEditView;

    open spec fn view(&self) -> ExtraEditView {
        ExtraEditView {
            set: entries_view(self.set@),
            unset: strings_view(self.unset@),
            clear: self.clear,
        }
    }
}

impl View for EditSpec {
    type V = EditSpecView;

    open spec fn view(&self) -> EditSpecView {
        EditSpecView { body: self.body@, aliases: self.aliases@, extra: self.extra@ }
    }
}

/// Why the extra edit `e` is malformed, if it is: `clear` together with
/// keys to set or unset, or a key that cannot be a user-defined key.
pub open spec fn extra_edit_error(e: ExtraEditView) -> Option<Seq<char>> {
    if e.clear && (e.set.len() > 0 || e.unset.len() > 0) {
        Some("--clear-extra cannot be combined with --set or --unset"@)
    } else {
        match first_key_error(keys_of(e.set)) {
            Some(m) => Some(m),
            None => first_key_error(e.unset),
        }
    }
}

/// The position of the first `c` in `s`.
pub open spec fn first_index_of(s: Seq<char>, c: char) -> Option<int>
    decreases s.len(),
{
    if s.len() == 0 {
        None
    } else if s[0] == c {
        Some(0)
    } else {
        match first_index_of(s.drop_first(), c) {
            Some(i) => Some(i + 1),
            None => None,
        }
    }
}

/// The key and value that the `--set` item `item`, written `KEY=VALUE`,
/// stands for: the text before the first `=` and the text after it, both
/// trimmed, the value read as TOML under the key; or why it stands for
/// none.
pub open spec fn set_pair_of(item: Seq<char>) -> Result<(Seq<char>, TomlValueView), Seq<char>> {
    match first_index_of(item, '=') {
        None => Err("Invalid --set value `"@ + item + "`; expected KEY=VALUE"@),
        Some(i) => {
            let key = trimmed(item.take(i));
            let raw = trimmed(item.skip(i + 1));
            if key.len() == 0 {
                Err("Invalid --set value `"@ + item + "`; key is empty"@)
            } else if raw.len() == 0 {
                Err("Invalid --set value `"@ + item + "`; value is empty"@)
            } else {
                set_pair_of_read(item, key, toml_table_of(key + " = "@ + raw))
            }
        },
    }
}

/// The pair that the `--set` item `item`, with the key `key`, stands for,
/// once its snippet `key = value` was read as TOML with the result `read`:
/// the value under `key`, or why there is none.
pub open spec fn set_pair_of_read(
    item: Seq<char>,
    key: Seq<char>,
    read: Result<Seq<(Seq<char>, TomlValueView)>, Seq<char>>,
) -> Result<(Seq<char>, TomlValueView), Seq<char>> {
    match read {
        Err(e) => Err("Invalid TOML value in --set `"@ + item + "`: "@ + e + ". Try quoting strings."@),
        Ok(t) => match lookup(t, key) {
            None => Err(
                "Invalid --set value `"@ + item + "`; only simple top-level keys are supported"@,
            ),
            Some(v) => Ok((key, v)),
        },
    }
}

/// The key-value pairs of the `--set` items, or the error of the first
/// item that stands for none.
pub open spec fn set_pairs_of(items: Seq<Seq<char>>) -> Result<
    Seq<(Seq<char>, TomlValueView)>,
    Seq<char>,
>
    decreases items.len(),
{
    if items.len() == 0 {
        Ok(seq![])
    } else {
        match set_pairs_of(items.drop_last()) {
            Err(m) => Err(m),
            Ok(pairs) => match set_pair_of(items.last()) {
                Err(m) => Err(m),
                Ok(p) => Ok(pairs.push(p)),
            },
        }
    }
}

/// The extra edit that the raw `--set` items, `--unset` keys and
/// `--clear-extra` flag stand for, or why they stand for none.
pub open spec fn extra_edit_of_raw(set: Seq<Seq<char>>, unset: Seq<Seq<char>>, clear: bool) -> Result<
    ExtraEditView,
    Seq<char>,
> {
    match set_pairs_of(set) {
        Err(m) => Err(m),
        Ok(pairs) => {
            let u = trimmed_all(unset);
            match first_key_error(u) {
                Some(m) => Err(m),
                None => {
                    let e = ExtraEditView { set: pairs, unset: u, clear };
                    match extra_edit_error(e) {
                        Some(m) => Err(m),
                        None => Ok(e),
                    }
                },
            }
        },
    }
}

/// Each of `keys`, trimmed.
pub open spec fn trimmed_all(keys: Seq<Seq<char>>) -> Seq<Seq<char>> {
    keys.map_values(|k: Seq<char>| trimmed(k))
}

proof fn lemma_first_index_of(s: Seq<char>, c: char)
    ensures
        first_index_of(s, c) matches Some(i) ==> 0 <= i < s.len() && s[i] == c && forall|j: int|
            0 <= j < i ==> s[j] != c,
        first_index_of(s, c) is None ==> forall|j: int| 0 <= j < s.len() ==> s[j] != c,
    decreases s.len(),
{
    if s.len() > 0 {
        lemma_first_index_of(s.drop_first(), c);
        assert forall|j: int| 1 <= j < s.len() implies s[j] == s.drop_first()[j - 1] by {}
    }
}

/// The position of the first `c` in `v`.
fn find_char(v: &Vec<char>, c: char) -> (r: Option<usize>)
    ensures
        match first_index_of(v@, c) {
            Some(i) => r == Some(i as usize),
            None => r is None,
        },
{
    let mut i: usize = 0;
    assert(v@.skip(0) =~= v@);
    while i < v.len()
        invariant
            i <= v@.len(),
            first_index_of(v@, c) == match first_index_of(v@.skip(i as int), c) {
                Some(j) => Some(j + i),
                None => None,
            },
        decreases v@.len() - i,
    {
        let ghost t = v@.skip(i as int);
        assert(t.drop_first() =~= v@.skip(i + 1));
        if v[i] == c {
            return Some(i);
        }
        i = i + 1;
    }
    assert(v@.skip(i as int).len() == 0);
    None
}

/// The key and value that one `--set` item stands for.
fn parse_set_pair(item: &String) -> (r: Result<(String, TomlValue), RepositoryError>)
    ensures
        match set_pair_of(item@) {
            Ok(p) => r matches Ok(q) && q.0@ == p.0 && q.1@ == p.1,
            Err(m) => is_validation(r, m),
        },
{
    let v = chars_of(item.as_str());
    proof {
        lemma_first_index_of(v@, '=');
    }
    let i = match find_char(&v, '=') {
        None => {
            return Err(
                validation(
                    concat(
                        concat(owned("Invalid --set value `"), item.as_str()),
                        "`; expected KEY=VALUE",
                    ),
                ),
            );
        },
        Some(i) => i,
    };
    let mut before: Vec<char> = Vec::new();
    let mut after: Vec<char> = Vec::new();
    let mut j: usize = 0;
    while j < v.len()
        invariant
            i < v@.len(),
            j <= v@.len(),
            j <= i ==> before@ == v@.take(j as int) && after@.len() == 0,
            j > i ==> before@ == v@.take(i as int) && after@ == v@.subrange(i + 1, j as int),
        decreases v@.len() - j,
    {
        if j < i {
            before.push(v[j]);
        } else if j > i {
            after.push(v[j]);
        }
        j = j + 1;
    }
    assert(after@ =~= v@.skip(i + 1));
    let key_chars = trim_chars(&before);
    let raw_chars = trim_chars(&after);
    if key_chars.len() == 0 {
        return Err(
            validation(
                concat(concat(owned("Invalid --set value `"), item.as_str()), "`; key is empty"),
            ),
        );
    }
    if raw_chars.len() == 0 {
        return Err(
            validation(
                concat(concat(owned("Invalid --set value `"), item.as_str()), "`; value is empty"),
            ),
        );
    }
    let key = string_of(key_chars.as_slice());
    let raw = string_of(raw_chars.as_slice());
    let snippet = concat(concat(key.clone(), " = "), raw.as_str());
    let read = parse_toml_table(snippet.as_str());
    set_pair_from_read(item.as_str(), key, read)
}

/// The pair that the `--set` item `item`, with the key `key`, stands for,
/// once its snippet `key = value` was read as TOML with the result `read`.
pub fn set_pair_from_read(
    item: &str,
    key: String,
    read: Result<Vec<(String, TomlValue)>, String>,
) -> (r: Result<(String, TomlValue), RepositoryError>)
    ensures
        match set_pair_of_read(item@, key@, table_result_view(read)) {
            Ok(p) => r matches Ok(q) && q.0@ == p.0 && q.1@ == p.1,
            Err(m) => is_validation(r, m),
        },
{
    let table = match read {
        Err(error) => {
            return Err(
                validation(
                    concat(
                        concat(concat(concat(owned("Invalid TOML value in --set `"), item), "`: "), error.as_str()),
                        ". Try quoting strings.",
                    ),
                ),
            );
        },
        Ok(t) => t,
    };
    match crate::meta_format::find_entry(&table, key.as_str()) {
        None => Err(
            validation(
                concat(
                    concat(owned("Invalid --set value `"), item),
                    "`; only simple top-level keys are supported",
                ),
            ),
        ),
        Some(k) => Ok((key, table[k].1.clone())),
    }
}

/// The key-value pairs that the `--set` items stand for.
fn parse_set_pairs(items: &Vec<String>) -> (r: Result<Vec<(String, TomlValue)>, RepositoryError>)
    ensures
        match set_pairs_of(strings_view(items@)) {
            Ok(p) => r matches Ok(q) && entries_view(q@) == p,
            Err(m) => is_validation(r, m),
        },
{
    let ghost iv = strings_view(items@);
    let mut pairs: Vec<(String, TomlValue)> = Vec::new();
    let mut i: usize = 0;
    assert(iv.take(0) =~= Seq::<Seq<char>>::empty());
    assert(entries_view(pairs@) =~= Seq::<(Seq<char>, TomlValueView)>::empty());
    while i < items.len()
        invariant
            i <= items@.len(),
            iv == strings_view(items@),
            set_pairs_of(iv.take(i as int)) == Ok::<Seq<(Seq<char>, TomlValueView)>, Seq<char>>(
                entries_view(pairs@),
            ),
        decreases items@.len() - i,
    {
        let ghost p = iv.take(i + 1);
        assert(p.drop_last() =~= iv.take(i as int));
        assert(p.last() == items@[i as int]@);
        match parse_set_pair(&items[i]) {
            Err(e) => {
                proof {
                    lemma_set_pairs_prefix_error(iv, i + 1);
                }
                return Err(e);
            },
            Ok(pair) => {
                let ghost before = entries_view(pairs@);
                let ghost pv = (pair.0@, pair.1@);
                pairs.push(pair);
                assert(entries_view(pairs@) =~= before.push(pv));
            },
        }
        i = i + 1;
    }
    assert(iv.take(items@.len() as int) =~= iv);
    Ok(pairs)
}

/// An error of a prefix of the items is the error of all of them.
proof fn lemma_set_pairs_prefix_error(items: Seq<Seq<char>>, n: int)
    requires
        0 <= n <= items.len(),
        set_pairs_of(items.take(n)) is Err,
    ensures
        set_pairs_of(items) == set_pairs_of(items.take(n)),
    decreases items.len() - n,
{
    if n < items.len() {
        let p = items.take(n + 1);
        assert(p.drop_last() =~= items.take(n));
        lemma_set_pairs_prefix_error(items, n + 1);
    } else {
        assert(items.take(n) =~= items);
    }
}

impl ExtraEdit {
    /// An edit that changes no user-defined metadata.
    pub fn empty() -> (r: ExtraEdit)
        ensures
            r@ == (ExtraEditView { set: seq![], unset: seq![], clear: false }),
    {
        let r = ExtraEdit { set: Vec::new(), unset: Vec::new(), clear: false };
        assert(r@.set =~= Seq::<(Seq<char>, TomlValueView)>::empty());
        assert(r@.unset =~= Seq::<Seq<char>>::empty());
        r
    }

    /// The edit that raw `--set KEY=VALUE` items, `--unset KEY` keys and the
    /// `--clear-extra` flag stand for.
    pub fn from_raw(set: Vec<String>, unset: Vec<String>, clear: bool) -> (r: Result<
        ExtraEdit,
        RepositoryError,
    >)
        ensures
            match extra_edit_of_raw(strings_view(set@), strings_view(unset@), clear) {
                Ok(e) => r matches Ok(x) && x@ == e,
                Err(m) => is_validation(r, m),
            },
    {
        let set_pairs = parse_set_pairs(&set)?;
        let ghost uv = strings_view(unset@);
        let ghost u = trimmed_all(uv);
        let mut unset_keys: Vec<String> = Vec::new();
        let mut i: usize = 0;
        assert(u.take(0) =~= Seq::<Seq<char>>::empty());
        while i < unset.len()
            invariant
                set_pairs_of(strings_view(set@)) == Ok::<Seq<(Seq<char>, TomlValueView)>, Seq<char>>(
                    entries_view(set_pairs@),
                ),
                i <= unset@.len(),
                uv == strings_view(unset@),
                u == trimmed_all(uv),
                strings_view(unset_keys@) == u.take(i as int),
                first_key_error(u.take(i as int)) is None,
            decreases unset@.len() - i,
        {
            let key = trim(unset[i].as_str());
            let ghost p = u.take(i + 1);
            assert(p.drop_last() =~= u.take(i as int));
            assert(p.last() == key@);
            match validate_extra_key(key.as_str()) {
                Ok(()) => {},
                Err(e) => {
                    proof {
                        lemma_first_key_error_prefix(u, i + 1);
                    }
                    return Err(e);
                },
            }
            unset_keys.push(key);
            assert(strings_view(unset_keys@) =~= p);
            i = i + 1;
        }
        assert(u.take(unset@.len() as int) =~= u);
        let edit = ExtraEdit { set: set_pairs, unset: unset_keys, clear };
        edit.validate()?;
        Ok(edit)
    }

    /// Checks that `clear` stands alone and that every key can be a
    /// user-defined key.
    pub(crate) fn validate(&self) -> (r: Result<(), RepositoryError>)
        ensures
            match extra_edit_error(self@) {
                None => r is Ok,
                Some(m) => is_validation(r, m),
            },
    {
        if self.clear && (self.set.len() > 0 || self.unset.len() > 0) {
            return Err(validation(owned("--clear-extra cannot be combined with --set or --unset")));
        }
        let mut keys: Vec<String> = Vec::new();
        let mut i: usize = 0;
        while i < self.set.len()
            invariant
                i <= self.set@.len(),
                keys@.len() == i,
                forall|j: int| #![trigger keys@[j]] 0 <= j < i ==> keys@[j]@ == self.set@[j].0@,
            decreases self.set@.len() - i,
        {
            keys.push(self.set[i].0.clone());
            i = i + 1;
        }
        assert(strings_view(keys@) =~= keys_of(self@.set));
        validate_keys(&keys)?;
        validate_keys(&self.unset)?;
        Ok(())
    }
}


/// The result of an edit whose own result is only whether it changed
/// something.
pub open spec fn unit_result(r: Result<bool, Seq<char>>) -> Result<(), Seq<char>> {
    match r {
        Ok(_) => Ok(()),
        Err(k) => Err(k),
    }
}

/// Setting each of `pairs` in turn, stopping at the first refusal.
pub open spec fn apply_sets(e: EditorView, pairs: Seq<(Seq<char>, TomlValueView)>) -> (
    EditorView,
    Result<(), Seq<char>>,
)
    decreases pairs.len(),
{
    if pairs.len() == 0 {
        (e, Ok(()))
    } else {
        let (e1, r1) = apply_sets(e, pairs.drop_last());
        match r1 {
            Err(k) => (e1, Err(k)),
            Ok(()) => {
                let (e2, r2) = edit_set_extra_value(e1, pairs.last().0, pairs.last().1);
                (e2, unit_result(r2))
            },
        }
    }
}

/// Removing each of `keys` in turn, stopping at the first refusal.
pub open spec fn apply_unsets(e: EditorView, keys: Seq<Seq<char>>) -> (
    EditorView,
    Result<(), Seq<char>>,
)
    decreases keys.len(),
{
    if keys.len() == 0 {
        (e, Ok(()))
    } else {
        let (e1, r1) = apply_unsets(e, keys.drop_last());
        match r1 {
            Err(k) => (e1, Err(k)),
            Ok(()) => {
                let (e2, r2) = edit_remove_extra_key(e1, keys.last());
                (e2, unit_result(r2))
            },
        }
    }
}

/// The editor `e` with its body edited as `b` says.
pub open spec fn apply_body_edit(e: EditorView, b: BodyEditView) -> EditorView {
    match b {
        BodyEditView::Keep => e,
        BodyEditView::Replace(body) => edit_set_body(e, body).0,
        BodyEditView::Clear => edit_set_body(e, seq![]).0,
    }
}

/// The editor `e` with its aliases edited as `a` says.
pub open spec fn apply_aliases_edit(e: EditorView, a: AliasesEditView) -> EditorView {
    match a {
        AliasesEditView::Keep => e,
        AliasesEditView::Replace(aliases) => edit_set_aliases(e, aliases).0,
        AliasesEditView::Clear => edit_set_aliases(e, seq![]).0,
    }
}

/// The editor `e` with the body, the aliases and the clearing of the
/// user-defined metadata of the edit `s` applied.
pub open spec fn edit_before_keys(e: EditorView, s: EditSpecView) -> EditorView {
    let e2 = apply_aliases_edit(apply_body_edit(e, s.body), s.aliases);
    if s.extra.clear {
        edit_clear_extra(e2).0
    } else {
        e2
    }
}

/// Applying the edit `s` to the editor `e`: the body, then the aliases,
/// then clearing the user-defined metadata if asked, then each key to set,
/// then each key to remove, stopping at the first refusal.
pub open spec fn apply_edit(e: EditorView, s: EditSpecView) -> (EditorView, Result<(), Seq<char>>) {
    let (e4, r4) = apply_sets(edit_before_keys(e, s), s.extra.set);
    match r4 {
        Err(k) => (e4, Err(k)),
        Ok(()) => apply_unsets(e4, s.extra.unset),
    }
}

proof fn lemma_apply_sets_prefix_error(e: EditorView, pairs: Seq<(Seq<char>, TomlValueView)>, n: int)
    requires
        0 <= n <= pairs.len(),
        apply_sets(e, pairs.take(n)).1 is Err,
    ensures
        apply_sets(e, pairs) == apply_sets(e, pairs.take(n)),
    decreases pairs.len() - n,
{
    if n < pairs.len() {
        assert(pairs.take(n + 1).drop_last() =~= pairs.take(n));
        lemma_apply_sets_prefix_error(e, pairs, n + 1);
    } else {
        assert(pairs.take(n) =~= pairs);
    }
}

proof fn lemma_apply_unsets_prefix_error(e: EditorView, keys: Seq<Seq<char>>, n: int)
    requires
        0 <= n <= keys.len(),
        apply_unsets(e, keys.take(n)).1 is Err,
    ensures
        apply_unsets(e, keys) == apply_unsets(e, keys.take(n)),
    decreases keys.len() - n,
{
    if n < keys.len() {
        assert(keys.take(n + 1).drop_last() =~= keys.take(n));
        lemma_apply_unsets_prefix_error(e, keys, n + 1);
    } else {
        assert(keys.take(n) =~= keys);
    }
}

/// Applies the edit `spec` through `editor`.
fn apply_edit_spec(editor: &mut NoteEditor, spec: &EditSpec) -> (r: Result<(), MetadataError>)
    requires
        old(editor).wf(),
    ensures
        final(editor).wf(),
        (final(editor)@, meta_result_view(r)) == apply_edit(old(editor)@, spec@),
{
    match &spec.body {
        BodyEdit::Keep => {},
        BodyEdit::Replace(body) => {
            editor.set_body(body.clone());
        },
        BodyEdit::Clear => {
            editor.set_body(String::new());
        },
    }
    assert(editor@ == apply_body_edit(old(editor)@, spec@.body));
    let ghost e1 = editor@;
    match &spec.aliases {
        AliasesEdit::Keep => {},
        AliasesEdit::Replace(aliases) => {
            editor.set_aliases(copy_strings(aliases));
        },
        AliasesEdit::Clear => {
            let empty: Vec<String> = Vec::new();
            assert(strings_view(empty@) =~= Seq::<Seq<char>>::empty());
            editor.set_aliases(empty);
        },
    }
    assert(editor@ == apply_aliases_edit(e1, spec@.aliases));
    let ghost e2 = editor@;
    if spec.extra.clear {
        editor.clear_extra();
    }
    let ghost e3 = editor@;
    assert(e3 == (if spec@.extra.clear {
        edit_clear_extra(e2).0
    } else {
        e2
    }));
    let ghost sets = spec@.extra.set;
    let mut i: usize = 0;
    assert(sets.take(0) =~= Seq::<(Seq<char>, TomlValueView)>::empty());
    while i < spec.extra.set.len()
        invariant
            editor.wf(),
            i <= spec.extra.set@.len(),
            sets == spec@.extra.set,
            e3 == edit_before_keys(old(editor)@, spec@),
            (editor@, Ok::<(), Seq<char>>(())) == apply_sets(e3, sets.take(i as int)),
        decreases spec.extra.set@.len() - i,
    {
        let (key, value) = &spec.extra.set[i];
        let ghost p = sets.take(i + 1);
        assert(p.drop_last() =~= sets.take(i as int));
        assert(p.last() == (key@, value@));
        match editor.set_extra_value(key.clone(), value.clone()) {
            Ok(_) => {},
            Err(e) => {
                proof {
                    lemma_apply_sets_prefix_error(e3, sets, i + 1);
                }
                return Err(e);
            },
        }
        i = i + 1;
    }
    assert(sets.take(sets.len() as int) =~= sets);
    let ghost e4 = editor@;
    let ghost unsets = spec@.extra.unset;
    let mut j: usize = 0;
    assert(unsets.take(0) =~= Seq::<Seq<char>>::empty());
    while j < spec.extra.unset.len()
        invariant
            editor.wf(),
            j <= spec.extra.unset@.len(),
            unsets == spec@.extra.unset,
            (e4, Ok::<(), Seq<char>>(())) == apply_sets(edit_before_keys(old(editor)@, spec@), spec@.extra.set),
            (editor@, Ok::<(), Seq<char>>(())) == apply_unsets(e4, unsets.take(j as int)),
        decreases spec.extra.unset@.len() - j,
    {
        let key = &spec.extra.unset[j];
        let ghost p = unsets.take(j + 1);
        assert(p.drop_last() =~= unsets.take(j as int));
        assert(p.last() == key@);
        match editor.remove_extra_key(key.as_str()) {
            Ok(_) => {},
            Err(e) => {
                proof {
                    lemma_apply_unsets_prefix_error(e4, unsets, j + 1);
                }
                return Err(e);
            },
        }
        j = j + 1;
    }
    assert(unsets.take(unsets.len() as int) =~= unsets);
    Ok(())
}

impl EditSpec {
    /// A request to edit the body, the aliases and the user-defined
    /// metadata of a note.
    pub fn new(body: BodyEdit, aliases: AliasesEdit, extra: ExtraEdit) -> (r: EditSpec)
        ensures
            r@ == (EditSpecView { body: body@, aliases: aliases@, extra: extra@ }),
    {
        EditSpec { body, aliases, extra }
    }

    /// Checks the extra edit.
    pub(crate) fn validate(&self) -> (r: Result<(), RepositoryError>)
        ensures
            match extra_edit_error(self@.extra) {
                None => r is Ok,
                Some(m) => is_validation(r, m),
            },
    {
        self.extra.validate()
    }
}

impl NoteUpdate for EditSpec {
    open spec fn apply_spec(&self, e: EditorView) -> (EditorView, Result<(), Seq<char>>) {
        apply_edit(e, self@)
    }

    fn apply(&self, editor: &mut NoteEditor) -> (r: Result<(), MetadataError>) {
        let ghost e0 = editor@;
        let r = apply_edit_spec(editor, self);
        proof {
            lemma_apply_edit_honest(e0, self@);
        }
        r
    }
}

/// The update that replaces a note's user-defined metadata by a table.
pub struct ReplaceExtra {
    table: ExtraTable,
}

impl ReplaceExtra {
    #[verifier::type_invariant]
    closed spec fn inv(&self) -> bool {
        self.table.wf()
    }

    /// The table that the update puts in place.
    pub closed spec fn table_view(&self) -> Seq<EntryView> {
        self.table@
    }

    /// The update that replaces the user-defined metadata by `table`.
    pub fn new(table: ExtraTable) -> (r: ReplaceExtra)
        requires
            table.wf(),
        ensures
            r.table_view() == table@,
    {
        ReplaceExtra { table }
    }
}

impl NoteUpdate for ReplaceExtra {
    open spec fn apply_spec(&self, e: EditorView) -> (EditorView, Result<(), Seq<char>>) {
        let (e2, r) = edit_set_extra(e, self.table_view());
        (e2, unit_result(r))
    }

    fn apply(&self, editor: &mut NoteEditor) -> (r: Result<(), MetadataError>) {
        proof {
            use_type_invariant(self);
            lemma_edits_honest(editor@, seq![], seq![], seq![], arbitrary(), self.table_view());
        }
        match editor.set_extra(self.table.clone()) {
            Ok(_) => Ok(()),
            Err(e) => Err(e),
        }
    }
}


/// Setting keys that are not reserved is never refused.
proof fn lemma_apply_sets_ok(e: EditorView, pairs: Seq<(Seq<char>, TomlValueView)>)
    requires
        forall|i: int| 0 <= i < pairs.len() ==> !is_reserved(#[trigger] pairs[i].0),
    ensures
        apply_sets(e, pairs).1 is Ok,
    decreases pairs.len(),
{
    if pairs.len() > 0 {
        let t = pairs.drop_last();
        assert forall|i: int| 0 <= i < t.len() implies !is_reserved(#[trigger] t[i].0) by {
            assert(t[i] == pairs[i]);
        }
        lemma_apply_sets_ok(e, t);
        assert(!is_reserved(pairs[pairs.len() - 1].0));
    }
}

/// Removing keys that are not reserved is never refused.
proof fn lemma_apply_unsets_ok(e: EditorView, keys: Seq<Seq<char>>)
    requires
        forall|i: int| 0 <= i < keys.len() ==> !is_reserved(#[trigger] keys[i]),
    ensures
        apply_unsets(e, keys).1 is Ok,
    decreases keys.len(),
{
    if keys.len() > 0 {
        let t = keys.drop_last();
        assert forall|i: int| 0 <= i < t.len() implies !is_reserved(#[trigger] t[i]) by {
            assert(t[i] == keys[i]);
        }
        lemma_apply_unsets_ok(e, t);
        assert(!is_reserved(keys[keys.len() - 1]));
    }
}

/// An edit that passes validation is never refused.
pub proof fn lemma_valid_edit_not_refused(e: EditorView, s: EditSpecView)
    requires
        extra_edit_error(s.extra) is None,
    ensures
        apply_edit(e, s).1 is Ok,
{
    lemma_first_key_error_none(keys_of(s.extra.set));
    assert forall|i: int| 0 <= i < s.extra.set.len() implies !is_reserved(
        #[trigger] s.extra.set[i].0,
    ) by {
        assert(keys_of(s.extra.set)[i] == s.extra.set[i].0);
    }
    lemma_apply_sets_ok(edit_before_keys(e, s), s.extra.set);
    lemma_first_key_error_none(s.extra.unset);
    let e4 = apply_sets(edit_before_keys(e, s), s.extra.set).0;
    lemma_apply_unsets_ok(e4, s.extra.unset);
}

proof fn lemma_unmutated_sets(e: EditorView, pairs: Seq<(Seq<char>, TomlValueView)>)
    ensures
        !apply_sets(e, pairs).0.mutated ==> apply_sets(e, pairs).0 == e,
    decreases pairs.len(),
{
    if pairs.len() > 0 {
        lemma_unmutated_sets(e, pairs.drop_last());
    }
}

proof fn lemma_unmutated_unsets(e: EditorView, keys: Seq<Seq<char>>)
    ensures
        !apply_unsets(e, keys).0.mutated ==> apply_unsets(e, keys).0 == e,
    decreases keys.len(),
{
    if keys.len() > 0 {
        lemma_unmutated_unsets(e, keys.drop_last());
    }
}

/// An edit that reports no change leaves the editor, and so the note, as
/// it was.
pub proof fn lemma_unmutated_edit_keeps_note(e: EditorView, s: EditSpecView)
    ensures
        !apply_edit(e, s).0.mutated ==> apply_edit(e, s).0 == e,
{
    let e3 = edit_before_keys(e, s);
    lemma_unmutated_sets(e3, s.extra.set);
    let e4 = apply_sets(e3, s.extra.set).0;
    lemma_unmutated_unsets(e4, s.extra.unset);
}

/// Whether no key occurs twice among the pairs.
pub open spec fn distinct_keys(pairs: Seq<(Seq<char>, TomlValueView)>) -> bool {
    forall|i: int, j: int| 0 <= i < j < pairs.len() ==> #[trigger] pairs[i].0 != #[trigger] pairs[j].0
}

/// Whether no key to set is also a key to remove.
pub open spec fn disjoint_keys(pairs: Seq<(Seq<char>, TomlValueView)>, keys: Seq<Seq<char>>) -> bool {
    forall|i: int, j: int|
        0 <= i < pairs.len() && 0 <= j < keys.len() ==> #[trigger] pairs[i].0 != #[trigger] keys[j]
}

/// Whether `t` holds, under each key of the pairs, a value equal to the
/// pair's value.
pub open spec fn holds_pairs(t: Seq<EntryView>, pairs: Seq<(Seq<char>, TomlValueView)>) -> bool {
    forall|i: int|
        0 <= i < pairs.len() ==> (#[trigger] lookup(t, pairs[i].0) matches Some(w)
            && toml_values_equal(w, pairs[i].1))
}

/// Whether each value of the pairs equals itself, as `toml` compares values
/// (which a NaN float, or a value holding one, does not).
pub open spec fn self_equal_values(pairs: Seq<(Seq<char>, TomlValueView)>) -> bool {
    forall|i: int| 0 <= i < pairs.len() ==> toml_values_equal(#[trigger] pairs[i].1, pairs[i].1)
}

proof fn lemma_sets_hold(e: EditorView, pairs: Seq<(Seq<char>, TomlValueView)>)
    requires
        sorted(e.note.meta.extra),
        forall|i: int| 0 <= i < pairs.len() ==> !is_reserved(#[trigger] pairs[i].0),
        distinct_keys(pairs),
        self_equal_values(pairs),
    ensures
        ({
            let r = apply_sets(e, pairs).0;
            &&& sorted(r.note.meta.extra)
            &&& r.note.body == e.note.body
            &&& r.note.meta.aliases == e.note.meta.aliases
            &&& holds_pairs(r.note.meta.extra, pairs)
            &&& forall|k: Seq<char>|
                (forall|i: int| 0 <= i < pairs.len() ==> #[trigger] pairs[i].0 != k) ==> lookup(
                    r.note.meta.extra,
                    k,
                ) == lookup(e.note.meta.extra, k)
        }),
    decreases pairs.len(),
{
    if pairs.len() > 0 {
        let t = pairs.drop_last();
        assert forall|i: int| 0 <= i < t.len() implies !is_reserved(#[trigger] t[i].0) by {
            assert(t[i] == pairs[i]);
        }
        assert(distinct_keys(t)) by {
            assert forall|a: int, b: int| 0 <= a < b < t.len() implies #[trigger] t[a].0
                != #[trigger] t[b].0 by {
                assert(t[a] == pairs[a] && t[b] == pairs[b]);
            }
        }
        assert(self_equal_values(t)) by {
            assert forall|i: int| 0 <= i < t.len() implies toml_values_equal(
                #[trigger] t[i].1,
                t[i].1,
            ) by {
                assert(t[i] == pairs[i]);
            }
        }
        lemma_sets_hold(e, t);
        lemma_apply_sets_ok(e, t);
        let r1 = apply_sets(e, t).0;
        let (k, v) = pairs.last();
        assert(!is_reserved(pairs[pairs.len() - 1].0));
        let x = r1.note.meta.extra;
        lemma_inserted_sorted(x, k, v);
        let r = apply_sets(e, pairs).0;
        assert forall|kk: Seq<char>| #[trigger] lookup(r.note.meta.extra, kk) == (if kk == k
            && r.note.meta.extra != x {
            Some(v)
        } else {
            lookup(x, kk)
        }) by {
            lemma_lookup_inserted(x, k, v, kk);
        }
        assert forall|i: int| 0 <= i < pairs.len() implies (#[trigger] lookup(
            r.note.meta.extra,
            pairs[i].0,
        ) matches Some(w) && toml_values_equal(w, pairs[i].1)) by {
            if i < pairs.len() - 1 {
                assert(t[i] == pairs[i]);
                assert(pairs[i].0 != k);
                assert(lookup(r.note.meta.extra, pairs[i].0) == lookup(x, t[i].0));
            } else {
                lemma_lookup_inserted(x, k, v, k);
                let changed = match lookup(x, k) {
                    Some(w) => !toml_values_equal(w, v),
                    None => true,
                };
                if changed {
                    assert(r.note.meta.extra == inserted(x, k, v));
                    assert(toml_values_equal(pairs[pairs.len() - 1].1, pairs[pairs.len() - 1].1));
                } else {
                    assert(r == r1);
                }
            }
        }
        assert forall|kk: Seq<char>|
            (forall|i: int| 0 <= i < pairs.len() ==> #[trigger] pairs[i].0 != kk) implies lookup(
                r.note.meta.extra,
                kk,
            ) == lookup(e.note.meta.extra, kk) by {
            assert(pairs[pairs.len() - 1].0 != kk);
            assert forall|i: int| 0 <= i < t.len() implies #[trigger] t[i].0 != kk by {
                assert(t[i] == pairs[i]);
            }
        }
    }
}

proof fn lemma_unsets_clear(e: EditorView, keys: Seq<Seq<char>>)
    requires
        sorted(e.note.meta.extra),
        forall|j: int| 0 <= j < keys.len() ==> !is_reserved(#[trigger] keys[j]),
    ensures
        ({
            let r = apply_unsets(e, keys).0;
            &&& sorted(r.note.meta.extra)
            &&& r.note.body == e.note.body
            &&& r.note.meta.aliases == e.note.meta.aliases
            &&& forall|j: int| 0 <= j < keys.len() ==> lookup(r.note.meta.extra, #[trigger] keys[j]) is None
            &&& forall|k: Seq<char>|
                (forall|j: int| 0 <= j < keys.len() ==> #[trigger] keys[j] != k) ==> lookup(
                    r.note.meta.extra,
                    k,
                ) == lookup(e.note.meta.extra, k)
        }),
    decreases keys.len(),
{
    if keys.len() > 0 {
        let t = keys.drop_last();
        assert forall|j: int| 0 <= j < t.len() implies !is_reserved(#[trigger] t[j]) by {
            assert(t[j] == keys[j]);
        }
        lemma_unsets_clear(e, t);
        lemma_apply_unsets_ok(e, t);
        let r1 = apply_unsets(e, t).0;
        let k = keys.last();
        assert(!is_reserved(keys[keys.len() - 1]));
        let x = r1.note.meta.extra;
        lemma_removed_sorted(x, k);
        let r = apply_unsets(e, keys).0;
        assert forall|kk: Seq<char>| #[trigger] lookup(r.note.meta.extra, kk) == (if kk == k {
            None
        } else {
            lookup(x, kk)
        }) by {
            lemma_lookup_removed(x, k, kk);
        }
        assert forall|j: int| 0 <= j < keys.len() implies lookup(
            r.note.meta.extra,
            #[trigger] keys[j],
        ) is None by {
            if j < keys.len() - 1 {
                assert(t[j] == keys[j]);
            }
        }
        assert forall|kk: Seq<char>|
            (forall|j: int| 0 <= j < keys.len() ==> #[trigger] keys[j] != kk) implies lookup(
                r.note.meta.extra,
                kk,
            ) == lookup(e.note.meta.extra, kk) by {
            assert(keys[keys.len() - 1] != kk);
            assert forall|j: int| 0 <= j < t.len() implies #[trigger] t[j] != kk by {
                assert(t[j] == keys[j]);
            }
        }
    }
}

proof fn lemma_sets_no_change(e: EditorView, pairs: Seq<(Seq<char>, TomlValueView)>)
    requires
        forall|i: int| 0 <= i < pairs.len() ==> !is_reserved(#[trigger] pairs[i].0),
        holds_pairs(e.note.meta.extra, pairs),
    ensures
        apply_sets(e, pairs) == (e, Ok::<(), Seq<char>>(())),
    decreases pairs.len(),
{
    if pairs.len() > 0 {
        let t = pairs.drop_last();
        assert forall|i: int| 0 <= i < t.len() implies !is_reserved(#[trigger] t[i].0) by {
            assert(t[i] == pairs[i]);
        }
        assert forall|i: int| 0 <= i < t.len() implies (#[trigger] lookup(
            e.note.meta.extra,
            t[i].0,
        ) matches Some(w) && toml_values_equal(w, t[i].1)) by {
            assert(t[i] == pairs[i]);
        }
        lemma_sets_no_change(e, t);
        assert(!is_reserved(pairs[pairs.len() - 1].0));
        assert(lookup(e.note.meta.extra, pairs[pairs.len() - 1].0) is Some);
    }
}

proof fn lemma_unsets_no_change(e: EditorView, keys: Seq<Seq<char>>)
    requires
        forall|j: int| 0 <= j < keys.len() ==> !is_reserved(#[trigger] keys[j]),
        forall|j: int| 0 <= j < keys.len() ==> lookup(e.note.meta.extra, #[trigger] keys[j]) is None,
    ensures
        apply_unsets(e, keys) == (e, Ok::<(), Seq<char>>(())),
    decreases keys.len(),
{
    if keys.len() > 0 {
        let t = keys.drop_last();
        assert forall|j: int| 0 <= j < t.len() implies !is_reserved(#[trigger] t[j]) by {
            assert(t[j] == keys[j]);
        }
        assert forall|j: int| 0 <= j < t.len() implies lookup(e.note.meta.extra, #[trigger] t[j])
            is None by {
            assert(t[j] == keys[j]);
        }
        lemma_unsets_no_change(e, t);
        assert(!is_reserved(keys[keys.len() - 1]));
        assert(lookup(e.note.meta.extra, keys[keys.len() - 1]) is None);
    }
}

/// Edits are idempotent: applying a valid edit, whose keys to set are
/// distinct, none of which is also a key to remove, and whose values each
/// equal themselves (no NaN float), to the note that the same edit produced
/// changes nothing.
pub proof fn lemma_edit_idempotent(n: NoteView, s: EditSpecView)
    requires
        sorted(n.meta.extra),
        extra_edit_error(s.extra) is None,
        distinct_keys(s.extra.set),
        disjoint_keys(s.extra.set, s.extra.unset),
        self_equal_values(s.extra.set),
    ensures
        ({
            let n1 = apply_edit(fresh_editor(n), s).0.note;
            apply_edit(fresh_editor(n1), s) == (fresh_editor(n1), Ok::<(), Seq<char>>(()))
        }),
{
    lemma_first_key_error_none(keys_of(s.extra.set));
    assert forall|i: int| 0 <= i < s.extra.set.len() implies !is_reserved(
        #[trigger] s.extra.set[i].0,
    ) by {
        assert(keys_of(s.extra.set)[i] == s.extra.set[i].0);
    }
    lemma_first_key_error_none(s.extra.unset);
    let e0 = fresh_editor(n);
    let e3 = edit_before_keys(e0, s);
    lemma_sets_hold(e3, s.extra.set);
    lemma_apply_sets_ok(e3, s.extra.set);
    let e4 = apply_sets(e3, s.extra.set).0;
    lemma_unsets_clear(e4, s.extra.unset);
    let e5 = apply_unsets(e4, s.extra.unset).0;
    assert(apply_edit(e0, s).0 == e5);
    let n1 = e5.note;
    let f0 = fresh_editor(n1);
    assert(apply_body_edit(f0, s.body) == f0);
    assert(apply_aliases_edit(f0, s.aliases) == f0);
    let f3 = edit_before_keys(f0, s);
    if s.extra.clear {
        assert(s.extra.set.len() == 0 && s.extra.unset.len() == 0);
        assert(n1.meta.extra.len() == 0);
        assert(f3 == f0);
    } else {
        assert(f3 == f0);
    }
    assert(holds_pairs(n1.meta.extra, s.extra.set)) by {
        assert forall|i: int| 0 <= i < s.extra.set.len() implies (#[trigger] lookup(
            n1.meta.extra,
            s.extra.set[i].0,
        ) matches Some(w) && toml_values_equal(w, s.extra.set[i].1)) by {
            let k = s.extra.set[i].0;
            assert forall|j: int| 0 <= j < s.extra.unset.len() implies #[trigger] s.extra.unset[j]
                != k by {
                assert(s.extra.set[i].0 != s.extra.unset[j]);
            }
            assert(lookup(n1.meta.extra, k) == lookup(e4.note.meta.extra, k));
            assert(lookup(e4.note.meta.extra, s.extra.set[i].0) matches Some(w)
                && toml_values_equal(w, s.extra.set[i].1));
        }
    }
    lemma_sets_no_change(f0, s.extra.set);
    lemma_unsets_no_change(f0, s.extra.unset);
}


proof fn lemma_sets_keep_identity(e: EditorView, pairs: Seq<(Seq<char>, TomlValueView)>)
    ensures
        apply_sets(e, pairs).0.note.meta.id == e.note.meta.id,
        apply_sets(e, pairs).0.note.meta.ctime == e.note.meta.ctime,
    decreases pairs.len(),
{
    if pairs.len() > 0 {
        lemma_sets_keep_identity(e, pairs.drop_last());
    }
}

proof fn lemma_unsets_keep_identity(e: EditorView, keys: Seq<Seq<char>>)
    ensures
        apply_unsets(e, keys).0.note.meta.id == e.note.meta.id,
        apply_unsets(e, keys).0.note.meta.ctime == e.note.meta.ctime,
    decreases keys.len(),
{
    if keys.len() > 0 {
        lemma_unsets_keep_identity(e, keys.drop_last());
    }
}

/// Updates keep a note's identity: after any edit, and after any
/// replacement of its user-defined metadata, whether refused or not and
/// whatever the modification time, a note keeps its identifier and its
/// creation time.
pub proof fn lemma_update_keeps_identity(
    n: NoteView,
    s: EditSpecView,
    t: Seq<EntryView>,
    now: crate::timestamp::Timestamp,
)
    ensures
        updated(apply_edit(fresh_editor(n), s), now).0.meta.id == n.meta.id,
        updated(apply_edit(fresh_editor(n), s), now).0.meta.ctime == n.meta.ctime,
        ({
            let (e, r) = edit_set_extra(fresh_editor(n), t);
            &&& updated((e, unit_result(r)), now).0.meta.id == n.meta.id
            &&& updated((e, unit_result(r)), now).0.meta.ctime == n.meta.ctime
        }),
{
    let e3 = edit_before_keys(fresh_editor(n), s);
    lemma_sets_keep_identity(e3, s.extra.set);
    lemma_unsets_keep_identity(apply_sets(e3, s.extra.set).0, s.extra.unset);
}

proof fn lemma_sets_honest(e: EditorView, pairs: Seq<(Seq<char>, TomlValueView)>)
    ensures
        honest_edit(e, apply_sets(e, pairs).0),
    decreases pairs.len(),
{
    lemma_edits_honest(e, seq![], seq![], seq![], arbitrary(), seq![]);
    if pairs.len() > 0 {
        lemma_sets_honest(e, pairs.drop_last());
        let e1 = apply_sets(e, pairs.drop_last()).0;
        lemma_edits_honest(e1, seq![], seq![], pairs.last().0, pairs.last().1, seq![]);
        lemma_honest_edit_transitive(e, e1, edit_set_extra_value(e1, pairs.last().0, pairs.last().1).0);
    }
}

proof fn lemma_unsets_honest(e: EditorView, keys: Seq<Seq<char>>)
    ensures
        honest_edit(e, apply_unsets(e, keys).0),
    decreases keys.len(),
{
    lemma_edits_honest(e, seq![], seq![], seq![], arbitrary(), seq![]);
    if keys.len() > 0 {
        lemma_unsets_honest(e, keys.drop_last());
        let e1 = apply_unsets(e, keys.drop_last()).0;
        lemma_edits_honest(e1, seq![], seq![], keys.last(), arbitrary(), seq![]);
        lemma_honest_edit_transitive(e, e1, edit_remove_extra_key(e1, keys.last()).0);
    }
}

/// An edit changes the note only as the editor's methods can.
proof fn lemma_apply_edit_honest(e: EditorView, s: EditSpecView)
    ensures
        honest_edit(e, apply_edit(e, s).0),
{
    let e1 = apply_body_edit(e, s.body);
    lemma_edits_honest(e, seq![], seq![], seq![], arbitrary(), seq![]);
    match s.body {
        BodyEditView::Replace(b) => lemma_edits_honest(e, b, seq![], seq![], arbitrary(), seq![]),
        _ => {},
    }
    let e2 = apply_aliases_edit(e1, s.aliases);
    lemma_edits_honest(e1, seq![], seq![], seq![], arbitrary(), seq![]);
    match s.aliases {
        AliasesEditView::Replace(a) => lemma_edits_honest(e1, seq![], a, seq![], arbitrary(), seq![]),
        _ => {},
    }
    lemma_honest_edit_transitive(e, e1, e2);
    let e3 = edit_before_keys(e, s);
    lemma_edits_honest(e2, seq![], seq![], seq![], arbitrary(), seq![]);
    lemma_honest_edit_transitive(e, e2, e3);
    lemma_sets_honest(e3, s.extra.set);
    let e4 = apply_sets(e3, s.extra.set).0;
    lemma_honest_edit_transitive(e, e3, e4);
    lemma_unsets_honest(e4, s.extra.unset);
    lemma_honest_edit_transitive(e, e4, apply_unsets(e4, s.extra.unset).0);
}

proof fn lemma_sets_keep_body_and_aliases(e: EditorView, pairs: Seq<(Seq<char>, TomlValueView)>)
    ensures
        apply_sets(e, pairs).0.note.body == e.note.body,
        apply_sets(e, pairs).0.note.meta.aliases == e.note.meta.aliases,
    decreases pairs.len(),
{
    if pairs.len() > 0 {
        lemma_sets_keep_body_and_aliases(e, pairs.drop_last());
    }
}

proof fn lemma_unsets_keep_body_and_aliases(e: EditorView, keys: Seq<Seq<char>>)
    ensures
        apply_unsets(e, keys).0.note.body == e.note.body,
        apply_unsets(e, keys).0.note.meta.aliases == e.note.meta.aliases,
    decreases keys.len(),
{
    if keys.len() > 0 {
        lemma_unsets_keep_body_and_aliases(e, keys.drop_last());
    }
}

/// What an edit does to a note's body and aliases, whether or not a key is
/// refused: a body to replace becomes the body, exactly; a body to clear
/// becomes empty; a body to keep stays.  Aliases to replace become the
/// aliases, exactly, the same strings in the same order; aliases to clear
/// become none; aliases to keep stay.  The user-defined metadata part of
/// the edit touches neither.
pub proof fn lemma_edit_body_and_aliases(e: EditorView, s: EditSpecView)
    ensures
        ({
            let n = apply_edit(e, s).0.note;
            &&& match s.body {
                BodyEditView::Keep => n.body == e.note.body,
                BodyEditView::Replace(b) => n.body == b,
                BodyEditView::Clear => n.body == Seq::<char>::empty(),
            }
            &&& match s.aliases {
                AliasesEditView::Keep => n.meta.aliases == e.note.meta.aliases,
                AliasesEditView::Replace(a) => n.meta.aliases == a,
                AliasesEditView::Clear => n.meta.aliases == Seq::<Seq<char>>::empty(),
            }
        }),
{
    let e3 = edit_before_keys(e, s);
    lemma_sets_keep_body_and_aliases(e3, s.extra.set);
    lemma_unsets_keep_body_and_aliases(apply_sets(e3, s.extra.set).0, s.extra.unset);
}

} // verus!
