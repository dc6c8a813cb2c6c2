//! Notes, their metadata, and the editor through which a note is changed.
//!
//! A note is physically represented as a directory consisting of
//!
//! - a `meta.toml` serialising its metadata,
//! - a `body.md` containing its text body, and
//! - arbitrary attachments.
use vstd::prelude::*;
use crate::extra::{ExtraTable, EntryView, lookup, inserted, removed, same_entries};
use crate::identifier::Identifier;
use crate::text::{chars_of, owned};
use crate::timestamp::Timestamp;
use crate::toml_value::TomlValue;

verus! {

/// `std::io::Error`, which the I/O of a store reports.
#[verifier::external_type_specification]
#[verifier::external_body]
pub struct ExIoError(std::io::Error);

/// The keys that the metadata itself uses, and that user-defined metadata
/// cannot set.
pub open spec fn is_reserved(key: Seq<char>) -> bool {
    ||| key == seq!['i', 'd']
    ||| key == seq!['c', 't', 'i', 'm', 'e']
    ||| key == seq!['m', 't', 'i', 'm', 'e']
    ||| key == seq!['a', 'l', 'i', 'a', 's', 'e', 's']
}

/// Whether `key` is one of the reserved keys `id`, `ctime`, `mtime` and
/// `aliases`.
pub fn is_reserved_key(key: &str) -> (r: bool)
    ensures
        r == is_reserved(key@),
{
    let k = chars_of(key);
    let n = k.len();
    let r = (n == 2 && k[0] == 'i' && k[1] == 'd') || (n == 5 && k[0] == 'c' && k[1] == 't' && k[2]
        == 'i' && k[3] == 'm' && k[4] == 'e') || (n == 5 && k[0] == 'm' && k[1] == 't' && k[2]
        == 'i' && k[3] == 'm' && k[4] == 'e') || (n == 7 && k[0] == 'a' && k[1] == 'l' && k[2]
        == 'i' && k[3] == 'a' && k[4] == 's' && k[5] == 'e' && k[6] == 's');
    proof {
        if n == 2 && k[0] == 'i' && k[1] == 'd' {
            assert(k@ =~= seq!['i', 'd']);
        }
        if n == 5 && k[0] == 'c' && k[1] == 't' && k[2] == 'i' && k[3] == 'm' && k[4] == 'e' {
            assert(k@ =~= seq!['c', 't', 'i', 'm', 'e']);
        }
        if n == 5 && k[0] == 'm' && k[1] == 't' && k[2] == 'i' && k[3] == 'm' && k[4] == 'e' {
            assert(k@ =~= seq!['m', 't', 'i', 'm', 'e']);
        }
        if n == 7 && k[0] == 'a' && k[1] == 'l' && k[2] == 'i' && k[3] == 'a' && k[4] == 's'
            && k[5] == 'e' && k[6] == 's' {
            assert(k@ =~= seq!['a', 'l', 'i', 'a', 's', 'e', 's']);
        }
    }
    r
}

/// Errors in changing a note's metadata.
#[derive(Debug)]
pub enum MetadataError {
    /// User-defined metadata cannot use a reserved key.
    ReservedKey { key: String },
}

/// The key that a metadata error names.
pub open spec fn reserved_key_of(e: MetadataError) -> Seq<char> {
    match e {
        MetadataError::ReservedKey { key } => key@,
    }
}

/// The view of a result whose error is a [`MetadataError`]: the error
/// becomes the reserved key that it names.
pub open spec fn meta_result_view<T>(r: Result<T, MetadataError>) -> Result<T, Seq<char>> {
    match r {
        Ok(v) => Ok(v),
        Err(e) => Err(reserved_key_of(e)),
    }
}

/// Errors in reading or writing a note.
#[derive(Debug)]
pub enum NoteError {
    /// The note's `meta.toml` could not be read.
    MetadataReadError { id: Identifier, error: std::io::Error },
    /// The note's `meta.toml` is not valid metadata; `error` says why.
    MetadataParseError { id: Identifier, error: String },
    /// The note's metadata could not be written as TOML; `error` says why.
    MetadataSerialiseError { id: Identifier, error: String },
    /// The note's `body.md` could not be read.
    BodyReadError { id: Identifier, error: std::io::Error },
    /// The note's directory could not be created.
    NoteCreateDirError { id: Identifier, error: std::io::Error },
    /// The note's `meta.toml` could not be written.
    MetadataWriteError { id: Identifier, error: std::io::Error },
    /// The note's `body.md` could not be written.
    BodyWriteError { id: Identifier, error: std::io::Error },
}

/// The view of a [`NoteError`]: the same error, with a message as its text.
pub enum NoteErrorView {
    MetadataRead { id: Identifier, error: std::io::Error },
    MetadataParse { id: Identifier, error: Seq<char> },
    MetadataSerialise { id: Identifier, error: Seq<char> },
    BodyRead { id: Identifier, error: std::io::Error },
    CreateDir { id: Identifier, error: std::io::Error },
    MetadataWrite { id: Identifier, error: std::io::Error },
    BodyWrite { id: Identifier, error: std::io::Error },
}

impl View for NoteError {
    type V = NoteErrorView;

    open spec fn view(&self) -> NoteErrorView {
        match self {
            NoteError::MetadataReadError { id, error } => NoteErrorView::MetadataRead {
                id: *id,
                error: *error,
            },
            NoteError::MetadataParseError { id, error } => NoteErrorView::MetadataParse {
                id: *id,
                error: error@,
            },
            NoteError::MetadataSerialiseError { id, error } => NoteErrorView::MetadataSerialise {
                id: *id,
                error: error@,
            },
            NoteError::BodyReadError { id, error } => NoteErrorView::BodyRead { id: *id, error: *error },
            NoteError::NoteCreateDirError { id, error } => NoteErrorView::CreateDir {
                id: *id,
                error: *error,
            },
            NoteError::MetadataWriteError { id, error } => NoteErrorView::MetadataWrite {
                id: *id,
                error: *error,
            },
            NoteError::BodyWriteError { id, error } => NoteErrorView::BodyWrite { id: *id, error: *error },
        }
    }
}

/// The view of a list of strings.
pub open spec fn strings_view(v: Seq<String>) -> Seq<Seq<char>> {
    v.map_values(|s: String| s@)
}

/// Whether two lists of strings are equal.
pub fn strings_eq(a: &Vec<String>, b: &Vec<String>) -> (r: bool)
    ensures
        r == (strings_view(a@) == strings_view(b@)),
{
    if a.len() != b.len() {
        assert(strings_view(a@).len() != strings_view(b@).len());
        return false;
    }
    let mut i: usize = 0;
    while i < a.len()
        invariant
            a@.len() == b@.len(),
            i <= a@.len(),
            forall|j: int| #![trigger a@[j]] 0 <= j < i ==> a@[j]@ == b@[j]@,
        decreases a@.len() - i,
    {
        if !(a[i] == b[i]) {
            assert(strings_view(a@)[i as int] != strings_view(b@)[i as int]);
            return false;
        }
        i = i + 1;
    }
    assert(strings_view(a@) =~= strings_view(b@));
    true
}

/// A copy of a list of strings.
pub fn copy_strings(a: &Vec<String>) -> (r: Vec<String>)
    ensures
        strings_view(r@) == strings_view(a@),
{
    let mut r: Vec<String> = Vec::new();
    let mut i: usize = 0;
    while i < a.len()
        invariant
            i <= a@.len(),
            r@.len() == i,
            forall|j: int| #![trigger r@[j]] 0 <= j < i ==> r@[j]@ == a@[j]@,
        decreases a@.len() - i,
    {
        r.push(a[i].clone());
        i = i + 1;
    }
    assert(strings_view(r@) =~= strings_view(a@));
    r
}

/// The metadata stored in the note's `meta.toml`: its identifier, its
/// creation time (`ctime`), its last modified time (`mtime`), a
/// possibly-empty list of aliases, and arbitrary user-defined key-value
/// pairs (`extra`).
#[derive(Debug)]
pub struct Metadata {
    id: Identifier,
    ctime: Timestamp,
    mtime: Timestamp,
    aliases: Vec<String>,
    extra: ExtraTable,
}

/// The view of [`Metadata`].
pub struct MetadataView {
    pub id: Identifier,
    pub ctime: Timestamp,
    pub mtime: Timestamp,
    pub aliases: Seq<Seq<char>>,
    pub extra: Seq<EntryView>,
}

impl View for Metadata {
    type V = MetadataView;

    closed spec fn view(&self) -> MetadataView {
        MetadataView {
            id: self.id,
            ctime: self.ctime,
            mtime: self.mtime,
            aliases: strings_view(self.aliases@),
            extra: self.extra@,
        }
    }
}

impl Metadata {
    /// The metadata's invariant: the keys of `extra` ascend strictly.
    pub closed spec fn wf(&self) -> bool {
        self.extra.wf()
    }

    /// Metadata made of its parts.
    pub fn new(
        id: Identifier,
        ctime: Timestamp,
        mtime: Timestamp,
        aliases: Vec<String>,
        extra: ExtraTable,
    ) -> (m: Metadata)
        requires
            extra.wf(),
        ensures
            m.wf(),
            m@ == (MetadataView {
                id,
                ctime,
                mtime,
                aliases: strings_view(aliases@),
                extra: extra@,
            }),
    {
        Metadata { id, ctime, mtime, aliases, extra }
    }

    /// The note's unique identifier.
    pub fn id(&self) -> (r: &Identifier)
        ensures
            *r == self@.id,
    {
        &self.id
    }

    /// The time when the note was created.
    pub fn ctime(&self) -> (r: &Timestamp)
        ensures
            *r == self@.ctime,
    {
        &self.ctime
    }

    /// The time when the note was last modified.
    pub fn mtime(&self) -> (r: &Timestamp)
        ensures
            *r == self@.mtime,
    {
        &self.mtime
    }

    /// The note's aliases.
    pub fn aliases(&self) -> (r: &Vec<String>)
        ensures
            strings_view(r@) == self@.aliases,
    {
        &self.aliases
    }

    /// The note's user-defined metadata.
    pub fn extra(&self) -> (r: &ExtraTable)
        ensures
            r@ == self@.extra,
            self.wf() ==> r.wf(),
    {
        &self.extra
    }
}

/// A note: its metadata, its body, and whether each of them has changed
/// since it was last written.
#[derive(Debug)]
pub struct Note {
    /// The metadata stored in the note's `meta.toml`.
    meta: Metadata,
    /// The note's body, stored in `body.md`.
    body: String,
    /// Whether the body needs to be persisted.
    dirty_body: bool,
    /// Whether the metadata needs to be persisted.
    dirty_meta: bool,
}

/// The view of a [`Note`].
pub struct NoteView {
    pub meta: MetadataView,
    pub body: Seq<char>,
    pub dirty_body: bool,
    pub dirty_meta: bool,
}

impl View for Note {
    type V = NoteView;

    closed spec fn view(&self) -> NoteView {
        NoteView {
            meta: self.meta@,
            body: self.body@,
            dirty_body: self.dirty_body,
            dirty_meta: self.dirty_meta,
        }
    }
}

/// The note `n` with its modification time set to `t` and its metadata
/// marked as changed.
pub open spec fn touched(n: NoteView, t: Timestamp) -> NoteView {
    NoteView { meta: MetadataView { mtime: t, ..n.meta }, dirty_meta: true, ..n }
}

impl Note {
    /// The note's invariant: that of its metadata.
    pub closed spec fn wf(&self) -> bool {
        self.meta.wf()
    }

    /// An empty note, standing in while a note is being edited.
    fn placeholder() -> (n: Note)
        ensures
            n.wf(),
            n@ == (NoteView {
                meta: MetadataView {
                    id: Identifier { hi: 0, lo: 0 },
                    ctime: Timestamp { secs: 0, nanos: 0 },
                    mtime: Timestamp { secs: 0, nanos: 0 },
                    aliases: Seq::<Seq<char>>::empty(),
                    extra: Seq::<EntryView>::empty(),
                },
                body: Seq::<char>::empty(),
                dirty_body: false,
                dirty_meta: false,
            }),
    {
        let aliases: Vec<String> = Vec::new();
        assert(strings_view(aliases@) =~= Seq::<Seq<char>>::empty());
        let meta = Metadata::new(
            Identifier { hi: 0, lo: 0 },
            Timestamp { secs: 0, nanos: 0 },
            Timestamp { secs: 0, nanos: 0 },
            aliases,
            ExtraTable::new(),
        );
        let body = String::new();
        assert(body@ =~= Seq::<char>::empty());
        Note { meta, body, dirty_body: false, dirty_meta: false }
    }

    /// A note made of its parts.
    pub fn from_parts(meta: Metadata, body: String, dirty_body: bool, dirty_meta: bool) -> (n: Note)
        requires
            meta.wf(),
        ensures
            n.wf(),
            n@ == (NoteView { meta: meta@, body: body@, dirty_body, dirty_meta }),
    {
        Note { meta, body, dirty_body, dirty_meta }
    }

    /// The note's metadata.
    pub fn meta(&self) -> (r: &Metadata)
        ensures
            r@ == self@.meta,
            self.wf() ==> r.wf(),
    {
        &self.meta
    }

    /// The note's body.
    pub fn body(&self) -> (r: &String)
        ensures
            r@ == self@.body,
    {
        &self.body
    }

    /// Whether the body has changed since it was last written.
    pub fn is_dirty_body(&self) -> (r: bool)
        ensures
            r == self@.dirty_body,
    {
        self.dirty_body
    }

    /// Whether the metadata has changed since it was last written.
    pub fn is_dirty_meta(&self) -> (r: bool)
        ensures
            r == self@.dirty_meta,
    {
        self.dirty_meta
    }

    /// Marks the body as written.
    pub fn mark_body_clean(&mut self)
        requires
            old(self).wf(),
        ensures
            final(self).wf(),
            final(self)@ == (NoteView { dirty_body: false, ..old(self)@ }),
    {
        self.dirty_body = false;
    }

    /// Marks the metadata as written.
    pub fn mark_meta_clean(&mut self)
        requires
            old(self).wf(),
        ensures
            final(self).wf(),
            final(self)@ == (NoteView { dirty_meta: false, ..old(self)@ }),
    {
        self.dirty_meta = false;
    }

    /// Marks the body as changed.
    pub fn mark_dirty_body(&mut self)
        requires
            old(self).wf(),
        ensures
            final(self).wf(),
            final(self)@ == (NoteView { dirty_body: true, ..old(self)@ }),
    {
        self.dirty_body = true;
    }

    /// Records a modification at time `now`.
    pub fn touch_at(&mut self, now: Timestamp)
        requires
            old(self).wf(),
        ensures
            final(self).wf(),
            final(self)@ == touched(old(self)@, now),
    {
        self.meta.mtime = now;
        self.dirty_meta = true;
    }

    /// Replaces the body; a different body is marked as changed and the
    /// modification time becomes the current time.
    pub fn set_body(&mut self, body: String)
        requires
            old(self).wf(),
        ensures
            final(self).wf(),
            old(self)@.body == body@ ==> final(self)@ == old(self)@,
            old(self)@.body != body@ ==> final(self)@ == touched(
                NoteView { body: body@, dirty_body: true, ..old(self)@ },
                final(self)@.meta.mtime,
            ),
            old(self)@.body != body@ ==> final(self)@.meta.mtime.secs >= 0
                && final(self)@.meta.mtime.nanos < 1_000_000_000,
    {
        if self.body == body {
            return ;
        }
        self.body = body;
        self.dirty_body = true;
        self.touch_at(Timestamp::now());
    }

    /// Applies `update` through an editor.  When the update succeeds and
    /// changed something, the changed parts are marked and the modification
    /// time becomes the current time.  Says whether anything changed.
    pub fn update<U: NoteUpdate>(&mut self, update: &U) -> (r: Result<bool, MetadataError>)
        requires
            old(self).wf(),
        ensures
            final(self).wf(),
            (final(self)@, meta_result_view(r)) == updated(
                update.apply_spec(fresh_editor(old(self)@)),
                final(self)@.meta.mtime,
            ),
            r matches Ok(true) ==> final(self)@.meta.mtime.secs >= 0
                && final(self)@.meta.mtime.nanos < 1_000_000_000,
            update_keeps(old(self)@, final(self)@, meta_result_view(r)),
            honest_edit(fresh_editor(old(self)@), update.apply_spec(fresh_editor(old(self)@)).0),
    {
        let r = apply_edits(self, update);
        if let Ok(true) = r {
            self.touch_at(Timestamp::now());
        }
        r
    }
}

/// The note and the result after an update whose application through an
/// editor gave `update_result`: when it succeeded and changed something,
/// the changed parts are marked and the note is marked as modified at
/// `now`.
pub open spec fn updated(update_result: (EditorView, Result<(), Seq<char>>), now: Timestamp) -> (
    NoteView,
    Result<bool, Seq<char>>,
) {
    let (e, res) = update_result;
    match res {
        Ok(()) => if e.mutated {
            (
                touched(
                    NoteView {
                        dirty_body: e.note.dirty_body || e.dirty_body,
                        dirty_meta: e.note.dirty_meta || e.dirty_meta,
                        ..e.note
                    },
                    now,
                ),
                Ok(true),
            )
        } else {
            (e.note, Ok(false))
        },
        Err(k) => (e.note, Err(k)),
    }
}

/// The note and the result after an update whose application through an
/// editor gave `update_result`, before any modification time is set: when
/// it succeeded, the parts that it changed are marked.
pub open spec fn edited(update_result: (EditorView, Result<(), Seq<char>>)) -> (
    NoteView,
    Result<bool, Seq<char>>,
) {
    let (e, res) = update_result;
    match res {
        Ok(()) => if e.mutated {
            (
                NoteView {
                    dirty_body: e.note.dirty_body || e.dirty_body,
                    dirty_meta: e.note.dirty_meta || e.dirty_meta,
                    ..e.note
                },
                Ok(true),
            )
        } else {
            (e.note, Ok(false))
        },
        Err(k) => (e.note, Err(k)),
    }
}

/// What every update keeps, whatever it does: the note's identifier and
/// creation time; after a refusal, the marks of what is unwritten and the
/// modification time; and, when nothing changed, the whole note.
pub open spec fn update_keeps(before: NoteView, after: NoteView, r: Result<bool, Seq<char>>) -> bool {
    &&& after.meta.id == before.meta.id
    &&& after.meta.ctime == before.meta.ctime
    &&& r is Err ==> after.dirty_body == before.dirty_body && after.dirty_meta == before.dirty_meta
        && after.meta.mtime == before.meta.mtime
    &&& r == Ok::<bool, Seq<char>>(false) ==> after == before
}

/// Applies `update` to `note` through an editor and, when it changed
/// something, marks the changed parts; the modification time is left to
/// the caller, which reads its clock only when `Ok(true)` comes back.
pub fn apply_edits<U: NoteUpdate>(note: &mut Note, update: &U) -> (r: Result<bool, MetadataError>)
    requires
        old(note).wf(),
    ensures
        final(note).wf(),
        (final(note)@, meta_result_view(r)) == edited(update.apply_spec(fresh_editor(old(note)@))),
        update_keeps(old(note)@, final(note)@, meta_result_view(r)),
        honest_edit(fresh_editor(old(note)@), update.apply_spec(fresh_editor(old(note)@)).0),
{
    let mut taken = Note::placeholder();
    std::mem::swap(note, &mut taken);
    let mut editor = NoteEditor { note: taken, mutated: false, dirty_body: false, dirty_meta: false };
    let res = update.apply(&mut editor);
    assert(honest_edit(fresh_editor(old(note)@), editor@));
    let NoteEditor { note: edited, mutated, dirty_body, dirty_meta } = editor;
    *note = edited;
    match res {
        Err(e) => Err(e),
        Ok(()) => {
            if mutated {
                if dirty_body {
                    note.dirty_body = true;
                }
                if dirty_meta {
                    note.dirty_meta = true;
                }
            }
            Ok(mutated)
        },
    }
}

/// Applies `update` to `note` through an editor and, when it changed
/// something, marks the changed parts and the modification at `now`.
pub fn apply_update<U: NoteUpdate>(note: &mut Note, update: &U, now: Timestamp) -> (r: Result<
    bool,
    MetadataError,
>)
    requires
        old(note).wf(),
    ensures
        final(note).wf(),
        (final(note)@, meta_result_view(r)) == updated(
            update.apply_spec(fresh_editor(old(note)@)),
            now,
        ),
        update_keeps(old(note)@, final(note)@, meta_result_view(r)),
        honest_edit(fresh_editor(old(note)@), update.apply_spec(fresh_editor(old(note)@)).0),
{
    let r = apply_edits(note, update);
    if let Ok(true) = r {
        note.touch_at(now);
    }
    r
}

/// The view of a [`NoteEditor`]: the note as edited so far, whether any
/// edit changed it, and which parts changed.
pub struct EditorView {
    pub note: NoteView,
    pub mutated: bool,
    pub dirty_body: bool,
    pub dirty_meta: bool,
}

/// An editor over `n` that has changed nothing yet.
pub open spec fn fresh_editor(n: NoteView) -> EditorView {
    EditorView { note: n, mutated: false, dirty_body: false, dirty_meta: false }
}

/// An editor's change from `a` to `b` is one that the editor's methods can
/// make: the note keeps its identifier, its creation and modification times
/// and its own marks of what is unwritten; the editor's marks only grow;
/// and a changed body, or changed metadata, is marked as a change of it.
pub open spec fn honest_edit(a: EditorView, b: EditorView) -> bool {
    &&& b.note.meta.id == a.note.meta.id
    &&& b.note.meta.ctime == a.note.meta.ctime
    &&& b.note.meta.mtime == a.note.meta.mtime
    &&& b.note.dirty_body == a.note.dirty_body
    &&& b.note.dirty_meta == a.note.dirty_meta
    &&& (a.mutated ==> b.mutated)
    &&& (a.dirty_body ==> b.dirty_body)
    &&& (a.dirty_meta ==> b.dirty_meta)
    &&& (b.note.body != a.note.body ==> b.dirty_body && b.mutated)
    &&& (b.note.meta != a.note.meta ==> b.dirty_meta && b.mutated)
}

/// Honest changes compose.
pub proof fn lemma_honest_edit_transitive(a: EditorView, b: EditorView, c: EditorView)
    requires
        honest_edit(a, b),
        honest_edit(b, c),
    ensures
        honest_edit(a, c),
{
}

/// Each of the editor's changes is honest.
pub proof fn lemma_edits_honest(e: EditorView, b: Seq<char>, a: Seq<Seq<char>>, k: Seq<char>, v: crate::toml_value::TomlValueView, t: Seq<EntryView>)
    ensures
        honest_edit(e, e),
        honest_edit(e, edit_set_body(e, b).0),
        honest_edit(e, edit_set_aliases(e, a).0),
        honest_edit(e, edit_set_extra_value(e, k, v).0),
        honest_edit(e, edit_remove_extra_key(e, k).0),
        honest_edit(e, edit_clear_extra(e).0),
        honest_edit(e, edit_set_extra(e, t).0),
{
}

/// The editor's mark of a change gathers its methods' answers: after each
/// method, the editor is marked as changed exactly when it was before or
/// the method answered that it changed something.  So an update through the
/// editor, which answers `Ok` of that mark, answers `Ok(true)` exactly when
/// one of its calls answered a change, even if a later call undid it.
pub proof fn lemma_edit_marks(
    e: EditorView,
    b: Seq<char>,
    a: Seq<Seq<char>>,
    k: Seq<char>,
    v: crate::toml_value::TomlValueView,
    t: Seq<EntryView>,
)
    ensures
        edit_set_body(e, b).0.mutated == (e.mutated || edit_set_body(e, b).1),
        edit_set_aliases(e, a).0.mutated == (e.mutated || edit_set_aliases(e, a).1),
        edit_set_extra_value(e, k, v).0.mutated == (e.mutated || edit_set_extra_value(e, k, v).1
            == Ok::<bool, Seq<char>>(true)),
        edit_remove_extra_key(e, k).0.mutated == (e.mutated || edit_remove_extra_key(e, k).1
            == Ok::<bool, Seq<char>>(true)),
        edit_clear_extra(e).0.mutated == (e.mutated || edit_clear_extra(e).1),
        edit_set_extra(e, t).0.mutated == (e.mutated || edit_set_extra(e, t).1 == Ok::<
            bool,
            Seq<char>,
        >(true)),
        forall|now: Timestamp| #[trigger] updated((e, Ok::<(), Seq<char>>(())), now).1 == Ok::<
            bool,
            Seq<char>,
        >(e.mutated),
{
}

/// One call of the editor's methods, by its arguments.
pub enum EditCallView {
    SetBody(Seq<char>),
    SetAliases(Seq<Seq<char>>),
    SetExtraValue(Seq<char>, crate::toml_value::TomlValueView),
    RemoveExtraKey(Seq<char>),
    ClearExtra,
    SetExtra(Seq<EntryView>),
}

/// The editor after the call `c` on `e`, and whether the call answered that
/// it changed something (`true`, or `Ok(true)`).
pub open spec fn edit_call(e: EditorView, c: EditCallView) -> (EditorView, bool) {
    match c {
        EditCallView::SetBody(b) => edit_set_body(e, b),
        EditCallView::SetAliases(a) => edit_set_aliases(e, a),
        EditCallView::SetExtraValue(k, v) => {
            let (e2, r) = edit_set_extra_value(e, k, v);
            (e2, r == Ok::<bool, Seq<char>>(true))
        },
        EditCallView::RemoveExtraKey(k) => {
            let (e2, r) = edit_remove_extra_key(e, k);
            (e2, r == Ok::<bool, Seq<char>>(true))
        },
        EditCallView::ClearExtra => edit_clear_extra(e),
        EditCallView::SetExtra(t) => {
            let (e2, r) = edit_set_extra(e, t);
            (e2, r == Ok::<bool, Seq<char>>(true))
        },
    }
}

/// The editor after the calls `cs` on `e`, in order, and which of them
/// answered a change.
pub open spec fn edit_calls(e: EditorView, cs: Seq<EditCallView>) -> (EditorView, Seq<bool>)
    decreases cs.len(),
{
    if cs.len() == 0 {
        (e, seq![])
    } else {
        let (e1, a) = edit_calls(e, cs.drop_last());
        let (e2, b) = edit_call(e1, cs.last());
        (e2, a.push(b))
    }
}

/// Whether one of the answers says a change.
pub open spec fn any_change(answers: Seq<bool>) -> bool {
    exists|i: int| 0 <= i < answers.len() && #[trigger] answers[i]
}

proof fn lemma_edit_calls_marks_from(e: EditorView, cs: Seq<EditCallView>)
    ensures
        edit_calls(e, cs).1.len() == cs.len(),
        edit_calls(e, cs).0.mutated == (e.mutated || any_change(edit_calls(e, cs).1)),
        honest_edit(e, edit_calls(e, cs).0),
    decreases cs.len(),
{
    lemma_edits_honest(e, seq![], seq![], seq![], arbitrary(), seq![]);
    if cs.len() > 0 {
        lemma_edit_calls_marks_from(e, cs.drop_last());
        let (e1, a) = edit_calls(e, cs.drop_last());
        let (e2, b) = edit_call(e1, cs.last());
        match cs.last() {
            EditCallView::SetBody(x) => {
                lemma_edit_marks(e1, x, seq![], seq![], arbitrary(), seq![]);
                lemma_edits_honest(e1, x, seq![], seq![], arbitrary(), seq![]);
            },
            EditCallView::SetAliases(x) => {
                lemma_edit_marks(e1, seq![], x, seq![], arbitrary(), seq![]);
                lemma_edits_honest(e1, seq![], x, seq![], arbitrary(), seq![]);
            },
            EditCallView::SetExtraValue(k, v) => {
                lemma_edit_marks(e1, seq![], seq![], k, v, seq![]);
                lemma_edits_honest(e1, seq![], seq![], k, v, seq![]);
            },
            EditCallView::RemoveExtraKey(k) => {
                lemma_edit_marks(e1, seq![], seq![], k, arbitrary(), seq![]);
                lemma_edits_honest(e1, seq![], seq![], k, arbitrary(), seq![]);
            },
            EditCallView::ClearExtra => {
                lemma_edit_marks(e1, seq![], seq![], seq![], arbitrary(), seq![]);
                lemma_edits_honest(e1, seq![], seq![], seq![], arbitrary(), seq![]);
            },
            EditCallView::SetExtra(t) => {
                lemma_edit_marks(e1, seq![], seq![], seq![], arbitrary(), t);
                lemma_edits_honest(e1, seq![], seq![], seq![], arbitrary(), t);
            },
        }
        lemma_honest_edit_transitive(e, e1, e2);
        let ans = a.push(b);
        if any_change(a) {
            let i = choose|i: int| 0 <= i < a.len() && #[trigger] a[i];
            assert(ans[i]);
        }
        if b {
            assert(ans[ans.len() - 1]);
        }
        if any_change(ans) {
            let i = choose|i: int| 0 <= i < ans.len() && #[trigger] ans[i];
            if i < a.len() {
                assert(a[i]);
            }
        }
    }
}

/// An update made of editor calls answers `Ok(true)` exactly when one of
/// its calls answered a change, even when a later call undid it; the calls
/// change the note only as the editor's methods can, and nothing of the
/// note is marked written.
pub proof fn lemma_edit_calls_marks(n: NoteView, cs: Seq<EditCallView>, now: Timestamp)
    ensures
        ({
            let (e, answers) = edit_calls(fresh_editor(n), cs);
            &&& answers.len() == cs.len()
            &&& updated((e, Ok::<(), Seq<char>>(())), now).1 == Ok::<bool, Seq<char>>(
                any_change(answers),
            )
            &&& honest_edit(fresh_editor(n), e)
        }),
{
    lemma_edit_calls_marks_from(fresh_editor(n), cs);
}

/// The editor `e` with the metadata of its note replaced by `m`, marked as
/// a change of the metadata.
pub open spec fn with_meta(e: EditorView, m: MetadataView) -> EditorView {
    EditorView { note: NoteView { meta: m, ..e.note }, mutated: true, dirty_meta: true, ..e }
}

/// Setting the body to `b`: a change exactly when `b` differs.
pub open spec fn edit_set_body(e: EditorView, b: Seq<char>) -> (EditorView, bool) {
    if e.note.body == b {
        (e, false)
    } else {
        (
            EditorView {
                note: NoteView { body: b, ..e.note },
                mutated: true,
                dirty_body: true,
                ..e
            },
            true,
        )
    }
}

/// Setting the aliases to `a`: a change exactly when `a` differs.
pub open spec fn edit_set_aliases(e: EditorView, a: Seq<Seq<char>>) -> (EditorView, bool) {
    if e.note.meta.aliases == a {
        (e, false)
    } else {
        (with_meta(e, MetadataView { aliases: a, ..e.note.meta }), true)
    }
}

/// Setting the user-defined key `k` to `v`: refused for a reserved key, and
/// a change exactly when `k` did not hold a value equal to `v`, as `toml`
/// compares values.
pub open spec fn edit_set_extra_value(
    e: EditorView,
    k: Seq<char>,
    v: crate::toml_value::TomlValueView,
) -> (EditorView, Result<bool, Seq<char>>) {
    if is_reserved(k) {
        (e, Err(k))
    } else {
        let changed = match lookup(e.note.meta.extra, k) {
            Some(existing) => !crate::toml_value::toml_values_equal(existing, v),
            None => true,
        };
        if changed {
            (
                with_meta(
                    e,
                    MetadataView { extra: inserted(e.note.meta.extra, k, v), ..e.note.meta },
                ),
                Ok(true),
            )
        } else {
            (e, Ok(false))
        }
    }
}

/// Removing the user-defined key `k`: refused for a reserved key, and a
/// change exactly when `k` held a value.
pub open spec fn edit_remove_extra_key(e: EditorView, k: Seq<char>) -> (
    EditorView,
    Result<bool, Seq<char>>,
) {
    if is_reserved(k) {
        (e, Err(k))
    } else if lookup(e.note.meta.extra, k) is Some {
        (
            with_meta(e, MetadataView { extra: removed(e.note.meta.extra, k), ..e.note.meta }),
            Ok(true),
        )
    } else {
        (e, Ok(false))
    }
}

/// Removing all user-defined metadata: a change exactly when there was some.
pub open spec fn edit_clear_extra(e: EditorView) -> (EditorView, bool) {
    if e.note.meta.extra.len() == 0 {
        (e, false)
    } else {
        (with_meta(e, MetadataView { extra: Seq::empty(), ..e.note.meta }), true)
    }
}

/// The first reserved key of the table `s`, in key order.
pub open spec fn first_reserved_key(s: Seq<EntryView>) -> Option<Seq<char>>
    decreases s.len(),
{
    if s.len() == 0 {
        None
    } else if is_reserved(s[0].0) {
        Some(s[0].0)
    } else {
        first_reserved_key(s.drop_first())
    }
}

/// Replacing all user-defined metadata by `t`: refused, naming the first
/// reserved key of `t`, when `t` has one, and a change exactly when `t`
/// differs from the current table.
pub open spec fn edit_set_extra(e: EditorView, t: Seq<EntryView>) -> (
    EditorView,
    Result<bool, Seq<char>>,
) {
    match first_reserved_key(t) {
        Some(k) => (e, Err(k)),
        None => if same_entries(e.note.meta.extra, t) {
            (e, Ok(false))
        } else {
            (with_meta(e, MetadataView { extra: t, ..e.note.meta }), Ok(true))
        },
    }
}

/// Keeps track of the changes made to a [`Note`], so that they can be
/// marked and written together.
pub struct NoteEditor {
    note: Note,
    mutated: bool,
    dirty_body: bool,
    dirty_meta: bool,
}

impl View for NoteEditor {
    type V = EditorView;

    closed spec fn view(&self) -> EditorView {
        EditorView {
            note: self.note@,
            mutated: self.mutated,
            dirty_body: self.dirty_body,
            dirty_meta: self.dirty_meta,
        }
    }
}

impl NoteEditor {
    /// The editor's invariant: that of the note it edits.
    pub closed spec fn wf(&self) -> bool {
        self.note.wf()
    }

    /// An editor over `note` that has changed nothing yet.
    pub(crate) fn new(note: Note) -> (e: NoteEditor)
        requires
            note.wf(),
        ensures
            e.wf(),
            e@ == fresh_editor(note@),
    {
        NoteEditor { note, mutated: false, dirty_body: false, dirty_meta: false }
    }

    /// Whether any edit changed the note.
    pub fn mutated(&self) -> (r: bool)
        ensures
            r == self@.mutated,
    {
        self.mutated
    }

    /// Whether an edit changed the body.
    pub fn dirty_body(&self) -> (r: bool)
        ensures
            r == self@.dirty_body,
    {
        self.dirty_body
    }

    /// Whether an edit changed the metadata.
    pub fn dirty_meta(&self) -> (r: bool)
        ensures
            r == self@.dirty_meta,
    {
        self.dirty_meta
    }

    /// The body of the note as edited so far.
    pub fn body(&self) -> (r: &String)
        ensures
            r@ == self@.note.body,
    {
        &self.note.body
    }

    /// The metadata of the note as edited so far.
    pub fn meta(&self) -> (r: &Metadata)
        ensures
            r@ == self@.note.meta,
            self.wf() ==> r.wf(),
    {
        &self.note.meta
    }

    /// Sets the body; says whether it changed.
    pub fn set_body(&mut self, body: String) -> (r: bool)
        requires
            old(self).wf(),
        ensures
            final(self).wf(),
            (final(self)@, r) == edit_set_body(old(self)@, body@),
    {
        if self.note.body == body {
            return false;
        }
        self.note.body = body;
        self.dirty_body = true;
        self.mutated = true;
        true
    }

    /// Sets the aliases; says whether they changed.
    pub fn set_aliases(&mut self, aliases: Vec<String>) -> (r: bool)
        requires
            old(self).wf(),
        ensures
            final(self).wf(),
            (final(self)@, r) == edit_set_aliases(old(self)@, strings_view(aliases@)),
    {
        if strings_eq(&self.note.meta.aliases, &aliases) {
            return false;
        }
        self.note.meta.aliases = aliases;
        self.dirty_meta = true;
        self.mutated = true;
        true
    }

    /// Sets the user-defined key `key` to `value`; says whether the
    /// metadata changed.  A reserved key is refused.
    pub fn set_extra_value(&mut self, key: String, value: TomlValue) -> (r: Result<
        bool,
        MetadataError,
    >)
        requires
            old(self).wf(),
        ensures
            final(self).wf(),
            (final(self)@, meta_result_view(r)) == edit_set_extra_value(
                old(self)@,
                key@,
                value@,
            ),
    {
        if is_reserved_key(key.as_str()) {
            return Err(MetadataError::ReservedKey { key });
        }
        let changed = match self.note.meta.extra.get(key.as_str()) {
            Some(existing) => !existing.same_as(&value),
            None => true,
        };
        if changed {
            self.note.meta.extra.insert(key, value);
            self.dirty_meta = true;
            self.mutated = true;
        }
        Ok(changed)
    }

    /// Removes the user-defined key `key`; says whether it was there.  A
    /// reserved key is refused.
    pub fn remove_extra_key(&mut self, key: &str) -> (r: Result<bool, MetadataError>)
        requires
            old(self).wf(),
        ensures
            final(self).wf(),
            (final(self)@, meta_result_view(r)) == edit_remove_extra_key(old(self)@, key@),
            r is Ok ==> lookup(final(self)@.note.meta.extra, key@) is None,
    {
        if is_reserved_key(key) {
            return Err(MetadataError::ReservedKey { key: owned(key) });
        }
        let removed = self.note.meta.extra.remove(key);
        assert(lookup(self.note.meta.extra@, key@) is None);
        if removed {
            self.dirty_meta = true;
            self.mutated = true;
        }
        Ok(removed)
    }

    /// Removes all user-defined metadata; says whether there was any.
    pub fn clear_extra(&mut self) -> (r: bool)
        requires
            old(self).wf(),
        ensures
            final(self).wf(),
            (final(self)@, r) == edit_clear_extra(old(self)@),
    {
        if self.note.meta.extra.is_empty() {
            return false;
        }
        self.note.meta.extra.clear();
        self.dirty_meta = true;
        self.mutated = true;
        true
    }

    /// Replaces all user-defined metadata by `extra`; says whether it
    /// changed.  A table with a reserved key is refused, naming its first
    /// reserved key.
    pub fn set_extra(&mut self, extra: ExtraTable) -> (r: Result<bool, MetadataError>)
        requires
            old(self).wf(),
            extra.wf(),
        ensures
            final(self).wf(),
            (final(self)@, meta_result_view(r)) == edit_set_extra(old(self)@, extra@),
    {
        let n = extra.len();
        let mut i: usize = 0;
        assert(extra@.skip(0) =~= extra@);
        while i < n
            invariant
                self.wf(),
                self@ == old(self)@,
                n == extra@.len(),
                i <= n,
                first_reserved_key(extra@) == first_reserved_key(extra@.skip(i as int)),
            decreases n - i,
        {
            let key = extra.key_at(i);
            let ghost rest = extra@.skip(i as int);
            assert(rest[0] == extra@[i as int]);
            assert(rest.drop_first() =~= extra@.skip(i + 1));
            if is_reserved_key(key.as_str()) {
                return Err(MetadataError::ReservedKey { key: key.clone() });
            }
            i = i + 1;
        }
        assert(extra@.skip(n as int).len() == 0);
        if self.note.meta.extra.same_as(&extra) {
            return Ok(false);
        }
        self.note.meta.extra = extra;
        self.dirty_meta = true;
        self.mutated = true;
        Ok(true)
    }
}

/// An update of a note through a [`NoteEditor`]: what its application does
/// is the function `apply_spec` of the editor it starts from.  The library's
/// updates are [`crate::edit::EditSpec`] and [`crate::edit::ReplaceExtra`].
pub trait NoteUpdate {
    /// The editor after the update and the update's result, from the editor
    /// before it; an error is the reserved key that it names.
    spec fn apply_spec(&self, e: EditorView) -> (EditorView, Result<(), Seq<char>>);

    /// Applies the update.
    fn apply(&self, editor: &mut NoteEditor) -> (r: Result<(), MetadataError>)
        requires
            old(editor).wf(),
        ensures
            final(editor).wf(),
            (final(editor)@, meta_result_view(r)) == self.apply_spec(old(editor)@),
            honest_edit(old(editor)@, final(editor)@),
    ;
}

} // verus!
