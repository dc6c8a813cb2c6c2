//! A store is a raw collection of notes: each note is a directory, named
//! by the note's identifier, under the store's root, holding `meta.toml`
//! and `body.md`.  The file system and the clock are reached through the
//! [`NoteIO`] and [`Clock`] traits, so that a store can be run on any of
//! them.
use vstd::prelude::*;
use crate::extra::{ExtraTable, EntryView};
use crate::identifier::{is_random_uuid, Identifier};
use crate::meta_format::{meta_of_text, meta_text, parse_metadata, render_metadata};
use crate::note::{
    apply_edits, fresh_editor, honest_edit, update_keeps, meta_result_view, strings_view, updated, Metadata, MetadataError,
    MetadataView, Note, NoteError, NoteErrorView, NoteUpdate, NoteView,
};
use crate::text::{chars_of, concat, owned};
use crate::timestamp::Timestamp;

verus! {

/// A source of the current time.
pub trait Clock {
    /// The current time.
    fn now(&self) -> Timestamp;
}

/// The system clock.
#[derive(Clone, Copy, Debug, Default)]
pub struct SystemClock;

impl Clock for SystemClock {
    /// The current time of the system clock: an instant at or after the
    /// epoch, with fewer than a billion nanoseconds.
    fn now(&self) -> (t: Timestamp)
        ensures
            t.secs >= 0,
            t.nanos < 1_000_000_000,
    {
        Timestamp::now()
    }
}

/// The file operations that a store performs.  Paths are `/`-separated.
pub trait NoteIO {
    /// Creates the directory `path` and all its missing parents.
    fn create_dir_all(&self, path: &str) -> Result<(), std::io::Error>;

    /// The contents of the file `path`.
    fn read_to_string(&self, path: &str) -> Result<String, std::io::Error>;

    /// Replaces the contents of the file `path` by `contents`.
    fn write(&self, path: &str, contents: &str) -> Result<(), std::io::Error>;
}

/// `b` under the directory `a`, as `Path::join` writes it for a relative
/// `b`.
pub open spec fn path_join(a: Seq<char>, b: Seq<char>) -> Seq<char> {
    if a.len() == 0 {
        b
    } else if a.last() == '/' {
        a + b
    } else {
        a + seq!['/'] + b
    }
}

/// The directory of the note `id` under `root`.
pub open spec fn note_dir(root: Seq<char>, id: Identifier) -> Seq<char> {
    path_join(root, id.text())
}

/// The `meta.toml` of the note `id` under `root`.
pub open spec fn meta_path(root: Seq<char>, id: Identifier) -> Seq<char> {
    path_join(note_dir(root, id), "meta.toml"@)
}

/// The `body.md` of the note `id` under `root`.
pub open spec fn body_path(root: Seq<char>, id: Identifier) -> Seq<char> {
    path_join(note_dir(root, id), "body.md"@)
}

/// `b` under the directory `a`.
pub fn join_path(a: &str, b: &str) -> (r: String)
    ensures
        r@ == path_join(a@, b@),
{
    let v = chars_of(a);
    if v.len() == 0 {
        owned(b)
    } else if v[v.len() - 1] == '/' {
        concat(owned(a), b)
    } else {
        proof {
            reveal_strlit("/");
        }
        concat(concat(owned(a), "/"), b)
    }
}

/// The directory of the note `id` under `root`.
pub fn note_dir_path(root: &str, id: &Identifier) -> (r: String)
    ensures
        r@ == note_dir(root@, *id),
{
    let t = id.to_string();
    join_path(root, t.as_str())
}

/// The identifier that an error names.
pub open spec fn error_id(e: NoteError) -> Identifier {
    match e {
        NoteError::MetadataReadError { id, .. } => id,
        NoteError::MetadataParseError { id, .. } => id,
        NoteError::MetadataSerialiseError { id, .. } => id,
        NoteError::BodyReadError { id, .. } => id,
        NoteError::NoteCreateDirError { id, .. } => id,
        NoteError::MetadataWriteError { id, .. } => id,
        NoteError::BodyWriteError { id, .. } => id,
    }
}

/// Whether `e` is an error of writing a note.
pub open spec fn is_write_error(e: NoteError) -> bool {
    match e {
        NoteError::NoteCreateDirError { .. } => true,
        NoteError::MetadataSerialiseError { .. } => true,
        NoteError::MetadataWriteError { .. } => true,
        NoteError::BodyWriteError { .. } => true,
        _ => false,
    }
}

/// The view of a result whose error is a [`NoteError`].
pub open spec fn unit_result_view(r: Result<(), NoteError>) -> Result<(), NoteErrorView> {
    match r {
        Ok(()) => Ok(()),
        Err(e) => Err(e@),
    }
}

/// The view of a note, or of the error of reading or creating it.
pub open spec fn note_result_view(r: Result<Note, NoteError>) -> Result<NoteView, NoteErrorView> {
    match r {
        Ok(n) => Ok(n@),
        Err(e) => Err(e@),
    }
}

/// The view of what the file system answered to a read.
pub open spec fn text_answer_view(a: Result<String, std::io::Error>) -> Result<
    Seq<char>,
    std::io::Error,
> {
    match a {
        Ok(t) => Ok(t@),
        Err(e) => Err(e),
    }
}

// ---------------------------------------------------------------------
// Writing a note, one file-system request at a time.
// ---------------------------------------------------------------------

/// The request of writing a note that was made last.
#[derive(Clone, Copy, Debug, PartialEq, Eq, Structural)]
pub enum WriteStage {
    /// The note's directory was to be created.
    CreateDir,
    /// The note's `meta.toml` was to be written.
    WriteMeta,
    /// The note's `body.md` was to be written.
    WriteBody,
}

/// The next step of writing a note: a request to the file system, or the
/// end of the writing with its result.
pub enum WriteStep {
    /// Create the directory `path` and its missing parents.
    CreateDir { path: String },
    /// Write `contents`, the note's metadata, to the file `path`.
    WriteMeta { path: String, contents: String },
    /// Write `contents`, the note's body, to the file `path`.
    WriteBody { path: String, contents: String },
    /// Writing ended with this result.
    Done(Result<(), NoteError>),
}

/// The view of a [`WriteStep`].
pub enum WriteStepView {
    CreateDir(Seq<char>),
    WriteMeta(Seq<char>, Seq<char>),
    WriteBody(Seq<char>, Seq<char>),
    Done(Result<(), NoteErrorView>),
}

impl View for WriteStep {
    type V = WriteStepView;

    open spec fn view(&self) -> WriteStepView {
        match self {
            WriteStep::CreateDir { path } => WriteStepView::CreateDir(path@),
            WriteStep::WriteMeta { path, contents } => WriteStepView::WriteMeta(path@, contents@),
            WriteStep::WriteBody { path, contents } => WriteStepView::WriteBody(path@, contents@),
            WriteStep::Done(r) => WriteStepView::Done(unit_result_view(*r)),
        }
    }
}

/// Writing the body of `n` under `root` if it changed, else the end.
pub open spec fn write_body_step(n: NoteView, root: Seq<char>) -> WriteStepView {
    if n.dirty_body {
        WriteStepView::WriteBody(body_path(root, n.meta.id), n.body)
    } else {
        WriteStepView::Done(Ok(()))
    }
}

/// Writing the metadata of `n` under `root`, as its `meta.toml` text, if it
/// changed; a metadata that cannot be written ends the writing with an
/// error.  Else as for the body.
pub open spec fn write_meta_step(n: NoteView, root: Seq<char>) -> WriteStepView {
    if n.dirty_meta {
        match meta_text(n.meta) {
            Ok(t) => WriteStepView::WriteMeta(meta_path(root, n.meta.id), t),
            Err(e) => WriteStepView::Done(
                Err(NoteErrorView::MetadataSerialise { id: n.meta.id, error: e }),
            ),
        }
    } else {
        write_body_step(n, root)
    }
}

/// The first step of writing `n` under `root`: nothing for a clean note,
/// else creating its directory.
pub open spec fn write_first_step(n: NoteView, root: Seq<char>) -> WriteStepView {
    if !n.dirty_body && !n.dirty_meta {
        WriteStepView::Done(Ok(()))
    } else {
        WriteStepView::CreateDir(note_dir(root, n.meta.id))
    }
}

/// The note and the next step, once the file system has given `answer` to
/// the request `stage` of writing `n` under `root`.  A failed request ends
/// the writing with the error of that request; a written part is marked
/// clean.
pub open spec fn write_next_step(
    n: NoteView,
    root: Seq<char>,
    stage: WriteStage,
    answer: Result<(), std::io::Error>,
) -> (NoteView, WriteStepView) {
    let id = n.meta.id;
    match answer {
        Err(e) => (
            n,
            WriteStepView::Done(
                Err(
                    match stage {
                        WriteStage::CreateDir => NoteErrorView::CreateDir { id, error: e },
                        WriteStage::WriteMeta => NoteErrorView::MetadataWrite { id, error: e },
                        WriteStage::WriteBody => NoteErrorView::BodyWrite { id, error: e },
                    },
                ),
            ),
        ),
        Ok(()) => match stage {
            WriteStage::CreateDir => (n, write_meta_step(n, root)),
            WriteStage::WriteMeta => {
                let m = NoteView { dirty_meta: false, ..n };
                (m, write_body_step(m, root))
            },
            WriteStage::WriteBody => (NoteView { dirty_body: false, ..n }, WriteStepView::Done(Ok(()))),
        },
    }
}

fn write_body_request(note: &Note, root: &str) -> (s: WriteStep)
    ensures
        s@ == write_body_step(note@, root@),
{
    if note.is_dirty_body() {
        let dir = note_dir_path(root, note.meta().id());
        let path = join_path(dir.as_str(), "body.md");
        WriteStep::WriteBody { path, contents: owned(note.body().as_str()) }
    } else {
        WriteStep::Done(Ok(()))
    }
}

fn write_meta_request(note: &Note, root: &str) -> (s: WriteStep)
    ensures
        s@ == write_meta_step(note@, root@),
{
    if note.is_dirty_meta() {
        match render_metadata(note.meta()) {
            Ok(contents) => {
                let dir = note_dir_path(root, note.meta().id());
                let path = join_path(dir.as_str(), "meta.toml");
                WriteStep::WriteMeta { path, contents }
            },
            Err(error) => WriteStep::Done(
                Err(NoteError::MetadataSerialiseError { id: *note.meta().id(), error }),
            ),
        }
    } else {
        write_body_request(note, root)
    }
}

/// The first step of writing `note` under `root`.
pub fn write_first(note: &Note, root: &str) -> (s: WriteStep)
    ensures
        s@ == write_first_step(note@, root@),
{
    if !note.is_dirty_body() && !note.is_dirty_meta() {
        WriteStep::Done(Ok(()))
    } else {
        WriteStep::CreateDir { path: note_dir_path(root, note.meta().id()) }
    }
}

/// The next step of writing `note` under `root`, once the file system has
/// given `answer` to the request `stage`; marks the part just written clean.
pub fn write_next(note: &mut Note, root: &str, stage: WriteStage, answer: Result<(), std::io::Error>) -> (s: WriteStep)
    requires
        old(note).wf(),
    ensures
        final(note).wf(),
        (final(note)@, s@) == write_next_step(old(note)@, root@, stage, answer),
{
    let id = *note.meta().id();
    match answer {
        Err(error) => WriteStep::Done(
            Err(
                match stage {
                    WriteStage::CreateDir => NoteError::NoteCreateDirError { id, error },
                    WriteStage::WriteMeta => NoteError::MetadataWriteError { id, error },
                    WriteStage::WriteBody => NoteError::BodyWriteError { id, error },
                },
            ),
        ),
        Ok(()) => match stage {
            WriteStage::CreateDir => write_meta_request(note, root),
            WriteStage::WriteMeta => {
                note.mark_meta_clean();
                write_body_request(note, root)
            },
            WriteStage::WriteBody => {
                note.mark_body_clean();
                WriteStep::Done(Ok(()))
            },
        },
    }
}

/// What writing the note `before` ends in, with the note `after` and the
/// result `r`: a clean note is left as it is; otherwise the directory is
/// created, then the metadata written if it changed, then the body if it
/// changed, each part marked clean once written.  An error names the note,
/// says which step failed, and leaves the parts that were not written
/// marked as changed.
pub open spec fn write_outcome_view(
    before: NoteView,
    after: NoteView,
    r: Result<(), NoteErrorView>,
) -> bool {
    let id = before.meta.id;
    let meta_ok = before.dirty_meta ==> meta_text(before.meta) is Ok;
    if !before.dirty_body && !before.dirty_meta {
        r is Ok && after == before
    } else {
        match r {
            Ok(()) => after == NoteView { dirty_body: false, dirty_meta: false, ..before } && meta_ok,
            Err(e) => match e {
                NoteErrorView::CreateDir { id: eid, .. } => eid == id && after == before,
                NoteErrorView::MetadataSerialise { id: eid, error } => eid == id && after == before
                    && before.dirty_meta && meta_text(before.meta) == Err::<Seq<char>, Seq<char>>(
                    error,
                ),
                NoteErrorView::MetadataWrite { id: eid, .. } => eid == id && after == before
                    && before.dirty_meta && meta_text(before.meta) is Ok,
                NoteErrorView::BodyWrite { id: eid, .. } => eid == id && after == NoteView {
                    dirty_meta: false,
                    ..before
                } && before.dirty_body && meta_ok,
                _ => false,
            },
        }
    }
}

/// [`write_outcome_view`] of a result.
pub open spec fn write_outcome(before: NoteView, after: NoteView, r: Result<(), NoteError>) -> bool {
    write_outcome_view(before, after, unit_result_view(r))
}

/// Where writing `before` under `root` can stand: the note so far and the
/// step to take next.
pub open spec fn write_reachable(before: NoteView, root: Seq<char>, n: NoteView, s: WriteStepView) -> bool {
    match s {
        WriteStepView::CreateDir(p) => n == before && (before.dirty_body || before.dirty_meta)
            && p == note_dir(root, before.meta.id),
        WriteStepView::WriteMeta(_, _) => n == before && before.dirty_meta && meta_text(
            before.meta,
        ) is Ok && s == write_meta_step(before, root),
        WriteStepView::WriteBody(_, _) => n == NoteView { dirty_meta: false, ..before }
            && before.dirty_body && (before.dirty_meta ==> meta_text(before.meta) is Ok) && s
            == write_body_step(n, root),
        WriteStepView::Done(r) => write_outcome_view(before, n, r),
    }
}

/// How many requests writing can still make from the step `s`.
pub open spec fn write_rank(s: WriteStepView) -> nat {
    match s {
        WriteStepView::CreateDir(_) => 3,
        WriteStepView::WriteMeta(_, _) => 2,
        WriteStepView::WriteBody(_, _) => 1,
        WriteStepView::Done(_) => 0,
    }
}

/// Writes the changed parts of `note` under `root`, making each request of
/// [`write_first`] and [`write_next`] through `io` and handing back its
/// answer.
fn write_note<I: NoteIO>(io: &I, root: &str, note: &mut Note) -> (r: Result<(), NoteError>)
    requires
        old(note).wf(),
    ensures
        final(note).wf(),
        write_outcome(old(note)@, final(note)@, r),
{
    let ghost before = note@;
    let mut step = write_first(note, root);
    loop
        invariant
            note.wf(),
            before == old(note)@,
            write_reachable(before, root@, note@, step@),
        decreases write_rank(step@),
    {
        match step {
            WriteStep::Done(r) => {
                return r;
            },
            WriteStep::CreateDir { path } => {
                let answer = io.create_dir_all(path.as_str());
                step = write_next(note, root, WriteStage::CreateDir, answer);
            },
            WriteStep::WriteMeta { path, contents } => {
                let answer = io.write(path.as_str(), contents.as_str());
                step = write_next(note, root, WriteStage::WriteMeta, answer);
            },
            WriteStep::WriteBody { path, contents } => {
                let answer = io.write(path.as_str(), contents.as_str());
                step = write_next(note, root, WriteStage::WriteBody, answer);
            },
        }
    }
}

// ---------------------------------------------------------------------
// Reading a note, one file-system request at a time.
// ---------------------------------------------------------------------

/// The note `id` made of the text of its `meta.toml` and its body, as read
/// from the files: its metadata is what the text describes, and it is
/// clean.
pub open spec fn note_of_texts(meta: Seq<char>, body: Seq<char>) -> Result<NoteView, Seq<char>> {
    match meta_of_text(meta) {
        Ok(m) => Ok(NoteView { meta: m, body, dirty_body: false, dirty_meta: false }),
        Err(e) => Err(e),
    }
}

/// The next step of reading a note: a request to the file system, or the
/// end of the reading with its result.
pub enum ReadStep {
    /// Read the file `path`, the note's `meta.toml`.
    ReadMeta { path: String },
    /// Read the file `path`, the note's `body.md`; `meta` is the metadata
    /// that `meta_text`, the text of `meta.toml`, describes.
    ReadBody { path: String, meta: Metadata, meta_text: Ghost<Seq<char>> },
    /// Reading ended with this result.
    Done(Result<Note, NoteError>),
}

/// The view of a [`ReadStep`].
pub enum ReadStepView {
    ReadMeta(Seq<char>),
    ReadBody(Seq<char>, MetadataView, Seq<char>),
    Done(Result<NoteView, NoteErrorView>),
}

impl View for ReadStep {
    type V = ReadStepView;

    open spec fn view(&self) -> ReadStepView {
        match self {
            ReadStep::ReadMeta { path } => ReadStepView::ReadMeta(path@),
            ReadStep::ReadBody { path, meta, meta_text } => ReadStepView::ReadBody(
                path@,
                meta@,
                meta_text@,
            ),
            ReadStep::Done(r) => ReadStepView::Done(note_result_view(*r)),
        }
    }
}

impl ReadStep {
    /// The step's invariant: the metadata kept for the body is well formed
    /// and is what the kept text describes; a read note is well formed.
    pub open spec fn wf(&self) -> bool {
        match self {
            ReadStep::ReadMeta { .. } => true,
            ReadStep::ReadBody { meta, meta_text, .. } => meta.wf() && meta_of_text(meta_text@)
                == Ok::<MetadataView, Seq<char>>(meta@),
            ReadStep::Done(r) => r matches Ok(n) ==> n.wf(),
        }
    }
}

/// The next step, once the file system has given `answer` to the request
/// of the step `s` of reading the note `id` under `root`: the metadata's
/// text is read first, and is parsed before the body is read.
pub open spec fn read_next_step(
    root: Seq<char>,
    id: Identifier,
    s: ReadStepView,
    answer: Result<Seq<char>, std::io::Error>,
) -> ReadStepView {
    match s {
        ReadStepView::ReadMeta(_) => match answer {
            Err(e) => ReadStepView::Done(Err(NoteErrorView::MetadataRead { id, error: e })),
            Ok(t) => match meta_of_text(t) {
                Ok(m) => ReadStepView::ReadBody(body_path(root, id), m, t),
                Err(msg) => ReadStepView::Done(Err(NoteErrorView::MetadataParse { id, error: msg })),
            },
        },
        ReadStepView::ReadBody(_, m, _) => match answer {
            Err(e) => ReadStepView::Done(Err(NoteErrorView::BodyRead { id, error: e })),
            Ok(b) => ReadStepView::Done(
                Ok(NoteView { meta: m, body: b, dirty_body: false, dirty_meta: false }),
            ),
        },
        ReadStepView::Done(r) => ReadStepView::Done(r),
    }
}

/// The first step of reading the note `id` under `root`: reading its
/// `meta.toml`.
pub fn read_first(root: &str, id: Identifier) -> (s: ReadStep)
    ensures
        s@ == ReadStepView::ReadMeta(meta_path(root@, id)),
        s.wf(),
{
    let dir = note_dir_path(root, &id);
    ReadStep::ReadMeta { path: join_path(dir.as_str(), "meta.toml") }
}

/// The next step of reading the note `id` under `root`, once the file
/// system has given `answer` to the request of the step `s`.
pub fn read_next(root: &str, id: Identifier, s: ReadStep, answer: Result<String, std::io::Error>) -> (r: ReadStep)
    requires
        s.wf(),
    ensures
        r.wf(),
        r@ == read_next_step(root@, id, s@, text_answer_view(answer)),
{
    match s {
        ReadStep::ReadMeta { .. } => match answer {
            Err(error) => ReadStep::Done(Err(NoteError::MetadataReadError { id, error })),
            Ok(text) => match parse_metadata(text.as_str()) {
                Ok(meta) => {
                    let dir = note_dir_path(root, &id);
                    let path = join_path(dir.as_str(), "body.md");
                    ReadStep::ReadBody { path, meta, meta_text: Ghost(text@) }
                },
                Err(error) => ReadStep::Done(Err(NoteError::MetadataParseError { id, error })),
            },
        },
        ReadStep::ReadBody { meta, .. } => match answer {
            Err(error) => ReadStep::Done(Err(NoteError::BodyReadError { id, error })),
            Ok(body) => ReadStep::Done(Ok(Note::from_parts(meta, body, false, false))),
        },
        ReadStep::Done(r) => ReadStep::Done(r),
    }
}

/// What reading the note `id` may end in, whatever the file system
/// answers: a clean note made of some text of its `meta.toml` and some
/// body, or an error that names `id` and says which step failed.
pub open spec fn read_outcome_view(id: Identifier, r: Result<NoteView, NoteErrorView>) -> bool {
    match r {
        Ok(n) => exists|m: Seq<char>, b: Seq<char>| note_of_texts(m, b) == Ok::<NoteView, Seq<char>>(n),
        Err(NoteErrorView::MetadataRead { id: eid, .. }) => eid == id,
        Err(NoteErrorView::MetadataParse { id: eid, error }) => eid == id && exists|m: Seq<char>|
            meta_of_text(m) == Err::<MetadataView, Seq<char>>(error),
        Err(NoteErrorView::BodyRead { id: eid, .. }) => eid == id,
        Err(_) => false,
    }
}

/// [`read_outcome_view`] of a result, whose note is well formed.
pub open spec fn read_outcome(id: Identifier, r: Result<Note, NoteError>) -> bool {
    &&& r matches Ok(n) ==> n.wf()
    &&& read_outcome_view(id, note_result_view(r))
}

/// Where reading the note `id` under `root` can stand.
pub open spec fn read_reachable(root: Seq<char>, id: Identifier, s: ReadStepView) -> bool {
    match s {
        ReadStepView::ReadMeta(p) => p == meta_path(root, id),
        ReadStepView::ReadBody(p, _, _) => p == body_path(root, id),
        ReadStepView::Done(r) => read_outcome_view(id, r),
    }
}

/// How many requests reading can still make from the step `s`.
pub open spec fn read_rank(s: ReadStepView) -> nat {
    match s {
        ReadStepView::ReadMeta(_) => 2,
        ReadStepView::ReadBody(_, _, _) => 1,
        ReadStepView::Done(_) => 0,
    }
}

/// Reads the note `id` from under `root`, making each request of
/// [`read_first`] and [`read_next`] through `io` and handing back its
/// answer.
fn read_note<I: NoteIO>(io: &I, root: &str, id: Identifier) -> (r: Result<Note, NoteError>)
    ensures
        read_outcome(id, r),
{
    let mut step = read_first(root, id);
    loop
        invariant
            step.wf(),
            read_reachable(root@, id, step@),
        ensures
            step.wf(),
            read_reachable(root@, id, step@),
            step@ is Done,
        decreases read_rank(step@),
    {
        let answer = match &step {
            ReadStep::Done(_) => {
                break;
            },
            ReadStep::ReadMeta { path } => io.read_to_string(path.as_str()),
            ReadStep::ReadBody { path, .. } => io.read_to_string(path.as_str()),
        };
        let ghost prev = step@;
        step = read_next(root, id, step, answer);
        proof {
            if let ReadStepView::ReadBody(_, m, t) = prev {
                if let Ok(b) = text_answer_view(answer) {
                    assert(note_of_texts(t, b) == Ok::<NoteView, Seq<char>>(
                        NoteView { meta: m, body: b, dirty_body: false, dirty_meta: false },
                    ));
                }
            }
        }
    }
    match step {
        ReadStep::Done(r) => r,
        _ => {
            proof {
                assert(false);
            }
            Err(NoteError::MetadataParseError { id, error: String::new() })
        },
    }
}

/// Reading back what was written: writing a note `n` whose both parts
/// changed asks to write the text `t` of its metadata at the note's
/// `meta.toml` and its body at its `body.md`; reading the note from the same
/// root asks for those two files, and, given the texts written, gives back
/// `n`, clean, whenever its metadata reads back from `t` (which, for the
/// entries that the TOML reader gives, [`crate::meta_format::lemma_read_back`]
/// states).
pub proof fn lemma_store_read_back(n: NoteView, root: Seq<char>, t: Seq<char>)
    requires
        n.dirty_body,
        n.dirty_meta,
        meta_text(n.meta) == Ok::<Seq<char>, Seq<char>>(t),
        meta_of_text(t) == Ok::<MetadataView, Seq<char>>(n.meta),
    ensures
        ({
            let id = n.meta.id;
            let (n1, s1) = write_next_step(n, root, WriteStage::CreateDir, Ok(()));
            let (n2, s2) = write_next_step(n1, root, WriteStage::WriteMeta, Ok(()));
            let (n3, s3) = write_next_step(n2, root, WriteStage::WriteBody, Ok(()));
            let r1 = read_next_step(root, id, ReadStepView::ReadMeta(meta_path(root, id)), Ok(t));
            let r2 = read_next_step(root, id, r1, Ok(n.body));
            &&& write_first_step(n, root) == WriteStepView::CreateDir(note_dir(root, id))
            &&& s1 == WriteStepView::WriteMeta(meta_path(root, id), t)
            &&& s2 == WriteStepView::WriteBody(body_path(root, id), n.body)
            &&& s3 == WriteStepView::Done(Ok(()))
            &&& r1 == ReadStepView::ReadBody(body_path(root, id), n.meta, t)
            &&& r2 == ReadStepView::Done(Ok(n3))
            &&& n3 == NoteView { dirty_body: false, dirty_meta: false, ..n }
        }),
{
}

// ---------------------------------------------------------------------
// Creating a note.
// ---------------------------------------------------------------------

/// A new note `id`, made at `now`, with `body` and `aliases`, no
/// user-defined metadata, and both its parts marked as not yet written.
pub open spec fn fresh_note_view(
    id: Identifier,
    now: Timestamp,
    body: Seq<char>,
    aliases: Seq<Seq<char>>,
) -> NoteView {
    NoteView {
        meta: MetadataView { id, ctime: now, mtime: now, aliases, extra: Seq::<EntryView>::empty() },
        body,
        dirty_body: true,
        dirty_meta: true,
    }
}

/// The new note `id`, made at `now`, with `body` and `aliases`.
pub fn fresh_note(id: Identifier, now: Timestamp, body: String, aliases: Vec<String>) -> (n: Note)
    ensures
        n.wf(),
        n@ == fresh_note_view(id, now, body@, strings_view(aliases@)),
{
    let meta = Metadata::new(id, now, now, aliases, ExtraTable::new());
    Note::from_parts(meta, body, true, true)
}

/// What creating the note `id` at `now` with `body` and `aliases` ends in:
/// what writing the new note ends in, the note being returned once both
/// its parts are written.
pub open spec fn create_outcome_at(
    id: Identifier,
    now: Timestamp,
    body: Seq<char>,
    aliases: Seq<Seq<char>>,
    r: Result<Note, NoteError>,
) -> bool {
    let fresh = fresh_note_view(id, now, body, aliases);
    match r {
        Ok(n) => n.wf() && write_outcome_view(fresh, n@, Ok(())),
        Err(e) => exists|after: NoteView| write_outcome_view(fresh, after, Err(e@)),
    }
}

/// What creating a note with `body` and `aliases` may end in: a written,
/// clean note with that body and those aliases, no user-defined metadata,
/// and equal creation and modification times; or an error from writing it.
pub open spec fn create_outcome(
    body: Seq<char>,
    aliases: Seq<Seq<char>>,
    r: Result<Note, NoteError>,
) -> bool {
    match r {
        Ok(n) => {
            &&& n.wf()
            &&& n@.body == body
            &&& n@.meta.aliases == aliases
            &&& n@.meta.extra == Seq::<EntryView>::empty()
            &&& n@.meta.ctime == n@.meta.mtime
            &&& !n@.dirty_body
            &&& !n@.dirty_meta
        },
        Err(e) => match e {
            NoteError::NoteCreateDirError { .. } => true,
            NoteError::MetadataSerialiseError { .. } => true,
            NoteError::MetadataWriteError { .. } => true,
            NoteError::BodyWriteError { .. } => true,
            _ => false,
        },
    }
}

/// Creating at a given identifier and time ends as creating may.
proof fn lemma_create_outcome(
    id: Identifier,
    now: Timestamp,
    body: Seq<char>,
    aliases: Seq<Seq<char>>,
    r: Result<Note, NoteError>,
)
    requires
        create_outcome_at(id, now, body, aliases, r),
    ensures
        create_outcome(body, aliases, r),
        r matches Ok(n) ==> n@.meta.id == id && n@.meta.ctime == now,
        r matches Err(e) ==> error_id(e) == id,
{
    if let Err(e) = r {
        let after = choose|after: NoteView|
            write_outcome_view(fresh_note_view(id, now, body, aliases), after, Err(e@));
        assert(write_outcome_view(fresh_note_view(id, now, body, aliases), after, Err(e@)));
    }
}

/// A failed write ends in an error of writing that names the note.
pub proof fn lemma_write_error(before: NoteView, after: NoteView, e: NoteError)
    requires
        write_outcome(before, after, Err(e)),
    ensures
        is_write_error(e),
        error_id(e) == before.meta.id,
{
}

/// Creating at a random identifier gives a note, or an error of writing it,
/// that carries that identifier.
pub proof fn lemma_create_outcome_ids(
    body: Seq<char>,
    aliases: Seq<Seq<char>>,
    r: Result<Note, NoteError>,
)
    requires
        exists|id: Identifier, now: Timestamp|
            is_random_uuid(id.hi, id.lo) && #[trigger] create_outcome_at(id, now, body, aliases, r),
    ensures
        r matches Ok(n) ==> is_random_uuid(n@.meta.id.hi, n@.meta.id.lo),
        r matches Err(e) ==> is_write_error(e) && is_random_uuid(error_id(e).hi, error_id(e).lo),
{
    let (id, now) = choose|id: Identifier, now: Timestamp|
        is_random_uuid(id.hi, id.lo) && #[trigger] create_outcome_at(id, now, body, aliases, r);
    lemma_create_outcome(id, now, body, aliases, r);
}

/// Creates the note `id`, made at `now`, with `body` and `aliases`, and
/// writes it under `root`.
fn create_note<I: NoteIO>(
    io: &I,
    root: &str,
    id: Identifier,
    now: Timestamp,
    body: String,
    aliases: Vec<String>,
) -> (r: Result<Note, NoteError>)
    ensures
        create_outcome_at(id, now, body@, strings_view(aliases@), r),
        create_outcome(body@, strings_view(aliases@), r),
        r matches Ok(n) ==> n@.meta.id == id && n@.meta.ctime == now,
        r matches Err(e) ==> error_id(e) == id,
{
    let ghost fresh = fresh_note_view(id, now, body@, strings_view(aliases@));
    let mut note = fresh_note(id, now, body, aliases);
    let written = write_note(io, root, &mut note);
    let r = match written {
        Ok(()) => Ok(note),
        Err(e) => {
            assert(write_outcome_view(fresh, note@, Err(e@)));
            Err(e)
        },
    };
    proof {
        lemma_create_outcome(id, now, body@, strings_view(aliases@), r);
    }
    r
}

/// A raw collection of notes.
pub trait Store {
    /// Creates and writes a note with `body` and `aliases`, a fresh
    /// identifier, and the current time as its creation and modification
    /// time.
    fn create(&self, body: String, aliases: Vec<String>) -> (r: Result<Note, NoteError>)
        ensures
            create_outcome(body@, strings_view(aliases@), r),
            exists|id: Identifier, now: Timestamp|
                is_random_uuid(id.hi, id.lo) && #[trigger] create_outcome_at(
                    id,
                    now,
                    body@,
                    strings_view(aliases@),
                    r,
                ),
    ;

    /// Reads the note `id`.
    fn read(&self, id: Identifier) -> (r: Result<Note, NoteError>)
        ensures
            read_outcome(id, r),
    ;

    /// Writes the changed parts of `note`.
    fn write(&self, note: &mut Note) -> (r: Result<(), NoteError>)
        requires
            old(note).wf(),
        ensures
            final(note).wf(),
            write_outcome(old(note)@, final(note)@, r),
    ;

    /// Applies `update` to `note`; when it changed something, the changed
    /// parts are marked and the modification time becomes the current time.
    fn update<U: NoteUpdate>(&self, note: &mut Note, update: &U) -> (r: Result<
        bool,
        MetadataError,
    >)
        requires
            old(note).wf(),
        ensures
            final(note).wf(),
            (final(note)@, meta_result_view(r)) == updated(
                update.apply_spec(fresh_editor(old(note)@)),
                final(note)@.meta.mtime,
            ),
            update_keeps(old(note)@, final(note)@, meta_result_view(r)),
            honest_edit(fresh_editor(old(note)@), update.apply_spec(fresh_editor(old(note)@)).0),
    ;
}

/// A store of notes under a root directory, reached through `io`, with
/// times from `clock`.
#[derive(Debug, Clone)]
pub struct NoteStore<I, C> {
    root: String,
    io: I,
    clock: C,
}

impl<I: NoteIO> NoteStore<I, SystemClock> {
    /// A store under `root`, reached through `io`, with the system clock.
    pub fn new(root: String, io: I) -> (s: Self)
        ensures
            s.root_view() == root@,
    {
        NoteStore { root, io, clock: SystemClock }
    }
}

impl<I, C> NoteStore<I, C> {
    /// The store's root directory.
    pub closed spec fn root_view(&self) -> Seq<char> {
        self.root@
    }

    /// A store under `root`, reached through `io`, with times from `clock`.
    pub fn with_io_and_clock(root: String, io: I, clock: C) -> (s: Self)
        ensures
            s.root_view() == root@,
    {
        NoteStore { root, io, clock }
    }

    /// The store's root directory.
    pub fn root(&self) -> (r: &String)
        ensures
            r@ == self.root_view(),
    {
        &self.root
    }
}

impl<I: NoteIO, C: Clock> Store for NoteStore<I, C> {
    fn create(&self, body: String, aliases: Vec<String>) -> (r: Result<Note, NoteError>) {
        let id = Identifier::new();
        let now = self.clock.now();
        let ghost aliases_view = strings_view(aliases@);
        let ghost body_view = body@;
        let r = create_note(&self.io, self.root.as_str(), id, now, body, aliases);
        assert(create_outcome_at(id, now, body_view, aliases_view, r));
        r
    }

    fn read(&self, id: Identifier) -> (r: Result<Note, NoteError>) {
        read_note(&self.io, self.root.as_str(), id)
    }

    fn write(&self, note: &mut Note) -> (r: Result<(), NoteError>) {
        write_note(&self.io, self.root.as_str(), note)
    }

    fn update<U: NoteUpdate>(&self, note: &mut Note, update: &U) -> (r: Result<
        bool,
        MetadataError,
    >) {
        let r = apply_edits(note, update);
        if let Ok(true) = r {
            note.touch_at(self.clock.now());
        }
        r
    }
}

impl Note {
    /// Creates a note with `body` and `aliases`, a fresh identifier and the
    /// current time, and writes it under `root` through `io`.
    pub fn new<I: NoteIO>(io: &I, root: &str, body: String, aliases: Vec<String>) -> (r: Result<
        Note,
        NoteError,
    >)
        ensures
            create_outcome(body@, strings_view(aliases@), r),
            exists|id: Identifier, now: Timestamp|
                #![trigger create_outcome_at(id, now, body@, strings_view(aliases@), r)]
                is_random_uuid(id.hi, id.lo) && now.secs >= 0 && now.nanos < 1_000_000_000
                    && create_outcome_at(id, now, body@, strings_view(aliases@), r),
    {
        let id = Identifier::new();
        let now = Timestamp::now();
        let ghost aliases_view = strings_view(aliases@);
        let ghost body_view = body@;
        let r = create_note(io, root, id, now, body, aliases);
        assert(create_outcome_at(id, now, body_view, aliases_view, r));
        r
    }

    /// Writes the changed parts of the note under `root` through `io`.
    pub fn write<I: NoteIO>(&mut self, io: &I, root: &str) -> (r: Result<(), NoteError>)
        requires
            old(self).wf(),
        ensures
            final(self).wf(),
            write_outcome(old(self)@, final(self)@, r),
    {
        write_note(io, root, self)
    }

    /// Reads the note `id` from under `root` through `io`.
    pub fn read<I: NoteIO>(io: &I, id: Identifier, root: &str) -> (r: Result<Note, NoteError>)
        ensures
            read_outcome(id, r),
    {
        read_note(io, root, id)
    }
}

} // verus!
