#![allow(dead_code)]
use std::cell::RefCell;
use std::collections::HashMap;
use std::io;
use std::path::{Path, PathBuf};
use std::rc::Rc;
use std::str::FromStr;

use lethe::extra::ExtraTable;
use lethe::identifier::Identifier;
use lethe::meta_format::render_metadata;
use lethe::note::{Metadata, Note, NoteError};
use lethe::repository::{AliasesEdit, BodyEdit, EditSpec, ExtraEdit};
use lethe::store::{fresh_note, read_first, read_next, write_first, write_next, Clock, NoteIO, NoteStore, ReadStep, Store, WriteStage, WriteStep};
use lethe::timestamp::Timestamp;

#[derive(Clone, Default)]
struct TestIO {
    state: Rc<RefCell<IoState>>,
}

#[derive(Default)]
struct IoState {
    files: HashMap<PathBuf, String>,
    fail_create_dir: Option<io::ErrorKind>,
    fail_read_meta: Option<io::ErrorKind>,
    fail_read_body: Option<io::ErrorKind>,
    fail_write_meta: Option<io::ErrorKind>,
    fail_write_body: Option<io::ErrorKind>,
    create_calls: usize,
    read_calls: usize,
    write_calls: usize,
}

impl TestIO {
    fn set_fail_create_dir(&self, kind: io::ErrorKind) {
        self.state.borrow_mut().fail_create_dir = Some(kind);
    }

    fn set_fail_read_meta(&self, kind: io::ErrorKind) {
        self.state.borrow_mut().fail_read_meta = Some(kind);
    }

    fn set_fail_read_body(&self, kind: io::ErrorKind) {
        self.state.borrow_mut().fail_read_body = Some(kind);
    }

    fn set_fail_write_meta(&self, kind: io::ErrorKind) {
        self.state.borrow_mut().fail_write_meta = Some(kind);
    }

    fn set_fail_write_body(&self, kind: io::ErrorKind) {
        self.state.borrow_mut().fail_write_body = Some(kind);
    }

    fn insert_file(&self, path: PathBuf, contents: impl Into<String>) {
        self.state.borrow_mut().files.insert(path, contents.into());
    }

    fn get_file(&self, path: &Path) -> Option<String> {
        self.state.borrow().files.get(path).cloned()
    }

    fn write_calls(&self) -> usize {
        self.state.borrow().write_calls
    }

    fn create_calls(&self) -> usize {
        self.state.borrow().create_calls
    }
}

impl NoteIO for TestIO {
    fn create_dir_all(&self, _path: &str) -> io::Result<()> {
        let mut state = self.state.borrow_mut();
        state.create_calls += 1;
        if let Some(kind) = state.fail_create_dir {
            return Err(io::Error::new(kind, "forced create_dir_all failure"));
        }
        Ok(())
    }

    fn read_to_string(&self, path: &str) -> io::Result<String> {
        let path = Path::new(path);
        let mut state = self.state.borrow_mut();
        state.read_calls += 1;
        if file_name_is(path, "meta.toml") {
            if let Some(kind) = state.fail_read_meta {
                return Err(io::Error::new(kind, "forced meta read failure"));
            }
        }
        if file_name_is(path, "body.md") {
            if let Some(kind) = state.fail_read_body {
                return Err(io::Error::new(kind, "forced body read failure"));
            }
        }
        state
            .files
            .get(path)
            .cloned()
            .ok_or_else(|| io::Error::new(io::ErrorKind::NotFound, "missing file"))
    }

    fn write(&self, path: &str, contents: &str) -> io::Result<()> {
        let path = Path::new(path);
        let mut state = self.state.borrow_mut();
        state.write_calls += 1;
        if file_name_is(path, "meta.toml") {
            if let Some(kind) = state.fail_write_meta {
                return Err(io::Error::new(kind, "forced meta write failure"));
            }
        }
        if file_name_is(path, "body.md") {
            if let Some(kind) = state.fail_write_body {
                return Err(io::Error::new(kind, "forced body write failure"));
            }
        }
        state.files.insert(path.to_path_buf(), contents.to_string());
        Ok(())
    }
}

#[derive(Clone)]
struct TestClock {
    now: Rc<RefCell<Timestamp>>,
    reads: Rc<RefCell<usize>>,
}

impl TestClock {
    fn new(now: Timestamp) -> Self {
        Self {
            now: Rc::new(RefCell::new(now)),
            reads: Rc::new(RefCell::new(0)),
        }
    }

    fn reads(&self) -> usize {
        *self.reads.borrow()
    }

    fn set(&self, now: Timestamp) {
        *self.now.borrow_mut() = now;
    }
}

impl Clock for TestClock {
    fn now(&self) -> Timestamp {
        *self.reads.borrow_mut() += 1;
        *self.now.borrow()
    }
}

fn file_name_is(path: &Path, name: &str) -> bool {
    path.file_name().and_then(|s| s.to_str()) == Some(name)
}

fn fixed_time(seconds: i64) -> Timestamp {
    Timestamp::new(seconds, 0)
}

fn make_meta(id: Identifier, time: Timestamp) -> Metadata {
    Metadata::new(id, time, time, Vec::new(), ExtraTable::new())
}

fn store_for(io: &TestIO, clock: &TestClock) -> NoteStore<TestIO, TestClock> {
    NoteStore::with_io_and_clock("vault".to_string(), io.clone(), clock.clone())
}

#[test]
/// Create uses the injected clock and persists with clean dirty flags.
fn create_uses_clock_and_cleans_dirty_flags() {
    let root = PathBuf::from("vault");
    let io = TestIO::default();
    let clock = TestClock::new(fixed_time(10));
    let store = store_for(&io, &clock);

    let note = store.create("body".to_string(), vec!["a".to_string()]).unwrap();

    assert_eq!(note.meta().ctime(), &fixed_time(10));
    assert_eq!(note.meta().mtime(), &fixed_time(10));
    assert!(!note.is_dirty_body());
    assert!(!note.is_dirty_meta());

    let dir = root.join(note.meta().id().to_string());
    let meta_path = dir.join("meta.toml");
    let body_path = dir.join("body.md");
    assert!(io.get_file(&meta_path).is_some());
    assert_eq!(io.get_file(&body_path), Some("body".to_string()));
}

#[test]
/// Update applies the injected clock and marks dirty metadata/body.
fn update_uses_clock_and_marks_dirty() {
    let io = TestIO::default();
    let clock = TestClock::new(fixed_time(10));
    let store = store_for(&io, &clock);

    let mut note = store.create("body".to_string(), Vec::new()).unwrap();
    clock.set(fixed_time(20));

    let edit = EditSpec::new(
        BodyEdit::Replace("new body".to_string()),
        AliasesEdit::Keep,
        ExtraEdit::empty(),
    );
    let changed = store.update(&mut note, &edit).unwrap();

    assert!(changed);
    assert_eq!(note.meta().mtime(), &fixed_time(20));
    assert!(note.is_dirty_body());
    assert!(note.is_dirty_meta());
}

#[test]
/// Write is a no-op when the note is already clean.
fn write_skips_when_clean() {
    let io = TestIO::default();
    io.set_fail_write_meta(io::ErrorKind::PermissionDenied);
    let clock = TestClock::new(fixed_time(10));
    let store = store_for(&io, &clock);

    let id = Identifier::from_str("00000000-0000-0000-0000-000000000000").unwrap();
    let meta = make_meta(id, fixed_time(10));
    let mut note = Note::from_parts(meta, "body".to_string(), false, false);

    let result = store.write(&mut note);
    assert!(result.is_ok());
    assert_eq!(io.create_calls(), 0);
    assert_eq!(io.write_calls(), 0);
}

#[test]
/// Create-dir failure maps to NoteCreateDirError without clearing dirty flags.
fn write_maps_create_dir_error() {
    let io = TestIO::default();
    io.set_fail_create_dir(io::ErrorKind::PermissionDenied);
    let clock = TestClock::new(fixed_time(10));
    let store = store_for(&io, &clock);

    let id = Identifier::from_str("00000000-0000-0000-0000-000000000001").unwrap();
    let meta = make_meta(id, fixed_time(10));
    let mut note = Note::from_parts(meta, "body".to_string(), true, true);

    let result = store.write(&mut note);
    assert!(matches!(result, Err(NoteError::NoteCreateDirError { .. })));
    assert!(note.is_dirty_meta());
    assert!(note.is_dirty_body());
}

#[test]
/// Meta write failure maps to MetadataWriteError and keeps meta dirty.
fn write_maps_meta_write_error_and_keeps_meta_dirty() {
    let io = TestIO::default();
    io.set_fail_write_meta(io::ErrorKind::PermissionDenied);
    let clock = TestClock::new(fixed_time(10));
    let store = store_for(&io, &clock);

    let id = Identifier::from_str("00000000-0000-0000-0000-000000000002").unwrap();
    let meta = make_meta(id, fixed_time(10));
    let mut note = Note::from_parts(meta, "body".to_string(), false, true);

    let result = store.write(&mut note);
    assert!(matches!(result, Err(NoteError::MetadataWriteError { .. })));
    assert!(note.is_dirty_meta());
    assert!(!note.is_dirty_body());
}

#[test]
/// Body write failure maps to BodyWriteError and keeps body dirty.
fn write_maps_body_write_error_and_keeps_body_dirty() {
    let io = TestIO::default();
    io.set_fail_write_body(io::ErrorKind::PermissionDenied);
    let clock = TestClock::new(fixed_time(10));
    let store = store_for(&io, &clock);

    let id = Identifier::from_str("00000000-0000-0000-0000-000000000003").unwrap();
    let meta = make_meta(id, fixed_time(10));
    let mut note = Note::from_parts(meta, "body".to_string(), true, true);

    let result = store.write(&mut note);
    assert!(matches!(result, Err(NoteError::BodyWriteError { .. })));
    assert!(note.is_dirty_body());
    assert!(!note.is_dirty_meta());
}

#[test]
/// Meta read failure maps to MetadataReadError.
fn read_maps_meta_read_error() {
    let io = TestIO::default();
    io.set_fail_read_meta(io::ErrorKind::NotFound);
    let clock = TestClock::new(fixed_time(10));
    let store = store_for(&io, &clock);

    let id = Identifier::from_str("00000000-0000-0000-0000-000000000004").unwrap();
    let result = store.read(id);
    assert!(matches!(result, Err(NoteError::MetadataReadError { .. })));
}

#[test]
/// Invalid meta TOML maps to MetadataParseError.
fn read_maps_meta_parse_error() {
    let root = PathBuf::from("vault");
    let io = TestIO::default();
    let clock = TestClock::new(fixed_time(10));
    let store = store_for(&io, &clock);

    let id = Identifier::from_str("00000000-0000-0000-0000-000000000005").unwrap();
    let dir = root.join(id.to_string());
    let meta_path = dir.join("meta.toml");
    let body_path = dir.join("body.md");
    io.insert_file(meta_path, "not valid toml");
    io.insert_file(body_path, "body");

    let result = store.read(id);
    assert!(matches!(result, Err(NoteError::MetadataParseError { .. })));
}

#[test]
/// Body read failure maps to BodyReadError.
fn read_maps_body_read_error() {
    let root = PathBuf::from("vault");
    let io = TestIO::default();
    io.set_fail_read_body(io::ErrorKind::NotFound);
    let clock = TestClock::new(fixed_time(10));
    let store = store_for(&io, &clock);

    let id = Identifier::from_str("00000000-0000-0000-0000-000000000006").unwrap();
    let meta = make_meta(id, fixed_time(10));
    let dir = root.join(id.to_string());
    let meta_path = dir.join("meta.toml");
    io.insert_file(meta_path, render_metadata(&meta).unwrap());

    let result = store.read(id);
    assert!(matches!(result, Err(NoteError::BodyReadError { .. })));
}

#[test]
fn create_then_read_gives_back_body_and_aliases() {
    let io = TestIO::default();
    let clock = TestClock::new(fixed_time(1_700_000_000));
    let store = store_for(&io, &clock);
    let body = "line one\nline \"two\" with \\ and \t tab\u{1}".to_string();
    let aliases = vec!["alpha".to_string(), "with space".to_string(), "quo\"te".to_string()];

    let note = store.create(body.clone(), aliases.clone()).unwrap();
    let reread = store.read(*note.meta().id()).unwrap();

    assert_eq!(reread.body(), &body);
    assert_eq!(reread.meta().aliases(), &aliases);
    assert_eq!(reread.meta().id(), note.meta().id());
    assert_eq!(reread.meta().ctime(), &fixed_time(1_700_000_000));
    assert!(reread.meta().extra().is_empty());
    assert!(!reread.is_dirty_body());
    assert!(!reread.is_dirty_meta());
}

#[test]
fn note_read_preserves_extra() {
    let root = PathBuf::from("vault");
    let io = TestIO::default();
    let clock = TestClock::new(fixed_time(10));
    let store = store_for(&io, &clock);
    let id = Identifier::from_str("0123abcd-0000-4000-8000-00000000beef").unwrap();
    let edit = ExtraEdit::from_raw(
        vec![
            "count=3".to_string(),
            "title=\"A title\"".to_string(),
            "tags=[\"x\", \"y\"]".to_string(),
            "flag=true".to_string(),
            "nested={ a = 1 }".to_string(),
            "ratio=0.5".to_string(),
        ],
        Vec::new(),
        false,
    )
    .unwrap();
    let mut extra = ExtraTable::new();
    for (key, value) in edit.set.iter() {
        extra.insert(key.clone(), value.clone());
    }
    let meta = Metadata::new(
        id,
        fixed_time(10),
        Timestamp::new(20, 500_000_000),
        vec!["a".to_string()],
        extra.clone(),
    );
    let dir = root.join(id.to_string());
    io.insert_file(dir.join("meta.toml"), render_metadata(&meta).unwrap());
    io.insert_file(dir.join("body.md"), "the body");

    let reread = store.read(id).unwrap();

    assert_eq!(reread.body(), "the body");
    assert_eq!(reread.meta().aliases(), &vec!["a".to_string()]);
    assert!(reread.meta().extra().same_as(&extra));
    assert_eq!(reread.meta().mtime(), &Timestamp::new(20, 500_000_000));
}

#[test]
fn write_after_clean_write_writes_nothing() {
    let io = TestIO::default();
    let clock = TestClock::new(fixed_time(10));
    let store = store_for(&io, &clock);
    let mut note = store.create("body".to_string(), Vec::new()).unwrap();
    let calls = io.write_calls();
    store.write(&mut note).unwrap();
    assert_eq!(io.write_calls(), calls);
}

#[test]
fn update_without_change_keeps_note_clean() {
    let io = TestIO::default();
    let clock = TestClock::new(fixed_time(10));
    let store = store_for(&io, &clock);
    let mut note = store.create("body".to_string(), Vec::new()).unwrap();
    clock.set(fixed_time(20));
    let edit = EditSpec::new(
        BodyEdit::Replace("body".to_string()),
        AliasesEdit::Keep,
        ExtraEdit::empty(),
    );
    let reads = clock.reads();
    let changed = store.update(&mut note, &edit).unwrap();
    assert!(!changed);
    assert_eq!(clock.reads(), reads);
    assert_eq!(note.meta().mtime(), &fixed_time(10));
    assert!(!note.is_dirty_body());
    assert!(!note.is_dirty_meta());
}

#[test]
fn note_paths_follow_root() {
    let io = TestIO::default();
    let clock = TestClock::new(fixed_time(10));
    let store = NoteStore::with_io_and_clock("vault/".to_string(), io.clone(), clock);
    let note = store.create("b".to_string(), Vec::new()).unwrap();
    let path = format!("vault/{}/body.md", note.meta().id().to_string());
    assert_eq!(io.get_file(Path::new(&path)), Some("b".to_string()));
    assert_eq!(store.root(), "vault/");
}

fn step_note(dirty_body: bool, dirty_meta: bool) -> Note {
    let id = Identifier::from_str("00000000-0000-0000-0000-0000000000ab").unwrap();
    Note::from_parts(make_meta(id, fixed_time(10)), "text".to_string(), dirty_body, dirty_meta)
}

#[test]
fn write_steps_request_directory_meta_then_body() {
    let mut note = step_note(true, true);
    let dir = "vault/00000000-0000-0000-0000-0000000000ab".to_string();
    let meta_text = render_metadata(note.meta()).unwrap();
    match write_first(&note, "vault") {
        WriteStep::CreateDir { path } => assert_eq!(path, dir),
        _ => panic!("expected the directory first"),
    }
    match write_next(&mut note, "vault", WriteStage::CreateDir, Ok(())) {
        WriteStep::WriteMeta { path, contents } => {
            assert_eq!(path, format!("{}/meta.toml", dir));
            assert_eq!(contents, meta_text);
        },
        _ => panic!("expected meta.toml next"),
    }
    match write_next(&mut note, "vault", WriteStage::WriteMeta, Ok(())) {
        WriteStep::WriteBody { path, contents } => {
            assert_eq!(path, format!("{}/body.md", dir));
            assert_eq!(contents, "text");
        },
        _ => panic!("expected body.md next"),
    }
    assert!(!note.is_dirty_meta() && note.is_dirty_body());
    assert!(matches!(write_next(&mut note, "vault", WriteStage::WriteBody, Ok(())), WriteStep::Done(Ok(()))));
    assert!(!note.is_dirty_body());
    assert!(matches!(write_first(&note, "vault"), WriteStep::Done(Ok(()))));
}

#[test]
fn write_steps_map_each_failure() {
    let fail = || Err(io::Error::new(io::ErrorKind::PermissionDenied, "no"));
    let mut note = step_note(false, true);
    assert!(matches!(
        write_next(&mut note, "vault", WriteStage::CreateDir, fail()),
        WriteStep::Done(Err(NoteError::NoteCreateDirError { .. }))
    ));
    match write_next(&mut note, "vault", WriteStage::CreateDir, Ok(())) {
        WriteStep::WriteMeta { .. } => {},
        _ => panic!("expected meta.toml next"),
    }
    assert!(matches!(
        write_next(&mut note, "vault", WriteStage::WriteMeta, fail()),
        WriteStep::Done(Err(NoteError::MetadataWriteError { .. }))
    ));
    assert!(note.is_dirty_meta());
    assert!(matches!(write_next(&mut note, "vault", WriteStage::WriteMeta, Ok(())), WriteStep::Done(Ok(()))));
    let mut body_only = step_note(true, false);
    match write_next(&mut body_only, "vault", WriteStage::CreateDir, Ok(())) {
        WriteStep::WriteBody { .. } => {},
        _ => panic!("expected body.md next"),
    }
    assert!(matches!(
        write_next(&mut body_only, "vault", WriteStage::WriteBody, fail()),
        WriteStep::Done(Err(NoteError::BodyWriteError { .. }))
    ));
    assert!(body_only.is_dirty_body());
}

#[test]
fn read_steps_read_meta_then_body() {
    let id = Identifier::from_str("00000000-0000-0000-0000-0000000000ab").unwrap();
    let meta = make_meta(id, fixed_time(10));
    let text = render_metadata(&meta).unwrap();
    let first = read_first("vault", id);
    match &first {
        ReadStep::ReadMeta { path } => {
            assert_eq!(path, "vault/00000000-0000-0000-0000-0000000000ab/meta.toml")
        },
        _ => panic!("expected meta.toml first"),
    }
    let second = read_next("vault", id, first, Ok(text));
    match &second {
        ReadStep::ReadBody { path, .. } => {
            assert_eq!(path, "vault/00000000-0000-0000-0000-0000000000ab/body.md")
        },
        _ => panic!("expected body.md next"),
    }
    match read_next("vault", id, second, Ok("the body".to_string())) {
        ReadStep::Done(Ok(note)) => {
            assert_eq!(note.body(), "the body");
            assert_eq!(note.meta().id(), &id);
            assert_eq!(note.meta().ctime(), &fixed_time(10));
            assert!(!note.is_dirty_body() && !note.is_dirty_meta());
        },
        _ => panic!("expected the note"),
    }
}

#[test]
fn read_steps_map_each_failure() {
    let id = Identifier::from_str("00000000-0000-0000-0000-0000000000ab").unwrap();
    let fail = || Err(io::Error::new(io::ErrorKind::NotFound, "no"));
    assert!(matches!(
        read_next("vault", id, read_first("vault", id), fail()),
        ReadStep::Done(Err(NoteError::MetadataReadError { .. }))
    ));
    assert!(matches!(
        read_next("vault", id, read_first("vault", id), Ok("id = 3".to_string())),
        ReadStep::Done(Err(NoteError::MetadataParseError { .. }))
    ));
    let text = render_metadata(&make_meta(id, fixed_time(10))).unwrap();
    let body_step = read_next("vault", id, read_first("vault", id), Ok(text));
    assert!(matches!(
        read_next("vault", id, body_step, fail()),
        ReadStep::Done(Err(NoteError::BodyReadError { .. }))
    ));
}

#[test]
fn fresh_note_is_unwritten_with_equal_times() {
    let id = Identifier::from_str("00000000-0000-0000-0000-0000000000ab").unwrap();
    let note = fresh_note(id, fixed_time(7), "b".to_string(), vec!["a".to_string()]);
    assert_eq!(note.meta().ctime(), &fixed_time(7));
    assert_eq!(note.meta().mtime(), &fixed_time(7));
    assert!(note.is_dirty_body() && note.is_dirty_meta());
    assert_eq!(note.meta().aliases(), &vec!["a".to_string()]);
}
