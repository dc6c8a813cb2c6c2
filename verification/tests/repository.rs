#![allow(dead_code)]
use std::cell::RefCell;
use std::collections::HashMap;
use std::io;
use std::path::{Path, PathBuf};
use std::rc::Rc;

use lethe::extra::ExtraTable;
use lethe::note::Note;
use lethe::repository::{
    AliasesEdit, BodyEdit, CreateSpec, EditSpec, ExtraEdit, Repository, RepositoryError,
};
use lethe::store::{Clock, NoteIO};
use lethe::timestamp::Timestamp;

#[derive(Clone, Default)]
struct TestIO {
    state: Rc<RefCell<IoState>>,
}

#[derive(Default)]
struct IoState {
    files: HashMap<PathBuf, String>,
    fail_create_dir: Option<io::ErrorKind>,
    fail_read_meta: Option<io::ErrorKind>,
    fail_read_body: Option<io::ErrorKind>,
    fail_write_meta: Option<io::ErrorKind>,
    fail_write_body: Option<io::ErrorKind>,
    create_calls: usize,
    read_calls: usize,
    write_calls: usize,
}

impl TestIO {
    fn set_fail_create_dir(&self, kind: io::ErrorKind) {
        self.state.borrow_mut().fail_create_dir = Some(kind);
    }

    fn set_fail_read_meta(&self, kind: io::ErrorKind) {
        self.state.borrow_mut().fail_read_meta = Some(kind);
    }

    fn set_fail_read_body(&self, kind: io::ErrorKind) {
        self.state.borrow_mut().fail_read_body = Some(kind);
    }

    fn set_fail_write_meta(&self, kind: io::ErrorKind) {
        self.state.borrow_mut().fail_write_meta = Some(kind);
    }

    fn set_fail_write_body(&self, kind: io::ErrorKind) {
        self.state.borrow_mut().fail_write_body = Some(kind);
    }

    fn insert_file(&self, path: PathBuf, contents: impl Into<String>) {
        self.state.borrow_mut().files.insert(path, contents.into());
    }

    fn get_file(&self, path: &Path) -> Option<String> {
        self.state.borrow().files.get(path).cloned()
    }

    fn write_calls(&self) -> usize {
        self.state.borrow().write_calls
    }

    fn create_calls(&self) -> usize {
        self.state.borrow().create_calls
    }
}

impl NoteIO for TestIO {
    fn create_dir_all(&self, _path: &str) -> io::Result<()> {
        let mut state = self.state.borrow_mut();
        state.create_calls += 1;
        if let Some(kind) = state.fail_create_dir {
            return Err(io::Error::new(kind, "forced create_dir_all failure"));
        }
        Ok(())
    }

    fn read_to_string(&self, path: &str) -> io::Result<String> {
        let path = Path::new(path);
        let mut state = self.state.borrow_mut();
        state.read_calls += 1;
        if file_name_is(path, "meta.toml") {
            if let Some(kind) = state.fail_read_meta {
                return Err(io::Error::new(kind, "forced meta read failure"));
            }
        }
        if file_name_is(path, "body.md") {
            if let Some(kind) = state.fail_read_body {
                return Err(io::Error::new(kind, "forced body read failure"));
            }
        }
        state
            .files
            .get(path)
            .cloned()
            .ok_or_else(|| io::Error::new(io::ErrorKind::NotFound, "missing file"))
    }

    fn write(&self, path: &str, contents: &str) -> io::Result<()> {
        let path = Path::new(path);
        let mut state = self.state.borrow_mut();
        state.write_calls += 1;
        if file_name_is(path, "meta.toml") {
            if let Some(kind) = state.fail_write_meta {
                return Err(io::Error::new(kind, "forced meta write failure"));
            }
        }
        if file_name_is(path, "body.md") {
            if let Some(kind) = state.fail_write_body {
                return Err(io::Error::new(kind, "forced body write failure"));
            }
        }
        state.files.insert(path.to_path_buf(), contents.to_string());
        Ok(())
    }
}

#[derive(Clone)]
struct TestClock {
    now: Rc<RefCell<Timestamp>>,
}

impl TestClock {
    fn new(now: Timestamp) -> Self {
        Self {
            now: Rc::new(RefCell::new(now)),
        }
    }

    fn set(&self, now: Timestamp) {
        *self.now.borrow_mut() = now;
    }
}

impl Clock for TestClock {
    fn now(&self) -> Timestamp {
        *self.now.borrow()
    }
}

fn file_name_is(path: &Path, name: &str) -> bool {
    path.file_name().and_then(|s| s.to_str()) == Some(name)
}


fn repo() -> (Repository<TestIO, TestClock>, TestIO, TestClock) {
    let io = TestIO::default();
    let clock = TestClock::new(Timestamp::new(100, 0));
    let repo = Repository::open("vault".to_string(), io.clone(), clock.clone());
    (repo, io, clock)
}

fn aliases_edit(aliases: &[&str]) -> EditSpec {
    EditSpec::new(
        BodyEdit::Keep,
        AliasesEdit::Replace(aliases.iter().map(|a| a.to_string()).collect()),
        ExtraEdit::empty(),
    )
}

#[test]
fn repository_indexes_aliases_on_create_and_update() {
    let (mut repo, _io, _clock) = repo();

    let mut note = repo
        .create_note(CreateSpec::new(
            "body".to_string(),
            vec!["alpha".to_string()],
        ))
        .unwrap();
    assert!(repo.id_for_alias("alpha").is_some());

    let spec = EditSpec::new(
        BodyEdit::Keep,
        AliasesEdit::Replace(vec!["beta".to_string()]),
        ExtraEdit::empty(),
    );
    repo.edit_loaded_note(&mut note, spec).unwrap();

    assert!(repo.id_for_alias("alpha").is_none());
    assert!(repo.id_for_alias("beta").is_some());
}

#[test]
fn alias_of_another_note_survives_edit() {
    let (mut repo, _io, _clock) = repo();
    let mut first = repo
        .create_note(CreateSpec::new("one".to_string(), vec!["shared".to_string()]))
        .unwrap();
    let second = repo
        .create_note(CreateSpec::new("two".to_string(), vec!["shared".to_string()]))
        .unwrap();
    assert_eq!(repo.id_for_alias("shared"), Some(second.meta().id()));
    repo.edit_loaded_note(&mut first, aliases_edit(&["other"])).unwrap();
    assert_eq!(repo.id_for_alias("shared"), Some(second.meta().id()));
    assert_eq!(repo.id_for_alias("other"), Some(first.meta().id()));
}

#[test]
fn create_note_with_extra_writes_extra() {
    let (mut repo, _io, clock) = repo();
    let edit = ExtraEdit::from_raw(vec!["priority=2".to_string()], Vec::new(), false).unwrap();
    let mut extra = ExtraTable::new();
    extra.insert(edit.set[0].0.clone(), edit.set[0].1.clone());
    let spec = CreateSpec {
        body: "body".to_string(),
        aliases: Vec::new(),
        extra: extra.clone(),
    };
    clock.set(Timestamp::new(100, 0));
    let note = repo.create_note(spec).unwrap();
    assert!(note.meta().extra().same_as(&extra));
    assert!(!note.is_dirty_meta());
    let reread = repo.read_note(*note.meta().id()).unwrap();
    assert!(reread.meta().extra().same_as(&extra));
    assert_eq!(reread.meta().extra().value_at(0).text(), "2");
}

#[test]
fn create_note_rejects_reserved_extra_key() {
    let (mut repo, io, _clock) = repo();
    let edit = ExtraEdit::from_raw(vec!["mtime=2".to_string()], Vec::new(), false);
    assert!(matches!(edit, Err(RepositoryError::Validation(_))));
    let edit = ExtraEdit::from_raw(vec!["ok=2".to_string()], Vec::new(), false).unwrap();
    let mut extra = ExtraTable::new();
    extra.insert("id".to_string(), edit.set[0].1.clone());
    let spec = CreateSpec {
        body: "body".to_string(),
        aliases: vec!["a".to_string()],
        extra,
    };
    match repo.create_note(spec) {
        Err(RepositoryError::Validation(message)) => assert_eq!(
            message,
            "Metadata key `id` is reserved and cannot be set via extra"
        ),
        other => panic!("unexpected result {:?}", other.is_ok()),
    }
    assert!(repo.id_for_alias("a").is_none());
    assert_eq!(io.write_calls(), 0);
}

#[test]
fn edit_note_reads_edits_and_writes() {
    let (mut repo, _io, clock) = repo();
    let note = repo
        .create_note(CreateSpec::new("old".to_string(), vec!["n".to_string()]))
        .unwrap();
    let id = *note.meta().id();
    clock.set(Timestamp::new(200, 0));
    let extra = ExtraEdit::from_raw(
        vec!["k = \"v\"".to_string()],
        Vec::new(),
        false,
    )
    .unwrap();
    let spec = EditSpec::new(BodyEdit::Replace("new".to_string()), AliasesEdit::Clear, extra);
    let edited = repo.edit_note(id, spec).unwrap();
    assert_eq!(edited.body(), "new");
    assert!(edited.meta().aliases().is_empty());
    assert_eq!(edited.meta().mtime(), &Timestamp::new(200, 0));
    assert!(!edited.is_dirty_body() && !edited.is_dirty_meta());
    assert!(repo.id_for_alias("n").is_none());
    let reread = repo.read_note(id).unwrap();
    assert_eq!(reread.body(), "new");
    assert_eq!(reread.meta().extra().key_at(0), "k");
    assert_eq!(reread.meta().extra().value_at(0).text(), "\"v\"");
}

#[test]
fn edit_loaded_note_without_change_reports_false() {
    let (mut repo, io, _clock) = repo();
    let mut note = repo
        .create_note(CreateSpec::new("same".to_string(), vec!["x".to_string()]))
        .unwrap();
    let calls = io.write_calls();
    let spec = EditSpec::new(
        BodyEdit::Replace("same".to_string()),
        AliasesEdit::Replace(vec!["x".to_string()]),
        ExtraEdit::empty(),
    );
    assert!(!repo.edit_loaded_note(&mut note, spec).unwrap());
    assert_eq!(io.write_calls(), calls);
    assert!(repo.id_for_alias("x").is_some());
}

#[test]
fn edit_applied_twice_changes_nothing_the_second_time() {
    let (mut repo, _io, _clock) = repo();
    let mut note = repo
        .create_note(CreateSpec::new("a".to_string(), Vec::new()))
        .unwrap();
    let make = || {
        EditSpec::new(
            BodyEdit::Clear,
            AliasesEdit::Replace(vec!["p".to_string()]),
            ExtraEdit::from_raw(vec!["n=1".to_string()], vec!["m".to_string()], false).unwrap(),
        )
    };
    assert!(repo.edit_loaded_note(&mut note, make()).unwrap());
    assert!(!repo.edit_loaded_note(&mut note, make()).unwrap());
    assert_eq!(note.body(), "");
}

#[test]
fn edit_loaded_note_rejects_clear_with_set() {
    let (mut repo, _io, _clock) = repo();
    let mut note = repo
        .create_note(CreateSpec::new("a".to_string(), Vec::new()))
        .unwrap();
    let mut extra = ExtraEdit::from_raw(vec!["n=1".to_string()], Vec::new(), false).unwrap();
    extra.clear = true;
    let spec = EditSpec::new(BodyEdit::Clear, AliasesEdit::Keep, extra);
    match repo.edit_loaded_note(&mut note, spec) {
        Err(RepositoryError::Validation(m)) => {
            assert_eq!(m, "--clear-extra cannot be combined with --set or --unset")
        }
        _ => panic!("expected a validation error"),
    }
    assert_eq!(note.body(), "a");
}

#[test]
fn read_note_indexes_aliases_of_a_fresh_repository() {
    let io = TestIO::default();
    let clock = TestClock::new(Timestamp::new(5, 0));
    let mut writer = Repository::open("vault".to_string(), io.clone(), clock.clone());
    let note: Note = writer
        .create_note(CreateSpec::new("b".to_string(), vec!["z".to_string()]))
        .unwrap();
    let mut reader = Repository::open("vault".to_string(), io.clone(), clock);
    assert!(reader.id_for_alias("z").is_none());
    reader.read_note(*note.meta().id()).unwrap();
    assert_eq!(reader.id_for_alias("z"), Some(note.meta().id()));
}

#[test]
fn edit_note_failures_name_the_step() {
    let (mut first, io, _clock) = repo();
    let note = first
        .create_note(CreateSpec::new("old".to_string(), vec!["n".to_string()]))
        .unwrap();
    let id = *note.meta().id();
    io.set_fail_write_body(io::ErrorKind::PermissionDenied);
    let spec = EditSpec::new(BodyEdit::Replace("new".to_string()), aliases_edit(&["m"]).aliases, ExtraEdit::empty());
    match first.edit_note(id, spec) {
        Err(RepositoryError::Note(lethe::note::NoteError::BodyWriteError { id: eid, .. })) => assert_eq!(eid, id),
        _ => panic!("expected a body write error"),
    }
    assert_eq!(first.id_for_alias("m"), Some(&id));
    assert!(first.id_for_alias("n").is_none());

    let (mut fresh, io2, _clock2) = repo();
    io2.set_fail_read_meta(io::ErrorKind::NotFound);
    match fresh.edit_note(id, aliases_edit(&["x"])) {
        Err(RepositoryError::Note(lethe::note::NoteError::MetadataReadError { id: eid, .. })) => assert_eq!(eid, id),
        _ => panic!("expected a metadata read error"),
    }
    assert!(fresh.id_for_alias("x").is_none());
}

#[test]
fn create_note_failure_names_a_fresh_identifier() {
    let (mut repo, io, _clock) = repo();
    io.set_fail_create_dir(io::ErrorKind::PermissionDenied);
    match repo.create_note(CreateSpec::new("b".to_string(), vec!["a".to_string()])) {
        Err(RepositoryError::Note(lethe::note::NoteError::NoteCreateDirError { id, .. })) => {
            assert_eq!((id.hi >> 12) & 0xf, 4);
        },
        _ => panic!("expected a directory error"),
    }
    assert!(repo.id_for_alias("a").is_none());
}
