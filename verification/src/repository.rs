//! A repository: a store of notes together with an index from aliases to
//! notes, and the creation and editing of notes by request.
use vstd::prelude::*;
use crate::alias_index::AliasIndex;
use crate::extra::{ExtraTable, EntryView};
use crate::identifier::{is_random_uuid, Identifier};
use crate::note::{fresh_editor, is_reserved, reserved_key_of, strings_view, copy_strings, strings_eq, updated, update_keeps, MetadataError, Note, NoteError, NoteErrorView, NoteUpdate, NoteView};
use crate::store::{create_outcome, error_id, is_write_error, lemma_create_outcome_ids, lemma_write_error, note_of_texts, read_outcome, read_outcome_view, write_outcome, write_outcome_view, NoteIO, Clock, NoteStore, Store};
use crate::validation::{first_key_error, keys_of, validation, lemma_first_key_error_prefix, lemma_first_key_error_none, lemma_no_reserved_key};
use crate::edit::{EditSpecView, extra_edit_error, apply_edit, ReplaceExtra, lemma_valid_edit_not_refused, lemma_unmutated_edit_keeps_note};
pub use crate::edit::{AliasesEdit, BodyEdit, EditSpec, ExtraEdit};
pub use crate::validation::validate_extra_key;

verus! {

/// Errors of a repository.
#[derive(Debug)]
pub enum RepositoryError {
    /// Reading or writing a note failed.
    Note(NoteError),
    /// Changing a note's metadata was refused.
    Metadata(MetadataError),
    /// A request was malformed; the message says how.
    Validation(String),
}

/// Whether `r` is a validation error with the message `m`.
pub open spec fn is_validation<T>(r: Result<T, RepositoryError>, m: Seq<char>) -> bool {
    match r {
        Err(RepositoryError::Validation(msg)) => msg@ == m,
        _ => false,
    }
}

/// A request to create a note.
#[derive(Debug, Clone)]
pub struct CreateSpec {
    pub body: String,
    pub aliases: Vec<String>,
    pub extra: ExtraTable,
}

impl CreateSpec {
    /// A request for a note with `body` and `aliases`, and no user-defined
    /// metadata.
    pub fn new(body: String, aliases: Vec<String>) -> (r: CreateSpec)
        ensures
            r.body == body,
            r.aliases == aliases,
            r.extra@ == Seq::<EntryView>::empty(),
            r.extra.wf(),
    {
        CreateSpec { body, aliases, extra: ExtraTable::new() }
    }

    /// Checks the keys of the user-defined metadata, in key order.
    fn validate(&self) -> (r: Result<(), RepositoryError>)
        ensures
            match first_key_error(keys_of(self.extra@)) {
                None => r is Ok,
                Some(m) => is_validation(r, m),
            },
    {
        let ghost ks = keys_of(self.extra@);
        let mut i: usize = 0;
        assert(ks.take(0) =~= Seq::<Seq<char>>::empty());
        while i < self.extra.len()
            invariant
                i <= self.extra@.len(),
                ks == keys_of(self.extra@),
                first_key_error(ks.take(i as int)) is None,
            decreases self.extra@.len() - i,
        {
            let ghost p = ks.take(i + 1);
            assert(p.drop_last() =~= ks.take(i as int));
            match validate_extra_key(self.extra.key_at(i).as_str()) {
                Ok(()) => {},
                Err(e) => {
                    proof {
                        lemma_first_key_error_prefix(ks, i + 1);
                    }
                    return Err(e);
                },
            }
            i = i + 1;
        }
        assert(ks.take(self.extra@.len() as int) =~= ks);
        Ok(())
    }
}

/// The index `m` with each of `aliases` in turn made to refer to `id`.
pub open spec fn indexed(m: Map<Seq<char>, Identifier>, aliases: Seq<Seq<char>>, id: Identifier) -> Map<
    Seq<char>,
    Identifier,
>
    decreases aliases.len(),
{
    if aliases.len() == 0 {
        m
    } else {
        indexed(m, aliases.drop_last(), id).insert(aliases.last(), id)
    }
}

/// The index `m` with each of `aliases` in turn removed where it refers to
/// `id`.
pub open spec fn unindexed(m: Map<Seq<char>, Identifier>, aliases: Seq<Seq<char>>, id: Identifier) -> Map<
    Seq<char>,
    Identifier,
>
    decreases aliases.len(),
{
    if aliases.len() == 0 {
        m
    } else {
        let m2 = unindexed(m, aliases.drop_last(), id);
        let a = aliases.last();
        if m2.contains_key(a) && m2[a] == id {
            m2.remove(a)
        } else {
            m2
        }
    }
}

/// The index after an update of the note `id` from `old_aliases` to
/// `new_aliases`: when the update changed the note and its aliases, the
/// old aliases that referred to the note are removed and the new ones
/// made to refer to it.
pub open spec fn reindexed(
    m: Map<Seq<char>, Identifier>,
    old_aliases: Seq<Seq<char>>,
    new_aliases: Seq<Seq<char>>,
    id: Identifier,
    mutated: bool,
) -> Map<Seq<char>, Identifier> {
    if mutated && old_aliases != new_aliases {
        indexed(unindexed(m, old_aliases, id), new_aliases, id)
    } else {
        m
    }
}

/// What indexing aliases gives back: each of `aliases` refers to `id`,
/// and every other alias refers to what it referred to.
pub proof fn lemma_indexed(m: Map<Seq<char>, Identifier>, aliases: Seq<Seq<char>>, id: Identifier, a: Seq<char>)
    ensures
        aliases.contains(a) ==> indexed(m, aliases, id).contains_key(a) && indexed(m, aliases, id)[a]
            == id,
        !aliases.contains(a) ==> (indexed(m, aliases, id).contains_key(a) == m.contains_key(a)
            && indexed(m, aliases, id)[a] == m[a]),
    decreases aliases.len(),
{
    if aliases.len() > 0 {
        let t = aliases.drop_last();
        lemma_indexed(m, t, id, a);
        if a != aliases.last() {
            if aliases.contains(a) {
                let i = choose|i: int| 0 <= i < aliases.len() && aliases[i] == a;
                assert(t[i] == a);
            }
            if t.contains(a) {
                let i = choose|i: int| 0 <= i < t.len() && t[i] == a;
                assert(aliases[i] == a);
            }
        } else {
            assert(aliases[aliases.len() - 1] == a);
        }
    }
}

/// What removing aliases gives back: an alias among `aliases` that
/// referred to `id` refers to nothing, and every other alias refers to
/// what it referred to.
pub proof fn lemma_unindexed(m: Map<Seq<char>, Identifier>, aliases: Seq<Seq<char>>, id: Identifier, a: Seq<char>)
    ensures
        aliases.contains(a) && m.contains_key(a) && m[a] == id ==> !unindexed(
            m,
            aliases,
            id,
        ).contains_key(a),
        !(aliases.contains(a) && m.contains_key(a) && m[a] == id) ==> (unindexed(
            m,
            aliases,
            id,
        ).contains_key(a) == m.contains_key(a) && unindexed(m, aliases, id)[a] == m[a]),
    decreases aliases.len(),
{
    if aliases.len() > 0 {
        let t = aliases.drop_last();
        lemma_unindexed(m, t, id, a);
        if aliases.contains(a) && a != aliases.last() {
            let i = choose|i: int| 0 <= i < aliases.len() && aliases[i] == a;
            assert(t[i] == a);
        }
        if t.contains(a) {
            let i = choose|i: int| 0 <= i < t.len() && t[i] == a;
            assert(aliases[i] == a);
        }
        if a == aliases.last() {
            assert(aliases[aliases.len() - 1] == a);
        }
    }
}

/// What an edit of a note's aliases does to the index: when the update
/// changed the note's aliases, each new alias refers to the note; an old
/// alias that referred to the note and is not a new one refers to
/// nothing; every other alias refers to what it referred to.
pub proof fn lemma_reindexed(
    m: Map<Seq<char>, Identifier>,
    old_aliases: Seq<Seq<char>>,
    new_aliases: Seq<Seq<char>>,
    id: Identifier,
    a: Seq<char>,
)
    requires
        old_aliases != new_aliases,
    ensures
        new_aliases.contains(a) ==> reindexed(m, old_aliases, new_aliases, id, true).contains_key(a)
            && reindexed(m, old_aliases, new_aliases, id, true)[a] == id,
        !new_aliases.contains(a) && old_aliases.contains(a) && m.contains_key(a) && m[a] == id
            ==> !reindexed(m, old_aliases, new_aliases, id, true).contains_key(a),
        !new_aliases.contains(a) && !(old_aliases.contains(a) && m.contains_key(a) && m[a] == id)
            ==> reindexed(m, old_aliases, new_aliases, id, true).contains_key(a) == m.contains_key(a)
            && reindexed(m, old_aliases, new_aliases, id, true)[a] == m[a],
{
    lemma_unindexed(m, old_aliases, id, a);
    lemma_indexed(unindexed(m, old_aliases, id), new_aliases, id, a);
}

/// Whether `n` is a note as reading it gives it: clean, with the metadata
/// that some text describes.
pub open spec fn read_from_texts(n: NoteView) -> bool {
    exists|m: Seq<char>, b: Seq<char>| note_of_texts(m, b) == Ok::<NoteView, Seq<char>>(n)
}

/// Whether `after` is what editing the note `before` as `s` asks and
/// writing it if it changed gives, with the alias index going from `m0` to
/// `m1`.
pub open spec fn edited(
    before: NoteView,
    s: EditSpecView,
    after: NoteView,
    m0: Map<Seq<char>, Identifier>,
    m1: Map<Seq<char>, Identifier>,
) -> bool {
    let (nv, res) = updated(apply_edit(fresh_editor(before), s), after.meta.mtime);
    let changed = res == Ok::<bool, Seq<char>>(true);
    &&& res is Ok
    &&& after == (if changed {
        NoteView { dirty_body: false, dirty_meta: false, ..nv }
    } else {
        before
    })
    &&& m1 == reindexed(m0, before.meta.aliases, nv.meta.aliases, before.meta.id, changed)
}

/// Whether editing the note `before` as `s` asks changed it and writing it
/// then failed with `e`: `e` is an error of writing the edited note, at
/// some modification time (see [`write_outcome_view`]), and the alias index went from `m0` to `m1` by
/// moving the note's aliases to the edited ones.
pub open spec fn edit_failed(
    before: NoteView,
    s: EditSpecView,
    e: NoteErrorView,
    m0: Map<Seq<char>, Identifier>,
    m1: Map<Seq<char>, Identifier>,
) -> bool {
    let (nv, res) = updated(apply_edit(fresh_editor(before), s), before.meta.mtime);
    &&& res == Ok::<bool, Seq<char>>(true)
    &&& exists|t: crate::timestamp::Timestamp, after: NoteView|
        #[trigger] write_outcome_view(
            updated(apply_edit(fresh_editor(before), s), t).0,
            after,
            Err(e),
        )
    &&& m1 == reindexed(m0, before.meta.aliases, nv.meta.aliases, before.meta.id, true)
}

/// What `edit_note` of the note `id` as `s` may end in when it fails with the
/// note error `e`, with the alias index going from `m_old` to `m1`: reading
/// the note failed, naming `id`, and the index is unchanged; or a note was
/// read, its aliases were indexed, the edit changed it, and writing it
/// failed.
pub open spec fn edit_note_failed(
    id: Identifier,
    s: EditSpecView,
    e: NoteErrorView,
    m_old: Map<Seq<char>, Identifier>,
    m1: Map<Seq<char>, Identifier>,
) -> bool {
    ||| read_outcome_view(id, Err(e)) && m1 == m_old
    ||| exists|before: NoteView|
        read_from_texts(before) && #[trigger] edit_failed(
            before,
            s,
            e,
            indexed(m_old, before.meta.aliases, before.meta.id),
            m1,
        )
}

/// The note result of a repository result: its note error, if it has one.
pub open spec fn note_result<T>(r: Result<T, RepositoryError>) -> Result<T, NoteError> {
    match r {
        Ok(v) => Ok(v),
        Err(RepositoryError::Note(e)) => Err(e),
        Err(_) => arbitrary(),
    }
}

/// Whether `r` is a success or a note error.
pub open spec fn is_ok_or_note_error<T>(r: Result<T, RepositoryError>) -> bool {
    r is Ok || r matches Err(RepositoryError::Note(_))
}

/// A store together with an index from aliases to the notes that carry
/// them.
#[derive(Debug)]
pub struct RepositoryImpl<S> {
    store: S,
    alias_index: AliasIndex,
}

impl<S> RepositoryImpl<S> {
    /// The store that the repository holds.
    pub closed spec fn held_store(&self) -> S {
        self.store
    }

    /// The index from aliases to notes.
    pub closed spec fn index(&self) -> Map<Seq<char>, Identifier> {
        self.alias_index.map()
    }

    /// The repository's invariant: that of its index.
    pub closed spec fn wf(&self) -> bool {
        self.alias_index.wf()
    }
}

impl<S: Store> RepositoryImpl<S> {
    /// A repository over `store` with an empty index.
    pub fn new(store: S) -> (r: Self)
        ensures
            r.wf(),
            r.index() == Map::<Seq<char>, Identifier>::empty(),
            r.held_store() == store,
    {
        RepositoryImpl { store, alias_index: AliasIndex::new() }
    }

    /// The note that `alias` refers to.
    pub fn id_for_alias(&self, alias: &str) -> (r: Option<&Identifier>)
        requires
            self.wf(),
        ensures
            r matches Some(id) ==> self.index().contains_key(alias@) && self.index()[alias@] == *id,
            r is None ==> !self.index().contains_key(alias@),
    {
        self.alias_index.get(alias)
    }

    /// Makes each of `aliases` refer to `id`.
    fn index_aliases(&mut self, aliases: &Vec<String>, id: Identifier)
        requires
            old(self).wf(),
        ensures
            final(self).wf(),
            final(self).index() == indexed(old(self).index(), strings_view(aliases@), id),
    {
        let ghost av = strings_view(aliases@);
        let mut i: usize = 0;
        assert(av.take(0) =~= Seq::<Seq<char>>::empty());
        while i < aliases.len()
            invariant
                self.wf(),
                i <= aliases@.len(),
                av == strings_view(aliases@),
                self.index() == indexed(old(self).index(), av.take(i as int), id),
            decreases aliases@.len() - i,
        {
            let ghost p = av.take(i + 1);
            assert(p.drop_last() =~= av.take(i as int));
            assert(p.last() == aliases@[i as int]@);
            self.alias_index.insert(aliases[i].clone(), id);
            i = i + 1;
        }
        assert(av.take(aliases@.len() as int) =~= av);
    }

    /// Makes each alias of `note` refer to it.
    fn index_note(&mut self, note: &Note)
        requires
            old(self).wf(),
        ensures
            final(self).wf(),
            final(self).index() == indexed(old(self).index(), note@.meta.aliases, note@.meta.id),
    {
        let id = *note.meta().id();
        self.index_aliases(note.meta().aliases(), id);
    }

    /// Removes each of `aliases` that refers to `id`.
    fn remove_aliases(&mut self, aliases: &Vec<String>, id: &Identifier)
        requires
            old(self).wf(),
        ensures
            final(self).wf(),
            final(self).index() == unindexed(old(self).index(), strings_view(aliases@), *id),
    {
        let ghost av = strings_view(aliases@);
        let mut i: usize = 0;
        assert(av.take(0) =~= Seq::<Seq<char>>::empty());
        while i < aliases.len()
            invariant
                self.wf(),
                i <= aliases@.len(),
                av == strings_view(aliases@),
                self.index() == unindexed(old(self).index(), av.take(i as int), *id),
            decreases aliases@.len() - i,
        {
            let ghost p = av.take(i + 1);
            assert(p.drop_last() =~= av.take(i as int));
            assert(p.last() == aliases@[i as int]@);
            let matches = match self.alias_index.get(aliases[i].as_str()) {
                Some(existing) => *existing == *id,
                None => false,
            };
            if matches {
                self.alias_index.remove(aliases[i].as_str());
            }
            i = i + 1;
        }
        assert(av.take(aliases@.len() as int) =~= av);
    }

    /// Creates a note in the store and indexes its aliases.
    fn create(&mut self, body: String, aliases: Vec<String>) -> (r: Result<Note, RepositoryError>)
        requires
            old(self).wf(),
        ensures
            final(self).wf(),
            is_ok_or_note_error(r),
            create_outcome(body@, strings_view(aliases@), note_result(r)),
            r matches Ok(n) ==> final(self).index() == indexed(
                old(self).index(),
                n@.meta.aliases,
                n@.meta.id,
            ),
            r is Err ==> final(self).index() == old(self).index(),
            r matches Ok(n) ==> is_random_uuid(n@.meta.id.hi, n@.meta.id.lo),
            r matches Err(RepositoryError::Note(e)) ==> is_write_error(e) && is_random_uuid(
                error_id(e).hi,
                error_id(e).lo,
            ),
    {
        let ghost bv = body@;
        let ghost av = strings_view(aliases@);
        let created = self.store.create(body, aliases);
        proof {
            lemma_create_outcome_ids(bv, av, created);
        }
        let note = match created {
            Ok(n) => n,
            Err(e) => {
                return Err(RepositoryError::Note(e));
            },
        };
        self.index_note(&note);
        Ok(note)
    }

    /// Reads a note from the store and indexes its aliases.
    fn read(&mut self, id: Identifier) -> (r: Result<Note, RepositoryError>)
        requires
            old(self).wf(),
        ensures
            final(self).wf(),
            is_ok_or_note_error(r),
            read_outcome(id, note_result(r)),
            r matches Ok(n) ==> final(self).index() == indexed(
                old(self).index(),
                n@.meta.aliases,
                n@.meta.id,
            ),
            r is Err ==> final(self).index() == old(self).index(),
    {
        let note = match self.store.read(id) {
            Ok(n) => n,
            Err(e) => {
                return Err(RepositoryError::Note(e));
            },
        };
        self.index_note(&note);
        Ok(note)
    }

    /// Writes the changed parts of `note` to the store.
    fn write(&self, note: &mut Note) -> (r: Result<(), RepositoryError>)
        requires
            old(note).wf(),
        ensures
            final(note).wf(),
            is_ok_or_note_error(r),
            write_outcome(old(note)@, final(note)@, note_result(r)),
    {
        match self.store.write(note) {
            Ok(()) => Ok(()),
            Err(e) => Err(RepositoryError::Note(e)),
        }
    }

    /// Applies `update` to `note` through the store and, when it changed
    /// the note's aliases, moves the note's entries in the index from the
    /// old aliases to the new ones.
    fn update<U: NoteUpdate>(&mut self, note: &mut Note, update: &U) -> (r: Result<
        bool,
        RepositoryError,
    >)
        requires
            old(self).wf(),
            old(note).wf(),
        ensures
            final(self).wf(),
            final(note).wf(),
            ({
                let (nv, res) = updated(
                    update.apply_spec(fresh_editor(old(note)@)),
                    final(note)@.meta.mtime,
                );
                &&& final(note)@ == nv
                &&& match r {
                    Ok(m) => res == Ok::<bool, Seq<char>>(m) && final(self).index() == reindexed(
                        old(self).index(),
                        old(note)@.meta.aliases,
                        nv.meta.aliases,
                        old(note)@.meta.id,
                        m,
                    ),
                    Err(RepositoryError::Metadata(e)) => res == Err::<bool, Seq<char>>(
                        reserved_key_of(e),
                    ) && final(self).index() == old(self).index(),
                    Err(_) => false,
                }
            }),
            update_keeps(old(note)@, final(note)@, match r {
                Ok(m) => Ok::<bool, Seq<char>>(m),
                Err(_) => Err::<bool, Seq<char>>(Seq::empty()),
            }),
    {
        let old_aliases = copy_strings(note.meta().aliases());
        let id = *note.meta().id();
        let mutated = match self.store.update(note, update) {
            Ok(m) => m,
            Err(e) => {
                return Err(RepositoryError::Metadata(e));
            },
        };
        if mutated && !crate::note::strings_eq(&old_aliases, note.meta().aliases()) {
            self.remove_aliases(&old_aliases, &id);
            self.index_aliases(note.meta().aliases(), id);
        }
        Ok(mutated)
    }

    /// Creates a note as `spec` asks: its keys are checked, the note is
    /// created with the body and aliases, its aliases are indexed, and its
    /// user-defined metadata, if any, is set and written.
    pub fn create_note(&mut self, spec: CreateSpec) -> (r: Result<Note, RepositoryError>)
        requires
            old(self).wf(),
            spec.extra.wf(),
        ensures
            final(self).wf(),
            match first_key_error(keys_of(spec.extra@)) {
                Some(m) => is_validation(r, m) && final(self).index() == old(self).index(),
                None => match r {
                    Ok(n) => {
                        &&& n.wf()
                        &&& n@.body == spec.body@
                        &&& n@.meta.aliases == strings_view(spec.aliases@)
                        &&& n@.meta.extra == spec.extra@
                        &&& !n@.dirty_body
                        &&& !n@.dirty_meta
                        &&& final(self).index() == indexed(
                            old(self).index(),
                            n@.meta.aliases,
                            n@.meta.id,
                        )
                    },
                    Err(RepositoryError::Note(e)) => {
                        &&& is_write_error(e)
                        &&& is_random_uuid(error_id(e).hi, error_id(e).lo)
                        &&& (final(self).index() == old(self).index() || final(self).index()
                            == indexed(old(self).index(), strings_view(spec.aliases@), error_id(e)))
                    },
                    Err(_) => false,
                },
            },
    {
        spec.validate()?;
        let CreateSpec { body, aliases, extra } = spec;
        let mut note = self.create(body, aliases)?;
        if !extra.is_empty() {
            proof {
                lemma_first_key_error_none(keys_of(extra@));
                assert forall|i: int| 0 <= i < extra@.len() implies !is_reserved(
                    #[trigger] extra@[i].0,
                ) by {
                    assert(keys_of(extra@)[i] == extra@[i].0);
                }
                lemma_no_reserved_key(extra@);
            }
            let update = ReplaceExtra::new(extra);
            let changed = self.update(&mut note, &update)?;
            if changed {
                self.write(&mut note)?;
            }
        }
        Ok(note)
    }

    /// Reads the note `id` and indexes its aliases.
    pub fn read_note(&mut self, id: Identifier) -> (r: Result<Note, RepositoryError>)
        requires
            old(self).wf(),
        ensures
            final(self).wf(),
            is_ok_or_note_error(r),
            read_outcome(id, note_result(r)),
            r matches Ok(n) ==> final(self).index() == indexed(
                old(self).index(),
                n@.meta.aliases,
                n@.meta.id,
            ),
            r is Err ==> final(self).index() == old(self).index(),
    {
        self.read(id)
    }

    /// Edits the loaded `note` as `spec` asks, writes it if it changed, and
    /// moves its aliases in the index.  Says whether it changed.
    pub fn edit_loaded_note(&mut self, note: &mut Note, spec: EditSpec) -> (r: Result<
        bool,
        RepositoryError,
    >)
        requires
            old(self).wf(),
            old(note).wf(),
        ensures
            final(self).wf(),
            final(note).wf(),
            match extra_edit_error(spec@.extra) {
                Some(m) => is_validation(r, m) && final(note)@ == old(note)@ && final(self).index()
                    == old(self).index(),
                None => {
                    let (nv, res) = updated(
                        apply_edit(fresh_editor(old(note)@), spec@),
                        final(note)@.meta.mtime,
                    );
                    let m = res == Ok::<bool, Seq<char>>(true);
                    &&& res is Ok
                    &&& final(self).index() == reindexed(
                        old(self).index(),
                        old(note)@.meta.aliases,
                        nv.meta.aliases,
                        old(note)@.meta.id,
                        m,
                    )
                    &&& match r {
                        Ok(b) => b == m && final(note)@ == (if m {
                            NoteView { dirty_body: false, dirty_meta: false, ..nv }
                        } else {
                            nv
                        }),
                        Err(RepositoryError::Note(e)) => m && write_outcome(
                            nv,
                            final(note)@,
                            Err(e),
                        ),
                        Err(_) => false,
                    }
                },
            },
            r matches Ok(false) ==> final(note)@ == old(note)@,
    {
        spec.validate()?;
        proof {
            lemma_valid_edit_not_refused(fresh_editor(old(note)@), spec@);
            lemma_unmutated_edit_keeps_note(fresh_editor(old(note)@), spec@);
        }
        let mutated = self.update(note, &spec)?;
        if mutated {
            self.write(note)?;
        }
        Ok(mutated)
    }

    /// Reads the note `id`, indexes its aliases, and edits it as `spec`
    /// asks.
    pub fn edit_note(&mut self, id: Identifier, spec: EditSpec) -> (r: Result<Note, RepositoryError>)
        requires
            old(self).wf(),
        ensures
            final(self).wf(),
            r is Ok ==> extra_edit_error(spec@.extra) is None,
            r matches Err(RepositoryError::Validation(m)) ==> extra_edit_error(spec@.extra) == Some(
                m@,
            ),
            !(r matches Err(RepositoryError::Metadata(_))),
            r matches Ok(n) ==> n.wf() && !n@.dirty_body && !n@.dirty_meta && exists|
                before: NoteView,
            |
                read_from_texts(before) && #[trigger] edited(
                    before,
                    spec@,
                    n@,
                    indexed(old(self).index(), before.meta.aliases, before.meta.id),
                    final(self).index(),
                ),
            r matches Err(RepositoryError::Note(e)) ==> edit_note_failed(
                id,
                spec@,
                e@,
                old(self).index(),
                final(self).index(),
            ),
    {
        let ghost m_old = self.index();
        let mut note = match self.read(id) {
            Ok(n) => n,
            Err(e) => {
                return Err(e);
            },
        };
        let ghost before = note@;
        assert(read_from_texts(before));
        let ghost m0 = self.index();
        assert(m0 == indexed(m_old, before.meta.aliases, before.meta.id));
        let ghost sv = spec@;
        match self.edit_loaded_note(&mut note, spec) {
            Ok(_) => {},
            Err(e) => {
                proof {
                    if let RepositoryError::Note(ne) = &e {
                        assert(write_outcome_view(
                            updated(apply_edit(fresh_editor(before), sv), note@.meta.mtime).0,
                            note@,
                            Err(ne@),
                        ));
                        assert(edit_failed(before, sv, ne@, m0, self.index()));
                    }
                }
                return Err(e);
            },
        }
        assert(edited(before, sv, note@, m0, self.index()));
        Ok(note)
    }
}


/// A repository of notes under a root directory: a store reached through
/// `io` with times from `clock`, and the index from aliases to notes.
#[derive(Debug)]
pub struct Repository<I, C> {
    inner: RepositoryImpl<NoteStore<I, C>>,
}

impl<I, C> Repository<I, C> {
    /// The repository's invariant: that of its index.
    pub closed spec fn wf(&self) -> bool {
        self.inner.wf()
    }

    /// The index from aliases to notes.
    pub closed spec fn index(&self) -> Map<Seq<char>, Identifier> {
        self.inner.index()
    }

    /// The root directory of the repository's store.
    pub closed spec fn root(&self) -> Seq<char> {
        self.inner.held_store().root_view()
    }
}

impl<I: NoteIO, C: Clock> Repository<I, C> {
    /// Opens the repository under `root`, reached through `io`, with times
    /// from `clock`; its index starts empty.
    pub fn open(root: String, io: I, clock: C) -> (r: Self)
        ensures
            r.wf(),
            r.index() == Map::<Seq<char>, Identifier>::empty(),
            r.root() == root@,
    {
        Repository { inner: RepositoryImpl::new(NoteStore::with_io_and_clock(root, io, clock)) }
    }

    /// The note that `alias` refers to.
    pub fn id_for_alias(&self, alias: &str) -> (r: Option<&Identifier>)
        requires
            self.wf(),
        ensures
            r matches Some(id) ==> self.index().contains_key(alias@) && self.index()[alias@] == *id,
            r is None ==> !self.index().contains_key(alias@),
    {
        self.inner.id_for_alias(alias)
    }

    /// Creates a note as `spec` asks.
    pub fn create_note(&mut self, spec: CreateSpec) -> (r: Result<Note, RepositoryError>)
        requires
            old(self).wf(),
            spec.extra.wf(),
        ensures
            final(self).wf(),
            match first_key_error(keys_of(spec.extra@)) {
                Some(m) => is_validation(r, m) && final(self).index() == old(self).index(),
                None => match r {
                    Ok(n) => {
                        &&& n.wf()
                        &&& n@.body == spec.body@
                        &&& n@.meta.aliases == strings_view(spec.aliases@)
                        &&& n@.meta.extra == spec.extra@
                        &&& !n@.dirty_body
                        &&& !n@.dirty_meta
                        &&& final(self).index() == indexed(
                            old(self).index(),
                            n@.meta.aliases,
                            n@.meta.id,
                        )
                    },
                    Err(RepositoryError::Note(e)) => {
                        &&& is_write_error(e)
                        &&& is_random_uuid(error_id(e).hi, error_id(e).lo)
                        &&& (final(self).index() == old(self).index() || final(self).index()
                            == indexed(old(self).index(), strings_view(spec.aliases@), error_id(e)))
                    },
                    Err(_) => false,
                },
            },
    {
        self.inner.create_note(spec)
    }

    /// Reads the note `id` and indexes its aliases.
    pub fn read_note(&mut self, id: Identifier) -> (r: Result<Note, RepositoryError>)
        requires
            old(self).wf(),
        ensures
            final(self).wf(),
            is_ok_or_note_error(r),
            read_outcome(id, note_result(r)),
            r matches Ok(n) ==> final(self).index() == indexed(
                old(self).index(),
                n@.meta.aliases,
                n@.meta.id,
            ),
            r is Err ==> final(self).index() == old(self).index(),
    {
        self.inner.read_note(id)
    }

    /// Reads the note `id`, indexes its aliases, and edits it as `spec`
    /// asks.
    pub fn edit_note(&mut self, id: Identifier, spec: EditSpec) -> (r: Result<Note, RepositoryError>)
        requires
            old(self).wf(),
        ensures
            final(self).wf(),
            r is Ok ==> extra_edit_error(spec@.extra) is None,
            r matches Err(RepositoryError::Validation(m)) ==> extra_edit_error(spec@.extra) == Some(
                m@,
            ),
            !(r matches Err(RepositoryError::Metadata(_))),
            r matches Ok(n) ==> n.wf() && !n@.dirty_body && !n@.dirty_meta && exists|
                before: NoteView,
            |
                read_from_texts(before) && #[trigger] edited(
                    before,
                    spec@,
                    n@,
                    indexed(old(self).index(), before.meta.aliases, before.meta.id),
                    final(self).index(),
                ),
            r matches Err(RepositoryError::Note(e)) ==> edit_note_failed(
                id,
                spec@,
                e@,
                old(self).index(),
                final(self).index(),
            ),
    {
        let ghost m_old = self.index();
        let r = self.inner.edit_note(id, spec);
        proof {
            if let Ok(n) = &r {
                let before = choose|before: NoteView|
                    read_from_texts(before) && #[trigger] edited(
                        before,
                        spec@,
                        n@,
                        indexed(m_old, before.meta.aliases, before.meta.id),
                        self.index(),
                    );
                assert(edited(
                    before,
                    spec@,
                    n@,
                    indexed(m_old, before.meta.aliases, before.meta.id),
                    self.index(),
                ));
            }
        }
        r
    }

    /// Edits the loaded `note` as `spec` asks, writes it if it changed, and
    /// moves its aliases in the index.  Says whether it changed.
    pub fn edit_loaded_note(&mut self, note: &mut Note, spec: EditSpec) -> (r: Result<
        bool,
        RepositoryError,
    >)
        requires
            old(self).wf(),
            old(note).wf(),
        ensures
            final(self).wf(),
            final(note).wf(),
            match extra_edit_error(spec@.extra) {
                Some(m) => is_validation(r, m) && final(note)@ == old(note)@ && final(self).index()
                    == old(self).index(),
                None => {
                    let (nv, res) = updated(
                        apply_edit(fresh_editor(old(note)@), spec@),
                        final(note)@.meta.mtime,
                    );
                    let m = res == Ok::<bool, Seq<char>>(true);
                    &&& res is Ok
                    &&& final(self).index() == reindexed(
                        old(self).index(),
                        old(note)@.meta.aliases,
                        nv.meta.aliases,
                        old(note)@.meta.id,
                        m,
                    )
                    &&& match r {
                        Ok(b) => b == m && final(note)@ == (if m {
                            NoteView { dirty_body: false, dirty_meta: false, ..nv }
                        } else {
                            nv
                        }),
                        Err(RepositoryError::Note(e)) => m && write_outcome(
                            nv,
                            final(note)@,
                            Err(e),
                        ),
                        Err(_) => false,
                    }
                },
            },
            r matches Ok(false) ==> final(note)@ == old(note)@,
    {
        self.inner.edit_loaded_note(note, spec)
    }
}


} // verus!
