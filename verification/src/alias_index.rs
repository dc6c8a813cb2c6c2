//! The index from aliases to the identifiers of the notes that carry them.
use vstd::prelude::*;
use crate::identifier::Identifier;

verus! {

/// The map that a list of (alias, identifier) entries stands for, each
/// later entry overriding earlier ones.
pub open spec fn entries_map(s: Seq<(Seq<char>, Identifier)>) -> Map<Seq<char>, Identifier>
    decreases s.len(),
{
    if s.len() == 0 {
        Map::empty()
    } else {
        entries_map(s.drop_last()).insert(s.last().0, s.last().1)
    }
}

/// Whether no alias occurs twice among the entries.
pub open spec fn unique_keys(s: Seq<(Seq<char>, Identifier)>) -> bool {
    forall|i: int, j: int| 0 <= i < j < s.len() ==> #[trigger] s[i].0 != #[trigger] s[j].0
}

proof fn lemma_entries_map_domain(s: Seq<(Seq<char>, Identifier)>, k: Seq<char>)
    ensures
        entries_map(s).contains_key(k) <==> exists|i: int| 0 <= i < s.len() && #[trigger] s[i].0 == k,
    decreases s.len(),
{
    if s.len() > 0 {
        let t = s.drop_last();
        lemma_entries_map_domain(t, k);
        if exists|i: int| 0 <= i < t.len() && #[trigger] t[i].0 == k {
            let i = choose|i: int| 0 <= i < t.len() && #[trigger] t[i].0 == k;
            assert(s[i] == t[i]);
        }
        if exists|i: int| 0 <= i < s.len() && #[trigger] s[i].0 == k {
            let i = choose|i: int| 0 <= i < s.len() && #[trigger] s[i].0 == k;
            if i < s.len() - 1 {
                assert(t[i] == s[i]);
            }
        }
    }
}

proof fn lemma_entries_map_remove(s: Seq<(Seq<char>, Identifier)>, i: int)
    requires
        unique_keys(s),
        0 <= i < s.len(),
    ensures
        entries_map(s.remove(i)) == entries_map(s).remove(s[i].0),
    decreases s.len(),
{
    let k = s[i].0;
    let t = s.drop_last();
    if i == s.len() - 1 {
        assert(s.remove(i) =~= t);
        assert(!entries_map(t).contains_key(k)) by {
            lemma_entries_map_domain(t, k);
            if exists|j: int| 0 <= j < t.len() && #[trigger] t[j].0 == k {
                let j = choose|j: int| 0 <= j < t.len() && #[trigger] t[j].0 == k;
                assert(s[j].0 == s[i].0);
            }
        }
        assert(entries_map(s).remove(k) =~= entries_map(t));
    } else {
        assert(unique_keys(t)) by {
            assert forall|a: int, b: int| 0 <= a < b < t.len() implies #[trigger] t[a].0
                != #[trigger] t[b].0 by {
                assert(t[a] == s[a] && t[b] == s[b]);
            }
        }
        assert(t[i] == s[i]);
        lemma_entries_map_remove(t, i);
        let r = s.remove(i);
        assert(r.drop_last() =~= t.remove(i));
        assert(r.last() == s.last());
        assert(s.last().0 != k);
        assert(entries_map(r) =~= entries_map(s).remove(k));
    }
}

/// The index from aliases to note identifiers.
#[derive(Debug)]
pub struct AliasIndex {
    entries: Vec<(String, Identifier)>,
}

impl AliasIndex {
    /// The entries of the index.
    pub closed spec fn entries_view(&self) -> Seq<(Seq<char>, Identifier)> {
        self.entries@.map_values(|e: (String, Identifier)| (e.0@, e.1))
    }

    /// The index as a map from alias to identifier.
    pub closed spec fn map(&self) -> Map<Seq<char>, Identifier> {
        entries_map(self.entries_view())
    }

    /// The index's invariant: no alias is held twice.
    pub closed spec fn wf(&self) -> bool {
        unique_keys(self.entries_view())
    }

    /// An empty index.
    pub fn new() -> (r: AliasIndex)
        ensures
            r.wf(),
            r.map() == Map::<Seq<char>, Identifier>::empty(),
    {
        let r = AliasIndex { entries: Vec::new() };
        assert(r.entries_view() =~= Seq::<(Seq<char>, Identifier)>::empty());
        r
    }

    fn find(&self, alias: &str) -> (r: Option<usize>)
        requires
            self.wf(),
        ensures
            r matches Some(i) ==> i < self.entries_view().len() && self.entries_view()[i as int].0
                == alias@,
            r is None ==> !self.map().contains_key(alias@),
    {
        let ghost s = self.entries_view();
        let a = crate::text::owned(alias);
        let mut i: usize = 0;
        while i < self.entries.len()
            invariant
                a@ == alias@,
                i <= s.len(),
                s == self.entries_view(),
                forall|j: int| 0 <= j < i ==> #[trigger] s[j].0 != alias@,
            decreases s.len() - i,
        {
            assert(s[i as int] == (self.entries@[i as int].0@, self.entries@[i as int].1));
            if self.entries[i].0 == a {
                return Some(i);
            }
            i = i + 1;
        }
        proof {
            lemma_entries_map_domain(s, alias@);
        }
        None
    }

    /// The identifier that `alias` refers to.
    pub fn get(&self, alias: &str) -> (r: Option<&Identifier>)
        requires
            self.wf(),
        ensures
            r matches Some(id) ==> self.map().contains_key(alias@) && self.map()[alias@] == *id,
            r is None ==> !self.map().contains_key(alias@),
    {
        match self.find(alias) {
            Some(i) => {
                proof {
                    lemma_entries_map_index(self.entries_view(), i as int);
                }
                Some(&self.entries[i].1)
            },
            None => None,
        }
    }

    /// Makes `alias` refer to nothing.
    pub fn remove(&mut self, alias: &str)
        requires
            old(self).wf(),
        ensures
            final(self).wf(),
            final(self).map() == old(self).map().remove(alias@),
    {
        let ghost s = self.entries_view();
        match self.find(alias) {
            Some(i) => {
                proof {
                    lemma_entries_map_remove(s, i as int);
                    lemma_unique_remove(s, i as int);
                }
                self.entries.remove(i);
                assert(self.entries_view() =~= s.remove(i as int));
            },
            None => {
                assert(self.map() =~= old(self).map().remove(alias@));
            },
        }
    }

    /// Makes `alias` refer to `id`.
    pub fn insert(&mut self, alias: String, id: Identifier)
        requires
            old(self).wf(),
        ensures
            final(self).wf(),
            final(self).map() == old(self).map().insert(alias@, id),
    {
        self.remove(alias.as_str());
        let ghost t = self.entries_view();
        proof {
            lemma_entries_map_domain(t, alias@);
        }
        self.entries.push((alias, id));
        assert(self.entries_view() =~= t.push((alias@, id)));
        assert(self.entries_view().drop_last() =~= t);
        assert(unique_keys(self.entries_view())) by {
            let u = self.entries_view();
            assert forall|a: int, b: int| 0 <= a < b < u.len() implies #[trigger] u[a].0
                != #[trigger] u[b].0 by {
                if b == u.len() - 1 {
                    assert(u[a] == t[a]);
                } else {
                    assert(u[a] == t[a] && u[b] == t[b]);
                }
            }
        }
        assert(self.map() =~= old(self).map().insert(alias@, id));
    }
}

proof fn lemma_entries_map_index(s: Seq<(Seq<char>, Identifier)>, i: int)
    requires
        unique_keys(s),
        0 <= i < s.len(),
    ensures
        entries_map(s).contains_key(s[i].0),
        entries_map(s)[s[i].0] == s[i].1,
    decreases s.len(),
{
    if i < s.len() - 1 {
        let t = s.drop_last();
        assert(unique_keys(t)) by {
            assert forall|a: int, b: int| 0 <= a < b < t.len() implies #[trigger] t[a].0
                != #[trigger] t[b].0 by {
                assert(t[a] == s[a] && t[b] == s[b]);
            }
        }
        assert(t[i] == s[i]);
        lemma_entries_map_index(t, i);
    }
}

proof fn lemma_unique_remove(s: Seq<(Seq<char>, Identifier)>, i: int)
    requires
        unique_keys(s),
        0 <= i < s.len(),
    ensures
        unique_keys(s.remove(i)),
{
    let r = s.remove(i);
    assert forall|a: int, b: int| 0 <= a < b < r.len() implies #[trigger] r[a].0 != #[trigger] r[b].0 by {
        let sa = if a < i { a } else { a + 1 };
        let sb = if b < i { b } else { b + 1 };
        assert(r[a] == s[sa] && r[b] == s[sb]);
    }
}

} // verus!
