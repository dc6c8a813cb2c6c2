//! The user-defined metadata of a note: a table from keys to TOML values,
//! kept in ascending key order with each key once, as `toml::Table` keeps it.
use vstd::prelude::*;
use crate::text::{chars_of, chars_eq, chars_lt, seq_lt, lemma_seq_lt_irreflexive, lemma_seq_lt_total, lemma_seq_lt_transitive};
use crate::toml_value::{toml_values_equal, TomlValue, TomlValueView};

verus! {

/// An entry of a table's view.
pub type EntryView = (Seq<char>, TomlValueView);

/// Whether the keys of `s` ascend strictly.
pub open spec fn sorted(s: Seq<EntryView>) -> bool {
    forall|i: int, j: int| 0 <= i < j < s.len() ==> seq_lt(#[trigger] s[i].0, #[trigger] s[j].0)
}

/// The value that `s` holds under `k`.
pub open spec fn lookup(s: Seq<EntryView>, k: Seq<char>) -> Option<TomlValueView>
    decreases s.len(),
{
    if s.len() == 0 {
        None
    } else if s[0].0 == k {
        Some(s[0].1)
    } else {
        lookup(s.drop_first(), k)
    }
}

/// `s` with `k` holding `v`: the entry of `k` replaced, or a new entry in
/// key order.
pub open spec fn inserted(s: Seq<EntryView>, k: Seq<char>, v: TomlValueView) -> Seq<EntryView>
    decreases s.len(),
{
    if s.len() == 0 {
        seq![(k, v)]
    } else if s[0].0 == k {
        seq![(k, v)] + s.drop_first()
    } else if seq_lt(k, s[0].0) {
        seq![(k, v)] + s
    } else {
        seq![s[0]] + inserted(s.drop_first(), k, v)
    }
}

/// `s` without the entry of `k`.
pub open spec fn removed(s: Seq<EntryView>, k: Seq<char>) -> Seq<EntryView>
    decreases s.len(),
{
    if s.len() == 0 {
        s
    } else if s[0].0 == k {
        s.drop_first()
    } else {
        seq![s[0]] + removed(s.drop_first(), k)
    }
}

/// Whether two tables hold the same keys, in the same order, with equal
/// values (as `toml` compares values).
pub open spec fn same_entries(a: Seq<EntryView>, b: Seq<EntryView>) -> bool {
    &&& a.len() == b.len()
    &&& forall|i: int| #![trigger a[i]] 0 <= i < a.len() ==> a[i].0 == b[i].0
        && toml_values_equal(a[i].1, b[i].1)
}

/// A table of TOML values by key, in ascending key order.
#[derive(Debug)]
pub struct ExtraTable {
    entries: Vec<(String, TomlValue)>,
}

impl View for ExtraTable {
    type V = Seq<EntryView>;

    closed spec fn view(&self) -> Seq<EntryView> {
        self.entries@.map_values(|e: (String, TomlValue)| (e.0@, e.1@))
    }
}

proof fn lemma_lookup_index(s: Seq<EntryView>, k: Seq<char>, i: int)
    requires
        sorted(s),
        0 <= i < s.len(),
        s[i].0 == k,
    ensures
        lookup(s, k) == Some(s[i].1),
    decreases s.len(),
{
    if i > 0 {
        assert(seq_lt(s[0].0, s[i].0));
        lemma_seq_lt_irreflexive(k);
        let t = s.drop_first();
        assert(sorted(t)) by {
            assert forall|a: int, b: int| 0 <= a < b < t.len() implies seq_lt(
                #[trigger] t[a].0,
                #[trigger] t[b].0,
            ) by {
                assert(t[a] == s[a + 1] && t[b] == s[b + 1]);
            }
        }
        lemma_lookup_index(t, k, i - 1);
    }
}

/// The value of the first entry of `k` is what `lookup` gives.
pub proof fn lemma_lookup_first(s: Seq<EntryView>, k: Seq<char>, i: int)
    requires
        0 <= i < s.len(),
        s[i].0 == k,
        forall|j: int| 0 <= j < i ==> #[trigger] s[j].0 != k,
    ensures
        lookup(s, k) == Some(s[i].1),
    decreases s.len(),
{
    if i > 0 {
        let t = s.drop_first();
        assert forall|j: int| 0 <= j < i - 1 implies #[trigger] t[j].0 != k by {
            assert(t[j] == s[j + 1]);
        }
        assert(s[0].0 != k);
        lemma_lookup_first(t, k, i - 1);
    }
}

/// `lookup` finds nothing for a key that no entry has.
pub proof fn lemma_lookup_absent(s: Seq<EntryView>, k: Seq<char>)
    requires
        forall|i: int| 0 <= i < s.len() ==> #[trigger] s[i].0 != k,
    ensures
        lookup(s, k) is None,
    decreases s.len(),
{
    if s.len() > 0 {
        let t = s.drop_first();
        assert forall|i: int| 0 <= i < t.len() implies #[trigger] t[i].0 != k by {
            assert(t[i] == s[i + 1]);
        }
        lemma_lookup_absent(t, k);
    }
}

proof fn lemma_sorted_drop_first(s: Seq<EntryView>)
    requires
        sorted(s),
        s.len() > 0,
    ensures
        sorted(s.drop_first()),
{
    let t = s.drop_first();
    assert forall|a: int, b: int| 0 <= a < b < t.len() implies seq_lt(
        #[trigger] t[a].0,
        #[trigger] t[b].0,
    ) by {
        assert(t[a] == s[a + 1] && t[b] == s[b + 1]);
    }
}

proof fn lemma_inserted_at(s: Seq<EntryView>, k: Seq<char>, v: TomlValueView, i: int)
    requires
        sorted(s),
        0 <= i <= s.len(),
        forall|j: int| 0 <= j < i ==> seq_lt(#[trigger] s[j].0, k),
        i == s.len() || !seq_lt(s[i].0, k),
    ensures
        inserted(s, k, v) == (if i < s.len() && s[i].0 == k {
            s.update(i, (k, v))
        } else {
            s.insert(i, (k, v))
        }),
    decreases s.len(),
{
    if s.len() == 0 {
        assert(s.insert(0, (k, v)) =~= seq![(k, v)]);
    } else if i == 0 {
        lemma_seq_lt_total(s[0].0, k);
        if s[0].0 == k {
            assert(s.update(0, (k, v)) =~= seq![(k, v)] + s.drop_first());
        } else {
            assert(seq_lt(k, s[0].0));
            assert(s.insert(0, (k, v)) =~= seq![(k, v)] + s);
        }
    } else {
        assert(seq_lt(s[0].0, k));
        lemma_seq_lt_irreflexive(k);
        lemma_seq_lt_total(s[0].0, k);
        assert(s[0].0 != k);
        assert(!seq_lt(k, s[0].0));
        let t = s.drop_first();
        lemma_sorted_drop_first(s);
        assert forall|j: int| 0 <= j < i - 1 implies seq_lt(#[trigger] t[j].0, k) by {
            assert(t[j] == s[j + 1]);
        }
        if i < s.len() {
            assert(t[i - 1] == s[i]);
        }
        lemma_inserted_at(t, k, v, i - 1);
        if i < s.len() && s[i].0 == k {
            assert(seq![s[0]] + t.update(i - 1, (k, v)) =~= s.update(i, (k, v)));
        } else {
            assert(seq![s[0]] + t.insert(i - 1, (k, v)) =~= s.insert(i, (k, v)));
        }
    }
}

proof fn lemma_removed_at(s: Seq<EntryView>, k: Seq<char>, i: int)
    requires
        sorted(s),
        0 <= i < s.len(),
        s[i].0 == k,
    ensures
        removed(s, k) == s.remove(i),
    decreases s.len(),
{
    if i == 0 {
        assert(s.remove(0) =~= s.drop_first());
    } else {
        assert(seq_lt(s[0].0, s[i].0));
        lemma_seq_lt_irreflexive(k);
        let t = s.drop_first();
        lemma_sorted_drop_first(s);
        assert(t[i - 1] == s[i]);
        lemma_removed_at(t, k, i - 1);
        assert(seq![s[0]] + t.remove(i - 1) =~= s.remove(i));
    }
}

proof fn lemma_removed_absent(s: Seq<EntryView>, k: Seq<char>)
    requires
        forall|i: int| 0 <= i < s.len() ==> #[trigger] s[i].0 != k,
    ensures
        removed(s, k) == s,
    decreases s.len(),
{
    if s.len() > 0 {
        let t = s.drop_first();
        assert forall|i: int| 0 <= i < t.len() implies #[trigger] t[i].0 != k by {
            assert(t[i] == s[i + 1]);
        }
        lemma_removed_absent(t, k);
        assert(seq![s[0]] + t =~= s);
    }
}

/// What setting a key gives back: after `k` is set to `v`, `k` holds `v`
/// and every other key holds what it held.
pub proof fn lemma_lookup_inserted(s: Seq<EntryView>, k: Seq<char>, v: TomlValueView, k2: Seq<char>)
    ensures
        lookup(inserted(s, k, v), k2) == (if k2 == k {
            Some(v)
        } else {
            lookup(s, k2)
        }),
    decreases s.len(),
{
    if s.len() == 0 {
        let r = inserted(s, k, v);
        assert(r.drop_first() =~= Seq::<EntryView>::empty());
    } else if s[0].0 == k {
        let r = inserted(s, k, v);
        assert(r.drop_first() =~= s.drop_first());
    } else if seq_lt(k, s[0].0) {
        let r = inserted(s, k, v);
        assert(r.drop_first() =~= s);
    } else {
        let t = s.drop_first();
        let r = inserted(s, k, v);
        assert(r.drop_first() =~= inserted(t, k, v));
        lemma_lookup_inserted(t, k, v, k2);
    }
}

/// What removing a key gives back: after `k` is removed, `k` holds
/// nothing and every other key holds what it held.
pub proof fn lemma_lookup_removed(s: Seq<EntryView>, k: Seq<char>, k2: Seq<char>)
    requires
        sorted(s),
    ensures
        lookup(removed(s, k), k2) == (if k2 == k {
            None
        } else {
            lookup(s, k2)
        }),
    decreases s.len(),
{
    if s.len() > 0 {
        let t = s.drop_first();
        lemma_sorted_drop_first(s);
        if s[0].0 == k {
            if k2 == k {
                assert forall|i: int| 0 <= i < t.len() implies #[trigger] t[i].0 != k by {
                    assert(t[i] == s[i + 1]);
                    assert(seq_lt(s[0].0, s[i + 1].0));
                    lemma_seq_lt_irreflexive(k);
                }
                lemma_lookup_absent(t, k);
            }
        } else {
            let r = removed(s, k);
            assert(r.drop_first() =~= removed(t, k));
            lemma_lookup_removed(t, k, k2);
        }
    }
}

/// Setting a key that comes after every key of the table appends it.
pub proof fn lemma_inserted_last(u: Seq<EntryView>, k: Seq<char>, v: TomlValueView)
    requires
        forall|i: int| 0 <= i < u.len() ==> seq_lt(#[trigger] u[i].0, k),
    ensures
        inserted(u, k, v) == u.push((k, v)),
    decreases u.len(),
{
    if u.len() > 0 {
        lemma_seq_lt_irreflexive(k);
        lemma_seq_lt_total(u[0].0, k);
        let t = u.drop_first();
        assert forall|i: int| 0 <= i < t.len() implies seq_lt(#[trigger] t[i].0, k) by {
            assert(t[i] == u[i + 1]);
        }
        lemma_inserted_last(t, k, v);
        assert(seq![u[0]] + t.push((k, v)) =~= u.push((k, v)));
    } else {
        assert(seq![(k, v)] =~= u.push((k, v)));
    }
}

proof fn lemma_inserted_lower_bound(s: Seq<EntryView>, k: Seq<char>, v: TomlValueView, b: Seq<char>)
    requires
        seq_lt(b, k),
        forall|i: int| 0 <= i < s.len() ==> seq_lt(b, #[trigger] s[i].0),
    ensures
        forall|i: int| 0 <= i < inserted(s, k, v).len() ==> seq_lt(b, #[trigger] inserted(s, k, v)[i].0),
    decreases s.len(),
{
    let r = inserted(s, k, v);
    if s.len() == 0 {
    } else if s[0].0 == k {
        assert forall|i: int| 0 <= i < r.len() implies seq_lt(b, #[trigger] r[i].0) by {
            if i > 0 {
                assert(r[i] == s[i]);
            }
        }
    } else if seq_lt(k, s[0].0) {
        assert forall|i: int| 0 <= i < r.len() implies seq_lt(b, #[trigger] r[i].0) by {
            if i > 0 {
                assert(r[i] == s[i - 1]);
            }
        }
    } else {
        let t = s.drop_first();
        assert forall|i: int| 0 <= i < t.len() implies seq_lt(b, #[trigger] t[i].0) by {
            assert(t[i] == s[i + 1]);
        }
        lemma_inserted_lower_bound(t, k, v, b);
        assert forall|i: int| 0 <= i < r.len() implies seq_lt(b, #[trigger] r[i].0) by {
            if i > 0 {
                assert(r[i] == inserted(t, k, v)[i - 1]);
            }
        }
    }
}

/// Setting a key keeps the keys of a table in ascending order.
pub proof fn lemma_inserted_sorted(s: Seq<EntryView>, k: Seq<char>, v: TomlValueView)
    requires
        sorted(s),
    ensures
        sorted(inserted(s, k, v)),
    decreases s.len(),
{
    let r = inserted(s, k, v);
    if s.len() == 0 {
    } else if s[0].0 == k {
        assert forall|a: int, b: int| 0 <= a < b < r.len() implies seq_lt(
            #[trigger] r[a].0,
            #[trigger] r[b].0,
        ) by {
            assert(r[b] == s[b]);
            if a > 0 {
                assert(r[a] == s[a]);
            }
        }
    } else if seq_lt(k, s[0].0) {
        assert forall|a: int, b: int| 0 <= a < b < r.len() implies seq_lt(
            #[trigger] r[a].0,
            #[trigger] r[b].0,
        ) by {
            assert(r[b] == s[b - 1]);
            if a > 0 {
                assert(r[a] == s[a - 1]);
            } else if b > 1 {
                assert(seq_lt(s[0].0, s[b - 1].0));
                lemma_seq_lt_transitive(k, s[0].0, s[b - 1].0);
            }
        }
    } else {
        let t = s.drop_first();
        lemma_sorted_drop_first(s);
        lemma_inserted_sorted(t, k, v);
        lemma_seq_lt_total(s[0].0, k);
        assert forall|i: int| 0 <= i < t.len() implies seq_lt(s[0].0, #[trigger] t[i].0) by {
            assert(t[i] == s[i + 1]);
        }
        lemma_inserted_lower_bound(t, k, v, s[0].0);
        let it = inserted(t, k, v);
        assert forall|a: int, b: int| 0 <= a < b < r.len() implies seq_lt(
            #[trigger] r[a].0,
            #[trigger] r[b].0,
        ) by {
            assert(r[b] == it[b - 1]);
            if a > 0 {
                assert(r[a] == it[a - 1]);
            }
        }
    }
}

/// Removing a key keeps the keys of a table in ascending order.
pub proof fn lemma_removed_sorted(s: Seq<EntryView>, k: Seq<char>)
    requires
        sorted(s),
    ensures
        sorted(removed(s, k)),
    decreases s.len(),
{
    let r = removed(s, k);
    if s.len() > 0 {
        let t = s.drop_first();
        lemma_sorted_drop_first(s);
        if s[0].0 != k {
            lemma_removed_sorted(t, k);
            lemma_removed_subset(t, k);
            let rt = removed(t, k);
            assert forall|a: int, b: int| 0 <= a < b < r.len() implies seq_lt(
                #[trigger] r[a].0,
                #[trigger] r[b].0,
            ) by {
                assert(r[b] == rt[b - 1]);
                if a > 0 {
                    assert(r[a] == rt[a - 1]);
                } else {
                    let j = choose|j: int| 0 <= j < t.len() && t[j] == rt[b - 1];
                    assert(t[j] == s[j + 1]);
                }
            }
        }
    }
}

proof fn lemma_removed_subset(s: Seq<EntryView>, k: Seq<char>)
    ensures
        forall|i: int| 0 <= i < removed(s, k).len() ==> exists|j: int| 0 <= j < s.len() && s[j]
            == #[trigger] removed(s, k)[i],
    decreases s.len(),
{
    if s.len() > 0 {
        let t = s.drop_first();
        lemma_removed_subset(t, k);
        let r = removed(s, k);
        assert forall|i: int| 0 <= i < r.len() implies exists|j: int| 0 <= j < s.len() && s[j]
            == #[trigger] r[i] by {
            if s[0].0 == k {
                assert(r[i] == s[i + 1]);
            } else if i == 0 {
                assert(s[0] == r[0]);
            } else {
                let rt = removed(t, k);
                assert(r[i] == rt[i - 1]);
                let j = choose|j: int| 0 <= j < t.len() && t[j] == rt[i - 1];
                assert(s[j + 1] == t[j]);
            }
        }
    }
}

impl Clone for ExtraTable {
    fn clone(&self) -> (r: Self)
        ensures
            r@ == self@,
            self.wf() ==> r.wf(),
    {
        let mut entries: Vec<(String, TomlValue)> = Vec::new();
        let mut i: usize = 0;
        while i < self.entries.len()
            invariant
                i <= self.entries@.len(),
                entries@.len() == i,
                forall|j: int| 0 <= j < i ==> (#[trigger] entries@[j]).0@ == self.entries@[j].0@
                    && entries@[j].1@ == self.entries@[j].1@,
            decreases self.entries@.len() - i,
        {
            let e = &self.entries[i];
            entries.push((e.0.clone(), e.1.clone()));
            i = i + 1;
        }
        let r = ExtraTable { entries };
        assert(r@ =~= self@);
        r
    }
}

impl ExtraTable {
    /// The table's invariant: its keys ascend strictly, so that each key
    /// occurs once.
    pub open spec fn wf(&self) -> bool {
        sorted(self@)
    }

    /// An empty table.
    pub fn new() -> (t: ExtraTable)
        ensures
            t@ == Seq::<EntryView>::empty(),
            t.wf(),
    {
        let t = ExtraTable { entries: Vec::new() };
        assert(t@ =~= Seq::<EntryView>::empty());
        t
    }

    /// The entries, in key order.
    pub(crate) fn entries(&self) -> (r: &Vec<(String, TomlValue)>)
        ensures
            crate::toml_value::entries_view(r@) == self@,
    {
        let r = &self.entries;
        assert(crate::toml_value::entries_view(r@) =~= self@);
        r
    }

    /// The number of entries.
    pub fn len(&self) -> (n: usize)
        ensures
            n == self@.len(),
    {
        self.entries.len()
    }

    /// Whether the table has no entries.
    pub fn is_empty(&self) -> (r: bool)
        ensures
            r == (self@.len() == 0),
    {
        self.entries.len() == 0
    }

    /// The key of the `i`-th entry.
    pub fn key_at(&self, i: usize) -> (k: &String)
        requires
            i < self@.len(),
        ensures
            k@ == self@[i as int].0,
    {
        &self.entries[i].0
    }

    /// The value of the `i`-th entry.
    pub fn value_at(&self, i: usize) -> (v: &TomlValue)
        requires
            i < self@.len(),
        ensures
            v@ == self@[i as int].1,
    {
        &self.entries[i].1
    }

    /// The index of the entry of `key`, if there is one, or else the number
    /// of keys before `key`.
    fn position(&self, key: &Vec<char>) -> (r: (usize, bool))
        requires
            self.wf(),
        ensures
            r.0 <= self@.len(),
            forall|j: int| 0 <= j < r.0 ==> seq_lt(#[trigger] self@[j].0, key@),
            r.0 == self@.len() || !seq_lt(self@[r.0 as int].0, key@),
            r.1 == (r.0 < self@.len() && self@[r.0 as int].0 == key@),
    {
        let n = self.entries.len();
        let mut i: usize = 0;
        while i < n
            invariant
                n == self@.len(),
                i <= n,
                forall|j: int| 0 <= j < i ==> seq_lt(#[trigger] self@[j].0, key@),
            decreases n - i,
        {
            let k = chars_of(self.entries[i].0.as_str());
            assert(k@ == self@[i as int].0);
            if !chars_lt(&k, key) {
                let same = chars_eq(&k, key);
                return (i, same);
            }
            i = i + 1;
        }
        (i, false)
    }

    /// The value under `key`.
    pub fn get(&self, key: &str) -> (r: Option<&TomlValue>)
        requires
            self.wf(),
        ensures
            r matches Some(v) ==> lookup(self@, key@) == Some(v@),
            r is None ==> lookup(self@, key@) is None,
    {
        let k = chars_of(key);
        let (i, found) = self.position(&k);
        if found {
            proof {
                lemma_lookup_index(self@, key@, i as int);
            }
            Some(&self.entries[i].1)
        } else {
            proof {
                assert forall|j: int| 0 <= j < self@.len() implies #[trigger] self@[j].0 != key@ by {
                    lemma_seq_lt_irreflexive(key@);
                    if j > i {
                        lemma_seq_lt_total(self@[i as int].0, key@);
                        if self@[j].0 == key@ {
                            assert(seq_lt(self@[i as int].0, self@[j].0));
                        }
                    }
                }
                lemma_lookup_absent(self@, key@);
            }
            None
        }
    }

    /// Sets `key` to `value`.
    pub fn insert(&mut self, key: String, value: TomlValue)
        requires
            old(self).wf(),
        ensures
            final(self).wf(),
            final(self)@ == inserted(old(self)@, key@, value@),
            forall|k: Seq<char>|
                #[trigger] lookup(final(self)@, k) == (if k == key@ {
                    Some(value@)
                } else {
                    lookup(old(self)@, k)
                }),
    {
        let ghost s = self@;
        let ghost kv = key@;
        let ghost vv = value@;
        self.insert_entry(key, value);
        proof {
            assert forall|k: Seq<char>| #[trigger] lookup(self@, k) == (if k == kv {
                Some(vv)
            } else {
                lookup(s, k)
            }) by {
                lemma_lookup_inserted(s, kv, vv, k);
            }
        }
    }

    fn insert_entry(&mut self, key: String, value: TomlValue)
        requires
            old(self).wf(),
        ensures
            final(self).wf(),
            final(self)@ == inserted(old(self)@, key@, value@),
    {
        let k = chars_of(key.as_str());
        let (i, found) = self.position(&k);
        let ghost s = self@;
        let ghost kv = (key@, value@);
        proof {
            lemma_inserted_at(s, key@, value@, i as int);
        }
        if found {
            self.entries.set(i, (key, value));
            assert(self@ =~= s.update(i as int, kv));
            assert(sorted(self@)) by {
                assert forall|a: int, b: int| 0 <= a < b < self@.len() implies seq_lt(
                    #[trigger] self@[a].0,
                    #[trigger] self@[b].0,
                ) by {
                    assert(seq_lt(s[a].0, s[b].0));
                }
            }
        } else {
            self.entries.insert(i, (key, value));
            assert(self@ =~= s.insert(i as int, kv));
            assert(sorted(self@)) by {
                let t = self@;
                assert forall|a: int, b: int| 0 <= a < b < t.len() implies seq_lt(
                    #[trigger] t[a].0,
                    #[trigger] t[b].0,
                ) by {
                    if b < i {
                        assert(t[a] == s[a] && t[b] == s[b]);
                    } else if b == i {
                        assert(t[a] == s[a]);
                    } else if a < i {
                        assert(t[a] == s[a] && t[b] == s[b - 1]);
                        assert(seq_lt(s[a].0, kv.0));
                        assert(!seq_lt(s[i as int].0, kv.0));
                        lemma_seq_lt_total(s[i as int].0, kv.0);
                        assert(seq_lt(kv.0, s[i as int].0));
                        if b - 1 > i {
                            assert(seq_lt(s[i as int].0, s[b - 1].0));
                            lemma_seq_lt_transitive(kv.0, s[i as int].0, s[b - 1].0);
                        }
                        lemma_seq_lt_transitive(s[a].0, kv.0, s[b - 1].0);
                    } else if a == i {
                        assert(t[b] == s[b - 1]);
                        lemma_seq_lt_total(s[i as int].0, kv.0);
                        if b - 1 > i {
                            assert(seq_lt(s[i as int].0, s[b - 1].0));
                            lemma_seq_lt_transitive(kv.0, s[i as int].0, s[b - 1].0);
                        }
                    } else {
                        assert(t[a] == s[a - 1] && t[b] == s[b - 1]);
                    }
                }
            }
        }
    }

    /// Removes the entry of `key`, and says whether there was one; `key` is
    /// then absent and every other key keeps its value.
    pub fn remove(&mut self, key: &str) -> (r: bool)
        requires
            old(self).wf(),
        ensures
            final(self).wf(),
            final(self)@ == removed(old(self)@, key@),
            r == (lookup(old(self)@, key@) is Some),
            !r ==> final(self)@ == old(self)@,
            forall|k: Seq<char>|
                #[trigger] lookup(final(self)@, k) == (if k == key@ {
                    None
                } else {
                    lookup(old(self)@, k)
                }),
    {
        let ghost s = self@;
        let r = self.remove_entry(key);
        proof {
            assert forall|k: Seq<char>| #[trigger] lookup(self@, k) == (if k == key@ {
                None
            } else {
                lookup(s, k)
            }) by {
                lemma_lookup_removed(s, key@, k);
            }
        }
        r
    }

    fn remove_entry(&mut self, key: &str) -> (r: bool)
        requires
            old(self).wf(),
        ensures
            final(self).wf(),
            final(self)@ == removed(old(self)@, key@),
            r == (lookup(old(self)@, key@) is Some),
            !r ==> final(self)@ == old(self)@,
    {
        let k = chars_of(key);
        let (i, found) = self.position(&k);
        let ghost s = self@;
        if found {
            proof {
                lemma_removed_at(s, key@, i as int);
                lemma_lookup_index(s, key@, i as int);
            }
            self.entries.remove(i);
            assert(self@ =~= s.remove(i as int));
            assert(sorted(self@)) by {
                let t = self@;
                assert forall|a: int, b: int| 0 <= a < b < t.len() implies seq_lt(
                    #[trigger] t[a].0,
                    #[trigger] t[b].0,
                ) by {
                    if b < i {
                        assert(t[a] == s[a] && t[b] == s[b]);
                    } else if a < i {
                        assert(t[a] == s[a] && t[b] == s[b + 1]);
                    } else {
                        assert(t[a] == s[a + 1] && t[b] == s[b + 1]);
                    }
                }
            }
            true
        } else {
            proof {
                assert forall|j: int| 0 <= j < s.len() implies #[trigger] s[j].0 != key@ by {
                    lemma_seq_lt_irreflexive(key@);
                    if j > i {
                        lemma_seq_lt_total(s[i as int].0, key@);
                        if s[j].0 == key@ {
                            assert(seq_lt(s[i as int].0, s[j].0));
                        }
                    }
                }
                lemma_removed_absent(s, key@);
                lemma_lookup_absent(s, key@);
            }
            false
        }
    }

    /// Removes every entry.
    pub fn clear(&mut self)
        ensures
            final(self).wf(),
            final(self)@ == Seq::<EntryView>::empty(),
    {
        self.entries.clear();
        assert(self@ =~= Seq::<EntryView>::empty());
    }

    /// Whether `self` and `other` hold the same keys with equal values, as
    /// `toml` compares tables.
    pub fn same_as(&self, other: &ExtraTable) -> (r: bool)
        ensures
            r == same_entries(self@, other@),
    {
        let n = self.entries.len();
        if n != other.entries.len() {
            return false;
        }
        let mut i: usize = 0;
        while i < n
            invariant
                n == self@.len() == other@.len(),
                i <= n,
                forall|j: int|
                    #![trigger self@[j]]
                    0 <= j < i ==> self@[j].0 == other@[j].0 && toml_values_equal(self@[j].1, other@[j].1),
            decreases n - i,
        {
            let a = &self.entries[i];
            let b = &other.entries[i];
            assert(self@[i as int] == (a.0@, a.1@));
            assert(other@[i as int] == (b.0@, b.1@));
            let same_key = a.0 == b.0;
            let same_value = a.1.same_as(&b.1);
            assert(same_key == (a.0@ == b.0@));
            if !same_key || !same_value {
                assert(!(self@[i as int].0 == other@[i as int].0 && toml_values_equal(
                    self@[i as int].1, other@[i as int].1)));
                assert(!same_entries(self@, other@)) by {
                    let ii = i as int;
                    if same_entries(self@, other@) {
                        assert(0 <= ii < self@.len());
                        assert(self@[ii].0 == other@[ii].0 && toml_values_equal(self@[ii].1, other@[ii].1));
                    }
                }
                return false;
            }
            assert(self@[i as int].0 == other@[i as int].0);
            assert(toml_values_equal(self@[i as int].1, other@[i as int].1));
            i = i + 1;
        }
        true
    }
}

} // verus!
