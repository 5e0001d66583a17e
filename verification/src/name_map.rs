//! Values under names.

use crate::copy::{no_items, push_item};
use crate::text::same_text;
use vstd::prelude::*;

verus! {

/// A value and its name.
#[derive(Debug)]
pub struct Entry<T> {
    pub name: String,
    pub value: T,
}

/// Values under names, each name once.
#[derive(Debug)]
pub struct NameMap<T> {
    pub entries: Vec<Entry<T>>,
}

/// The map that a list of entries stands for; of entries with one name the last counts.
pub open spec fn entries_map<T: DeepView>(entries: Seq<Entry<T>>) -> Map<Seq<char>, T::V>
    decreases entries.len(),
{
    if entries.len() == 0 {
        Map::empty()
    } else {
        let n = entries.len() - 1;
        entries_map(entries.subrange(0, n)).insert(entries[n].name@, entries[n].value.deep_view())
    }
}

impl<T: DeepView> View for NameMap<T> {
    type V = Map<Seq<char>, T::V>;

    open spec fn view(&self) -> Map<Seq<char>, T::V> {
        entries_map(self.entries@)
    }
}

impl<T: DeepView> DeepView for NameMap<T> {
    type V = Map<Seq<char>, T::V>;

    open spec fn deep_view(&self) -> Map<Seq<char>, T::V> {
        self@
    }
}

/// No later entry has the same name.
pub open spec fn is_last_entry<T>(entries: Seq<Entry<T>>, i: int) -> bool {
    forall|j: int| i < j < entries.len() ==> (#[trigger] entries[j]).name@ != entries[i].name@
}

/// An entry whose name does not come again is what the map holds under that name.
pub proof fn lemma_entry_last<T: DeepView>(entries: Seq<Entry<T>>, i: int)
    requires
        0 <= i < entries.len(),
        is_last_entry(entries, i),
    ensures
        entries_map(entries).dom().contains(entries[i].name@),
        entries_map(entries)[entries[i].name@] == entries[i].value.deep_view(),
    decreases entries.len(),
{
    let n = entries.len() - 1;
    if i < n {
        let front = entries.subrange(0, n);
        assert forall|j: int| i < j < front.len() implies (#[trigger] front[j]).name@
            != front[i].name@ by {
            assert(front[j] == entries[j]);
        }
        lemma_entry_last(front, i);
        assert(entries[n].name@ != entries[i].name@);
    }
}

/// Among the entries under a name of the map, one is the last.
pub proof fn lemma_entry_final<T: DeepView>(entries: Seq<Entry<T>>, name: Seq<char>)
    requires
        entries_map(entries).dom().contains(name),
    ensures
        exists|i: int|
            0 <= i < entries.len() && #[trigger] is_last_entry(entries, i) && entries[i].name@
                == name,
    decreases entries.len(),
{
    let n = entries.len() - 1;
    if entries[n].name@ != name {
        let front = entries.subrange(0, n);
        lemma_entry_final(front, name);
        let i = choose|i: int|
            0 <= i < front.len() && #[trigger] is_last_entry(front, i) && front[i].name@ == name;
        assert forall|j: int| i < j < entries.len() implies (#[trigger] entries[j]).name@
            != entries[i].name@ by {
            if j < n {
                assert(front[j] == entries[j]);
            }
        }
        assert(is_last_entry(entries, i));
    } else {
        assert(is_last_entry(entries, n));
    }
}

/// A name that no entry has is not in the map.
proof fn lemma_entry_absent<T: DeepView>(entries: Seq<Entry<T>>, name: Seq<char>)
    requires
        forall|j: int| 0 <= j < entries.len() ==> (#[trigger] entries[j]).name@ != name,
    ensures
        !entries_map(entries).dom().contains(name),
    decreases entries.len(),
{
    if entries.len() > 0 {
        let front = entries.subrange(0, entries.len() - 1);
        assert forall|j: int| 0 <= j < front.len() implies (#[trigger] front[j]).name@ != name by {
            assert(front[j] == entries[j]);
        }
        lemma_entry_absent(front, name);
        assert(entries[entries.len() - 1].name@ != name);
    }
}

/// Adding an entry at the end is an insertion into the map.
pub proof fn lemma_entry_push<T: DeepView>(entries: Seq<Entry<T>>, entry: Entry<T>)
    ensures
        entries_map(entries.push(entry)) == entries_map(entries).insert(
            entry.name@,
            entry.value.deep_view(),
        ),
{
    let all = entries.push(entry);
    assert(all.subrange(0, all.len() - 1) =~= entries);
}

/// Replacing the last entry under a name is an insertion into the map.
proof fn lemma_entry_update<T: DeepView>(entries: Seq<Entry<T>>, i: int, entry: Entry<T>)
    requires
        0 <= i < entries.len(),
        entry.name@ == entries[i].name@,
        is_last_entry(entries, i),
    ensures
        entries_map(entries.update(i, entry)) == entries_map(entries).insert(
            entry.name@,
            entry.value.deep_view(),
        ),
    decreases entries.len(),
{
    let n = entries.len() - 1;
    let front = entries.subrange(0, n);
    let changed = entries.update(i, entry);
    let expected = entries_map(entries).insert(entry.name@, entry.value.deep_view());
    if i == n {
        assert(changed.subrange(0, n) =~= front);
        assert(entries_map(changed) =~= expected);
    } else {
        assert forall|j: int| i < j < front.len() implies (#[trigger] front[j]).name@
            != front[i].name@ by {
            assert(front[j] == entries[j]);
        }
        lemma_entry_update(front, i, entry);
        assert(changed.subrange(0, n) =~= front.update(i, entry));
        assert(entries[n].name@ != entries[i].name@);
        assert(entries_map(changed) =~= expected);
    }
}

impl<T: DeepView> NameMap<T> {
    /// No values.
    pub fn new() -> (r: NameMap<T>)
        ensures
            r@ == Map::<Seq<char>, T::V>::empty(),
    {
        let r: NameMap<T> = NameMap { entries: Vec::new() };
        assert(r@ =~= Map::<Seq<char>, T::V>::empty());
        r
    }

    /// The position of the entry under a name.
    pub fn position(&self, name: &str) -> (r: Option<usize>)
        ensures
            r matches Some(i) ==> {
                &&& i < self.entries@.len()
                &&& self.entries@[i as int].name@ == name@
                &&& is_last_entry(self.entries@, i as int)
                &&& self@.dom().contains(name@)
                &&& self@[name@] == self.entries@[i as int].value.deep_view()
            },
            r is None ==> !self@.dom().contains(name@),
    {
        let mut i: usize = self.entries.len();
        while i > 0
            invariant
                i <= self.entries@.len(),
                forall|j: int|
                    i <= j < self.entries@.len() ==> (#[trigger] self.entries@[j]).name@ != name@,
            decreases i,
        {
            if same_text(self.entries[i - 1].name.as_str(), name) {
                proof {
                    lemma_entry_last(self.entries@, i - 1);
                }
                return Some(i - 1);
            }
            i -= 1;
        }
        proof {
            lemma_entry_absent(self.entries@, name@);
        }
        None
    }

    /// The value under a name.
    pub fn get(&self, name: &str) -> (r: Option<&T>)
        ensures
            r matches Some(v) ==> self@.dom().contains(name@) && self@[name@] == v.deep_view(),
            r is None ==> !self@.dom().contains(name@),
    {
        match self.position(name) {
            Some(i) => Some(&self.entries[i].value),
            None => None,
        }
    }

    /// Whether there is a value under a name.
    pub fn contains(&self, name: &str) -> (r: bool)
        ensures
            r == self@.dom().contains(name@),
    {
        self.position(name).is_some()
    }

    /// Sets the value under a name.
    pub fn insert(&mut self, name: &str, value: T)
        ensures
            final(self)@ == old(self)@.insert(name@, value.deep_view()),
    {
        let entry: Entry<T> = Entry { name: name.to_owned(), value };
        match self.position(name) {
            Some(i) => {
                proof {
                    lemma_entry_update(self.entries@, i as int, entry);
                }
                self.entries[i] = entry;
            },
            None => {
                proof {
                    lemma_entry_push(self.entries@, entry);
                }
                self.entries.push(entry);
            },
        }
    }

    /// Whether there are no values.
    pub fn is_empty(&self) -> (r: bool)
        ensures
            r == (self@ == Map::<Seq<char>, T::V>::empty()),
    {
        if self.entries.len() == 0 {
            assert(self@ =~= Map::<Seq<char>, T::V>::empty());
            true
        } else {
            proof {
                lemma_entry_last(self.entries@, self.entries@.len() - 1);
            }
            assert(self@.dom().contains(self.entries@[self.entries@.len() - 1].name@));
            false
        }
    }

    /// The names, each once.
    pub fn names(&self) -> (r: Vec<String>)
        ensures
            r.deep_view().no_duplicates(),
            forall|name: Seq<char>| #[trigger]
                r.deep_view().contains(name) <==> self@.dom().contains(name),
    {
        let ghost all = self.entries@;
        let mut out: Vec<String> = no_items();
        let mut i: usize = 0;
        while i < self.entries.len()
            invariant
                all == self.entries@,
                i <= all.len(),
                out.deep_view() == last_names(all, i as nat),
            decreases all.len() - i,
        {
            let last: bool = match self.position(self.entries[i].name.as_str()) {
                Some(j) => j == i,
                None => false,
            };
            assert(last == is_last_entry(all, i as int)) by {
                if is_last_entry(all, i as int) {
                    lemma_entry_last(all, i as int);
                }
            }
            if last {
                push_item(&mut out, self.entries[i].name.clone());
            }
            i += 1;
        }
        proof {
            lemma_last_names(all, all.len());
            assert forall|name: Seq<char>| #[trigger]
                out.deep_view().contains(name) <==> self@.dom().contains(name) by {
                if out.deep_view().contains(name) {
                    let j = choose|j: int|
                        0 <= j < all.len() && #[trigger] is_last_entry(all, j) && all[j].name@
                            == name;
                    lemma_entry_last(all, j);
                }
                if self@.dom().contains(name) {
                    lemma_entry_final(all, name);
                }
            }
        }
        out
    }
}

/// The names of those of the first `n` entries that count.
spec fn last_names<T>(entries: Seq<Entry<T>>, n: nat) -> Seq<Seq<char>>
    decreases n,
{
    if n == 0 {
        Seq::empty()
    } else if is_last_entry(entries, n - 1) {
        last_names(entries, (n - 1) as nat).push(entries[n - 1].name@)
    } else {
        last_names(entries, (n - 1) as nat)
    }
}

/// The names of entries that count come once each.
proof fn lemma_last_names<T>(entries: Seq<Entry<T>>, n: nat)
    requires
        n <= entries.len(),
    ensures
        last_names(entries, n).no_duplicates(),
        forall|name: Seq<char>| #[trigger]
            last_names(entries, n).contains(name) <==> exists|j: int|
                0 <= j < n && #[trigger] is_last_entry(entries, j) && entries[j].name@ == name,
    decreases n,
{
    if n > 0 {
        let before = last_names(entries, (n - 1) as nat);
        let names = last_names(entries, n);
        lemma_last_names(entries, (n - 1) as nat);
        if is_last_entry(entries, n - 1) {
            let new = entries[n - 1].name@;
            if before.contains(new) {
                let j = choose|j: int|
                    0 <= j < n - 1 && #[trigger] is_last_entry(entries, j) && entries[j].name@
                        == new;
                assert(entries[n - 1].name@ != entries[j].name@);
            }
            assert(names == before.push(new));
            assert(names[before.len() as int] == new);
            assert forall|name: Seq<char>| #[trigger] names.contains(name) <==> exists|j: int|
                0 <= j < n && #[trigger] is_last_entry(entries, j) && entries[j].name@ == name by {
                if names.contains(name) {
                    let k = choose|k: int| 0 <= k < names.len() && names[k] == name;
                    if k < before.len() {
                        assert(before[k] == name);
                        assert(before.contains(name));
                    }
                }
                if exists|j: int|
                    0 <= j < n && #[trigger] is_last_entry(entries, j) && entries[j].name@
                        == name {
                    if name != new {
                        assert(before.contains(name));
                        let k = choose|k: int| 0 <= k < before.len() && before[k] == name;
                        assert(names[k] == name);
                    }
                }
            }
        } else {
            assert forall|name: Seq<char>| #[trigger] names.contains(name) <==> exists|j: int|
                0 <= j < n && #[trigger] is_last_entry(entries, j) && entries[j].name@ == name by {
                assert(names.contains(name) == before.contains(name));
            }
        }
    }
}

} // verus!
