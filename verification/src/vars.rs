//! A table from names to values: the variables of a makefile, the versions of
//! a snapshot.

use crate::text;
use vstd::prelude::*;

verus! {

/// The map that a list of entries stands for: a later entry of a name replaces
/// an earlier one.
pub open spec fn table(entries: Seq<(String, String)>) -> Map<Seq<char>, Seq<char>>
    decreases entries.len(),
{
    if entries.len() == 0 {
        Map::empty()
    } else {
        table(entries.drop_last()).insert(entries.last().0@, entries.last().1@)
    }
}

/// The value of a name in a map of texts.
pub open spec fn lookup(m: Map<Seq<char>, Seq<char>>, k: Seq<char>) -> Option<Seq<char>> {
    if m.dom().contains(k) {
        Some(m[k])
    } else {
        None
    }
}

/// The value of a name, or nothing where it has none.
pub open spec fn value_of(m: Map<Seq<char>, Seq<char>>, k: Seq<char>) -> Seq<char> {
    if m.dom().contains(k) {
        m[k]
    } else {
        Seq::empty()
    }
}

/// Whether no name has two entries.
pub open spec fn distinct(entries: Seq<(String, String)>) -> bool {
    forall|i: int, j: int|
        0 <= i < j < entries.len() ==> (#[trigger] entries[i]).0@ != (#[trigger] entries[j]).0@
}

/// A map from names to values.
#[derive(Debug)]
pub struct VarMap {
    entries: Vec<(String, String)>,
}

impl VarMap {
    /// No name has two entries.
    #[verifier::type_invariant]
    spec fn is_valid(&self) -> bool {
        distinct(self.entries@)
    }
}

impl View for VarMap {
    type V = Map<Seq<char>, Seq<char>>;

    closed spec fn view(&self) -> Map<Seq<char>, Seq<char>> {
        table(self.entries@)
    }
}

/// Entries of other names do not change what a name stands for.
proof fn lemma_table_tail(entries: Seq<(String, String)>, i: int, k: Seq<char>)
    requires
        0 <= i <= entries.len(),
        forall|j: int| i <= j < entries.len() ==> (#[trigger] entries[j]).0@ != k,
    ensures
        lookup(table(entries), k) == lookup(table(entries.take(i)), k),
    decreases entries.len() - i,
{
    if i == entries.len() {
        assert(entries.take(i) =~= entries);
    } else {
        lemma_table_tail(entries, i + 1, k);
        assert(entries.take(i + 1).drop_last() =~= entries.take(i));
        assert(entries.take(i + 1).last() == entries[i]);
    }
}

/// Every name of an entry stands for something.
proof fn lemma_table_names(entries: Seq<(String, String)>)
    ensures
        forall|i: int|
            0 <= i < entries.len() ==> table(entries).dom().contains(
                (#[trigger] entries[i]).0@,
            ),
    decreases entries.len(),
{
    if entries.len() > 0 {
        let front = entries.drop_last();
        lemma_table_names(front);
        assert forall|i: int| 0 <= i < entries.len() implies table(entries).dom().contains(
            (#[trigger] entries[i]).0@,
        ) by {
            if i < front.len() {
                assert(entries[i] == front[i]);
            }
        }
    }
}

/// Replacing the value of a name's last entry replaces its value.
proof fn lemma_table_set(entries: Seq<(String, String)>, i: int, e: (String, String))
    requires
        0 <= i < entries.len(),
        e.0@ == entries[i].0@,
        forall|j: int| i < j < entries.len() ==> (#[trigger] entries[j]).0@ != e.0@,
    ensures
        table(entries.update(i, e)) == table(entries).insert(e.0@, e.1@),
    decreases entries.len(),
{
    let new = entries.update(i, e);
    if i == entries.len() - 1 {
        assert(new.drop_last() =~= entries.drop_last());
        assert(table(new) =~= table(entries).insert(e.0@, e.1@));
    } else {
        let front = entries.drop_last();
        lemma_table_set(front, i, e);
        assert(new.drop_last() =~= front.update(i, e));
        assert(table(new) =~= table(entries).insert(e.0@, e.1@));
    }
}

impl VarMap {
    /// A map without entries.
    pub fn new() -> (r: Self)
        ensures
            r@ == Map::<Seq<char>, Seq<char>>::empty(),
    {
        VarMap { entries: Vec::new() }
    }

    /// The position of a name's entry.
    fn position(&self, key: &str) -> (r: Option<usize>)
        ensures
            match r {
                Some(i) => i < self.entries@.len() && self.entries@[i as int].0@ == key@ && (
                forall|j: int|
                    i < j < self.entries@.len() ==> (#[trigger] self.entries@[j]).0@ != key@)
                    && lookup(self@, key@) == Some(self.entries@[i as int].1@),
                None => lookup(self@, key@) is None,
            },
    {
        let mut i: usize = self.entries.len();
        while i > 0
            invariant
                i <= self.entries@.len(),
                forall|j: int|
                    i <= j < self.entries@.len() ==> (#[trigger] self.entries@[j]).0@ != key@,
            decreases i,
        {
            if text::same(self.entries[i - 1].0.as_str(), key) {
                proof {
                    lemma_table_tail(self.entries@, i as int, key@);
                    assert(self.entries@.take(i as int).last() == self.entries@[i - 1]);
                }
                return Some(i - 1);
            }
            i = i - 1;
        }
        proof {
            lemma_table_tail(self.entries@, 0, key@);
        }
        None
    }

    /// The value of a name.
    pub fn get(&self, key: &str) -> (r: Option<String>)
        ensures
            text::opt_text(r) == lookup(self@, key@),
    {
        match self.position(key) {
            Some(i) => Some(self.entries[i].1.clone()),
            None => None,
        }
    }

    /// The value of a name, or the empty text.
    pub fn get_or_empty(&self, key: &str) -> (r: String)
        ensures
            r@ == value_of(self@, key@),
    {
        match self.get(key) {
            Some(v) => v,
            None => {
                let r = String::new();
                assert(r@ =~= Seq::<char>::empty());
                r
            },
        }
    }

    /// Gives a name a value, in place of the one that it had.
    pub fn insert(&mut self, key: String, value: String)
        ensures
            final(self)@ == old(self)@.insert(key@, value@),
    {
        proof {
            use_type_invariant(&*self);
        }
        let at = self.position(key.as_str());
        let ghost was = self.entries@;
        let mut entries: Vec<(String, String)> = Vec::new();
        std::mem::swap(&mut entries, &mut self.entries);
        match at {
            Some(i) => {
                proof {
                    lemma_table_set(was, i as int, (key, value));
                }
                entries.set(i, (key, value));
            },
            None => {
                proof {
                    lemma_table_names(was);
                    assert(was.push((key, value)).drop_last() =~= was);
                }
                entries.push((key, value));
            },
        }
        self.entries = entries;
    }

    /// Whether no name has a value.
    pub fn is_empty(&self) -> (r: bool)
        ensures
            r == (self@ == Map::<Seq<char>, Seq<char>>::empty()),
    {
        if self.entries.len() > 0 {
            assert(self@.dom().contains(self.entries@.last().0@));
            false
        } else {
            true
        }
    }

    /// The entries, one for each name.
    pub fn entries(&self) -> (r: Vec<(String, String)>)
        ensures
            table(r@) == self@,
            distinct(r@),
    {
        proof {
            use_type_invariant(self);
        }
        let mut out: Vec<(String, String)> = Vec::new();
        for i in 0..self.entries.len()
            invariant
                out@ == self.entries@.take(i as int),
        {
            out.push((self.entries[i].0.clone(), self.entries[i].1.clone()));
        }
        proof {
            assert(self.entries@.take(self.entries@.len() as int) =~= self.entries@);
        }
        out
    }
}

impl Clone for VarMap {
    /// A copy of the map.
    fn clone(&self) -> (r: Self)
        ensures
            r@ == self@,
    {
        VarMap { entries: self.entries() }
    }
}

} // verus!
