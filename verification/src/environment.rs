//! The variable environment: a mutable store from variable name to the last
//! value assigned to it.

use vstd::prelude::*;

verus! {

/// The mapping an entry list denotes: later entries override earlier ones.
pub open spec fn entries_map(entries: Seq<(String, i32)>) -> Map<Seq<char>, i32>
    decreases entries.len(),
{
    if entries.len() == 0 {
        Map::empty()
    } else {
        entries_map(entries.drop_last()).insert(entries.last().0@, entries.last().1)
    }
}

/// The evaluator's name-to-value store, viewed as a mathematical map from
/// the name's characters to the bound value. Re-declaring a name overwrites
/// its value; there is no scoping and no shadowing.
pub struct Environment {
    entries: Vec<(String, i32)>,
}

impl View for Environment {
    type V = Map<Seq<char>, i32>;

    closed spec fn view(&self) -> Map<Seq<char>, i32> {
        entries_map(self.entries@)
    }
}

/// When every entry from `i` on misses `name`, the denoted mapping treats
/// `name` exactly as the mapping of the first `i` entries does.
proof fn lemma_entries_map_skip(entries: Seq<(String, i32)>, i: int, name: Seq<char>)
    requires
        0 <= i <= entries.len(),
        forall|j: int| i <= j < entries.len() ==> (#[trigger] entries[j].0)@ != name,
    ensures
        entries_map(entries).contains_key(name) == entries_map(
            entries.take(i),
        ).contains_key(name),
        entries_map(entries).contains_key(name) ==> entries_map(entries)[name] == entries_map(
            entries.take(i),
        )[name],
    decreases entries.len() - i,
{
    if i < entries.len() {
        lemma_entries_map_skip(entries, i + 1, name);
        assert(entries.take(i + 1).drop_last() =~= entries.take(i));
        assert(entries.take(i + 1).last() == entries[i]);
    } else {
        assert(entries.take(i) =~= entries);
    }
}

impl Environment {
    /// A fresh, empty environment.
    pub fn new() -> (r: Environment)
        ensures
            r@ == Map::<Seq<char>, i32>::empty(),
    {
        Environment { entries: Vec::new() }
    }

    /// The value bound to `name`, if any: the most recent binding wins.
    pub fn get(&self, name: &String) -> (r: Option<i32>)
        ensures
            r == if self@.contains_key(name@) {
                Some(self@[name@])
            } else {
                None::<i32>
            },
    {
        let mut i: usize = self.entries.len();
        while i > 0
            invariant
                i <= self.entries@.len(),
                forall|j: int|
                    i <= j < self.entries@.len() ==> (#[trigger] self.entries@[j].0)@ != name@,
            decreases i,
        {
            i = i - 1;
            if self.entries[i].0 == *name {
                proof {
                    lemma_entries_map_skip(self.entries@, i as int + 1, name@);
                    assert(self.entries@.take(i as int + 1).drop_last() =~= self.entries@.take(
                        i as int,
                    ));
                    assert(self.entries@.take(i as int + 1).last() == self.entries@[i as int]);
                }
                return Some(self.entries[i].1);
            }
        }
        proof {
            lemma_entries_map_skip(self.entries@, 0, name@);
            assert(self.entries@.take(0) =~= Seq::<(String, i32)>::empty());
        }
        None
    }

    /// Binds `name` to `value`, overwriting any earlier binding of the same
    /// name.
    pub fn insert(&mut self, name: String, value: i32)
        ensures
            final(self)@ == old(self)@.insert(name@, value),
    {
        self.entries.push((name, value));
        proof {
            assert(self.entries@.drop_last() =~= old(self).entries@);
        }
    }
}

} // verus!
