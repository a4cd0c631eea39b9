//! The routing table: literal path prefixes, each with one upstream base URL.
//!
//! The table is modelled as the ordered list of its entries, pairs of
//! (prefix, target) as character sequences, and, derived from that list, as a
//! map from prefix to target. No prefix is empty and none occurs twice.

use vstd::prelude::*;
use vstd::string::*;
use crate::text::same_text;

verus! {

/// Whether some entry of the list has the prefix `k`.
pub open spec fn has_prefix(entries: Seq<(Seq<char>, Seq<char>)>, k: Seq<char>) -> bool {
    exists|i: int| 0 <= i < entries.len() && (#[trigger] entries[i]).0 == k
}

/// The place of an entry with the prefix `k`, where there is one.
pub open spec fn index_of(entries: Seq<(Seq<char>, Seq<char>)>, k: Seq<char>) -> int {
    choose|i: int| 0 <= i < entries.len() && (#[trigger] entries[i]).0 == k
}

/// The map from prefix to target that a list of entries stands for.
pub open spec fn table_of(entries: Seq<(Seq<char>, Seq<char>)>) -> Map<Seq<char>, Seq<char>> {
    Map::new(|k: Seq<char>| has_prefix(entries, k), |k: Seq<char>| entries[index_of(entries, k)].1)
}

/// A list of entries is a table when no prefix is empty and none occurs twice.
pub open spec fn valid_entries(entries: Seq<(Seq<char>, Seq<char>)>) -> bool {
    &&& forall|i: int| 0 <= i < entries.len() ==> (#[trigger] entries[i]).0.len() > 0
    &&& forall|i: int, j: int|
        0 <= i < j < entries.len() ==> (#[trigger] entries[i]).0 != (#[trigger] entries[j]).0
}

/// In a valid list, the entry at each place is the one the map gives for its prefix.
pub proof fn lemma_entry_in_table(entries: Seq<(Seq<char>, Seq<char>)>, i: int)
    requires
        valid_entries(entries),
        0 <= i < entries.len(),
    ensures
        table_of(entries).contains_key(entries[i].0),
        table_of(entries)[entries[i].0] == entries[i].1,
        index_of(entries, entries[i].0) == i,
{
    let k = entries[i].0;
    assert(has_prefix(entries, k));
    let j = index_of(entries, k);
    assert(0 <= j < entries.len() && entries[j].0 == k);
    if j < i {
        assert(entries[j].0 != entries[i].0);
    }
    if i < j {
        assert(entries[i].0 != entries[j].0);
    }
}

/// One rule of the table.
#[derive(Debug, Clone, PartialEq, Eq)]
pub struct Route {
    /// The literal path prefix.
    pub prefix: String,
    /// The upstream base URL that requests under the prefix go to.
    pub target: String,
}

impl View for Route {
    type V = (Seq<char>, Seq<char>);

    open spec fn view(&self) -> (Seq<char>, Seq<char>) {
        (self.prefix@, self.target@)
    }
}

/// The entries that a list of routes stands for, in the same order.
pub open spec fn entries_of(routes: Seq<Route>) -> Seq<(Seq<char>, Seq<char>)> {
    Seq::new(routes.len(), |i: int| routes[i]@)
}

/// Why a rule was not taken into the table.
#[derive(Debug, Clone, Copy, PartialEq, Eq, Structural)]
pub enum TableError {
    /// The prefix was the empty string.
    EmptyPrefix,
}

/// The complete set of proxy rules, in the order in which they were added.
#[derive(Debug)]
pub struct RoutingTable {
    routes: Vec<Route>,
}

impl View for RoutingTable {
    type V = Map<Seq<char>, Seq<char>>;

    /// The table as a map from prefix to target.
    open spec fn view(&self) -> Map<Seq<char>, Seq<char>> {
        table_of(self.entries())
    }
}

impl Default for RoutingTable {
    /// The empty table.
    fn default() -> (table: RoutingTable)
        ensures
            table.entries() == Seq::<(Seq<char>, Seq<char>)>::empty(),
    {
        RoutingTable::new()
    }
}

impl RoutingTable {
    /// The entries in the order in which they were added.
    pub closed spec fn entries(&self) -> Seq<(Seq<char>, Seq<char>)> {
        entries_of(self.routes@)
    }

    #[verifier::type_invariant]
    spec fn inv(&self) -> bool {
        valid_entries(self.entries())
    }

    /// The empty table.
    pub fn new() -> (table: RoutingTable)
        ensures
            table.entries() == Seq::<(Seq<char>, Seq<char>)>::empty(),
            valid_entries(table.entries()),
    {
        let table = RoutingTable { routes: Vec::new() };
        assert(table.entries() =~= Seq::<(Seq<char>, Seq<char>)>::empty());
        table
    }

    /// The number of rules.
    pub fn len(&self) -> (n: usize)
        ensures
            n == self.entries().len(),
            valid_entries(self.entries()),
    {
        proof {
            use_type_invariant(self);
        }
        self.routes.len()
    }

    /// Whether the table holds no rule.
    pub fn is_empty(&self) -> (r: bool)
        ensures
            r == (self.entries().len() == 0),
    {
        self.routes.len() == 0
    }

    /// The rules in the order in which they were added.
    pub fn routes(&self) -> (r: &Vec<Route>)
        ensures
            entries_of(r@) == self.entries(),
            valid_entries(self.entries()),
    {
        proof {
            use_type_invariant(self);
        }
        &self.routes
    }

    /// Moves the rules out and leaves the table empty.
    fn take_routes(&mut self) -> (routes: Vec<Route>)
        ensures
            entries_of(routes@) == old(self).entries(),
            final(self).entries().len() == 0,
    {
        let mut taken = RoutingTable { routes: Vec::new() };
        std::mem::swap(self, &mut taken);
        taken.routes
    }

    /// The place of the rule with exactly this prefix.
    fn position(&self, prefix: &str) -> (r: Option<usize>)
        ensures
            match r {
                Some(i) => i < self.entries().len() && self.entries()[i as int].0 == prefix@,
                None => !has_prefix(self.entries(), prefix@),
            },
    {
        let mut i: usize = 0;
        while i < self.routes.len()
            invariant
                i <= self.routes@.len(),
                forall|j: int| 0 <= j < i ==> (#[trigger] self.entries()[j]).0 != prefix@,
            decreases self.routes@.len() - i,
        {
            if same_text(self.routes[i].prefix.as_str(), prefix) {
                return Some(i);
            }
            i += 1;
        }
        None
    }

    /// The target of the rule with exactly this prefix.
    pub fn get(&self, prefix: &str) -> (r: Option<&String>)
        ensures
            match r {
                Some(target) => self@.contains_key(prefix@) && target@ == self@[prefix@],
                None => !self@.contains_key(prefix@),
            },
    {
        proof {
            use_type_invariant(self);
        }
        match self.position(prefix) {
            Some(i) => {
                proof {
                    lemma_entry_in_table(self.entries(), i as int);
                }
                Some(&self.routes[i].target)
            },
            None => None,
        }
    }

    /// Whether a rule with exactly this prefix exists.
    pub fn contains(&self, prefix: &str) -> (r: bool)
        ensures
            r == self@.contains_key(prefix@),
    {
        self.position(prefix).is_some()
    }

    /// Adds the rule `prefix` to `target`, or gives the rule with this prefix
    /// a new target. An empty prefix is refused and leaves the table as it
    /// was. Otherwise the result is the target that the prefix had before.
    pub fn insert(&mut self, prefix: String, target: String) -> (r: Result<
        Option<String>,
        TableError,
    >)
        ensures
            valid_entries(final(self).entries()),
            match r {
                Err(e) => {
                    &&& e == TableError::EmptyPrefix
                    &&& prefix@.len() == 0
                    &&& final(self).entries() == old(self).entries()
                },
                Ok(Some(before)) => {
                    &&& prefix@.len() > 0
                    &&& old(self)@.contains_key(prefix@)
                    &&& before@ == old(self)@[prefix@]
                    &&& final(self).entries() == old(self).entries().update(
                        index_of(old(self).entries(), prefix@),
                        (prefix@, target@),
                    )
                    &&& final(self)@ == old(self)@.insert(prefix@, target@)
                },
                Ok(None) => {
                    &&& prefix@.len() > 0
                    &&& !old(self)@.contains_key(prefix@)
                    &&& final(self).entries() == old(self).entries().push((prefix@, target@))
                    &&& final(self)@ == old(self)@.insert(prefix@, target@)
                },
            },
    {
        proof {
            use_type_invariant(&*self);
        }
        let ghost before = self.entries();
        if prefix.as_str().unicode_len() == 0 {
            return Err(TableError::EmptyPrefix);
        }
        match self.position(prefix.as_str()) {
            Some(i) => {
                proof {
                    lemma_entry_in_table(before, i as int);
                }
                let ghost entry = (prefix@, target@);
                let mut routes = self.take_routes();
                let previous = routes.remove(i);
                routes.insert(i, Route { prefix, target });
                proof {
                    assert(entries_of(routes@) =~= before.update(i as int, entry));
                    lemma_update_is_insert(before, i as int, entry.1);
                }
                *self = RoutingTable { routes };
                Ok(Some(previous.target))
            },
            None => {
                let ghost entry = (prefix@, target@);
                let mut routes = self.take_routes();
                routes.push(Route { prefix, target });
                proof {
                    assert(entries_of(routes@) =~= before.push(entry));
                    lemma_push_is_insert(before, entry);
                }
                *self = RoutingTable { routes };
                Ok(None)
            },
        }
    }

    /// Takes out the rule with exactly this prefix and returns its target;
    /// `None`, and the table as it was, where there is no such rule.
    pub fn remove(&mut self, prefix: &str) -> (r: Option<String>)
        ensures
            valid_entries(final(self).entries()),
            match r {
                Some(target) => {
                    &&& old(self)@.contains_key(prefix@)
                    &&& target@ == old(self)@[prefix@]
                    &&& final(self).entries() == old(self).entries().remove(
                        index_of(old(self).entries(), prefix@),
                    )
                    &&& final(self)@ == old(self)@.remove(prefix@)
                },
                None => {
                    &&& !old(self)@.contains_key(prefix@)
                    &&& final(self).entries() == old(self).entries()
                },
            },
    {
        proof {
            use_type_invariant(&*self);
        }
        let ghost before = self.entries();
        match self.position(prefix) {
            Some(i) => {
                proof {
                    lemma_entry_in_table(before, i as int);
                }
                let mut routes = self.take_routes();
                let previous = routes.remove(i);
                proof {
                    assert(entries_of(routes@) =~= before.remove(i as int));
                    lemma_remove_is_remove(before, i as int);
                }
                *self = RoutingTable { routes };
                Some(previous.target)
            },
            None => None,
        }
    }

    /// The prefixes in the order in which their rules were added.
    pub fn prefixes(&self) -> (r: Vec<String>)
        ensures
            r@.len() == self.entries().len(),
            forall|i: int| 0 <= i < r@.len() ==> (#[trigger] r@[i])@ == self.entries()[i].0,
    {
        let mut out: Vec<String> = Vec::new();
        let mut i: usize = 0;
        while i < self.routes.len()
            invariant
                i <= self.routes@.len(),
                out@.len() == i,
                forall|j: int| 0 <= j < i ==> (#[trigger] out@[j])@ == self.entries()[j].0,
            decreases self.routes@.len() - i,
        {
            out.push(self.routes[i].prefix.clone());
            i += 1;
        }
        out
    }
}

/// Replacing the target at the place of a prefix is the map's `insert` for that prefix.
proof fn lemma_update_is_insert(entries: Seq<(Seq<char>, Seq<char>)>, i: int, target: Seq<char>)
    requires
        valid_entries(entries),
        0 <= i < entries.len(),
    ensures
        valid_entries(entries.update(i, (entries[i].0, target))),
        table_of(entries.update(i, (entries[i].0, target))) == table_of(entries).insert(
            entries[i].0,
            target,
        ),
{
    let k = entries[i].0;
    let after = entries.update(i, (k, target));
    assert(valid_entries(after)) by {
        assert forall|a: int| 0 <= a < after.len() implies (#[trigger] after[a]).0.len() > 0 by {
            assert(after[a].0 == entries[a].0);
        }
        assert forall|a: int, b: int| 0 <= a < b < after.len() implies (#[trigger] after[a]).0 != (
        #[trigger] after[b]).0 by {
            assert(after[a].0 == entries[a].0);
            assert(after[b].0 == entries[b].0);
        }
    }
    assert forall|q: Seq<char>| has_prefix(after, q) <==> (q == k || has_prefix(entries, q)) by {
        if has_prefix(after, q) {
            let a = index_of(after, q);
            assert(after[a].0 == entries[a].0);
        }
        if has_prefix(entries, q) {
            let a = index_of(entries, q);
            assert(after[a].0 == entries[a].0);
        }
        if q == k {
            assert(after[i].0 == k);
        }
    }
    assert forall|q: Seq<char>| has_prefix(after, q) implies #[trigger] table_of(after)[q]
        == table_of(entries).insert(k, target)[q] by {
        let a = index_of(after, q);
        lemma_entry_in_table(after, a);
        if q != k {
            assert(a != i);
            assert(after[a] == entries[a]);
            lemma_entry_in_table(entries, a);
        }
    }
    assert(table_of(after) =~= table_of(entries).insert(k, target));
}

/// Appending an entry with a new, non-empty prefix is the map's `insert` for that prefix.
proof fn lemma_push_is_insert(entries: Seq<(Seq<char>, Seq<char>)>, entry: (Seq<char>, Seq<char>))
    requires
        valid_entries(entries),
        !has_prefix(entries, entry.0),
        entry.0.len() > 0,
    ensures
        valid_entries(entries.push(entry)),
        table_of(entries.push(entry)) == table_of(entries).insert(entry.0, entry.1),
{
    let after = entries.push(entry);
    let last = entries.len() as int;
    assert(valid_entries(after)) by {
        assert forall|a: int, b: int| 0 <= a < b < after.len() implies (#[trigger] after[a]).0 != (
        #[trigger] after[b]).0 by {
            if b == last {
                assert(after[a] == entries[a]);
            } else {
                assert(after[a] == entries[a]);
                assert(after[b] == entries[b]);
            }
        }
        assert forall|a: int| 0 <= a < after.len() implies (#[trigger] after[a]).0.len() > 0 by {
            if a < last {
                assert(after[a] == entries[a]);
            }
        }
    }
    assert forall|q: Seq<char>| has_prefix(after, q) <==> (q == entry.0 || has_prefix(entries, q)) by {
        if has_prefix(after, q) {
            let a = index_of(after, q);
            if a < last {
                assert(after[a] == entries[a]);
            }
        }
        if has_prefix(entries, q) {
            let a = index_of(entries, q);
            assert(after[a] == entries[a]);
        }
        if q == entry.0 {
            assert(after[last].0 == q);
        }
    }
    assert forall|q: Seq<char>| has_prefix(after, q) implies #[trigger] table_of(after)[q]
        == table_of(entries).insert(entry.0, entry.1)[q] by {
        let a = index_of(after, q);
        lemma_entry_in_table(after, a);
        if q != entry.0 {
            assert(a != last);
            assert(after[a] == entries[a]);
            lemma_entry_in_table(entries, a);
        }
    }
    assert(table_of(after) =~= table_of(entries).insert(entry.0, entry.1));
}

/// Taking out the entry at the place of a prefix is the map's `remove` for that prefix.
proof fn lemma_remove_is_remove(entries: Seq<(Seq<char>, Seq<char>)>, i: int)
    requires
        valid_entries(entries),
        0 <= i < entries.len(),
    ensures
        valid_entries(entries.remove(i)),
        table_of(entries.remove(i)) == table_of(entries).remove(entries[i].0),
{
    let k = entries[i].0;
    let after = entries.remove(i);
    assert forall|a: int| 0 <= a < after.len() implies #[trigger] after[a] == entries[if a < i {
        a
    } else {
        a + 1
    }] by {}
    assert(valid_entries(after)) by {
        assert forall|a: int, b: int| 0 <= a < b < after.len() implies (#[trigger] after[a]).0 != (
        #[trigger] after[b]).0 by {
            let a0 = if a < i { a } else { a + 1 };
            let b0 = if b < i { b } else { b + 1 };
            assert(after[a] == entries[a0]);
            assert(after[b] == entries[b0]);
        }
        assert forall|a: int| 0 <= a < after.len() implies (#[trigger] after[a]).0.len() > 0 by {
            let a0 = if a < i { a } else { a + 1 };
            assert(after[a] == entries[a0]);
        }
    }
    assert forall|q: Seq<char>| has_prefix(after, q) <==> (q != k && has_prefix(entries, q)) by {
        if has_prefix(after, q) {
            let a = index_of(after, q);
            let a0 = if a < i { a } else { a + 1 };
            assert(after[a] == entries[a0]);
            assert(entries[a0].0 == q);
            if a0 < i {
                assert(entries[a0].0 != entries[i].0);
            } else {
                assert(entries[i].0 != entries[a0].0);
            }
        }
        if q != k && has_prefix(entries, q) {
            let a0 = index_of(entries, q);
            let a = if a0 < i { a0 } else { a0 - 1 };
            assert(after[a] == entries[a0]);
            assert(after[a].0 == q);
        }
    }
    assert forall|q: Seq<char>| has_prefix(after, q) implies #[trigger] table_of(after)[q]
        == table_of(entries).remove(k)[q] by {
        let a = index_of(after, q);
        let a0 = if a < i { a } else { a + 1 };
        lemma_entry_in_table(after, a);
        assert(after[a] == entries[a0]);
        lemma_entry_in_table(entries, a0);
    }
    assert(table_of(after) =~= table_of(entries).remove(k));
}

} // verus!
