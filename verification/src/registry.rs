//! A table of named entries, each with a flag that says whether the query
//! under generation needs it.
//!
//! The table is a map from names to entries. A flag starts unset, can be set
//! and is never cleared; an entry is never removed or replaced.

use vstd::prelude::*;

verus! {

/// What a table holds under one name.
pub struct Entry<T> {
    /// Whether the entry has to be emitted.
    pub required: bool,
    /// What the name stands for.
    pub item: T,
}

/// `m` with the flag of `name` set, if `m` has that name; else `m`.
pub open spec fn with_required<T>(m: Map<Seq<char>, Entry<T>>, name: Seq<char>) -> Map<
    Seq<char>,
    Entry<T>,
> {
    if m.contains_key(name) {
        m.insert(name, Entry { required: true, item: m[name].item })
    } else {
        m
    }
}

/// Whether every flag set in `before` is set in `after`, over the same names and items.
pub open spec fn only_flags_raised<T>(
    before: Map<Seq<char>, Entry<T>>,
    after: Map<Seq<char>, Entry<T>>,
) -> bool {
    &&& after.dom() == before.dom()
    &&& forall|name: Seq<char>| #[trigger]
        before.contains_key(name) ==> after[name].item == before[name].item && (
        before[name].required ==> after[name].required)
}

/// Setting a flag a second time changes nothing, and setting the flag of a
/// name that the table lacks changes nothing.
pub proof fn lemma_with_required_idempotent<T>(m: Map<Seq<char>, Entry<T>>, name: Seq<char>)
    ensures
        with_required(with_required(m, name), name) == with_required(m, name),
        !m.contains_key(name) ==> with_required(m, name) == m,
        m.contains_key(name) ==> with_required(m, name)[name].required,
        only_flags_raised(m, with_required(m, name)),
        forall|other: Seq<char>|
            other != name && m.contains_key(other) ==> with_required(m, name)[other] == m[other],
{
    assert(with_required(with_required(m, name), name) =~= with_required(m, name));
    assert(with_required(m, name).dom() =~= m.dom());
}

/// Flags set for two names are set in either order.
pub proof fn lemma_with_required_commutes<T>(
    m: Map<Seq<char>, Entry<T>>,
    a: Seq<char>,
    b: Seq<char>,
)
    ensures
        with_required(with_required(m, a), b) == with_required(with_required(m, b), a),
{
    assert(with_required(with_required(m, a), b) =~= with_required(with_required(m, b), a));
}

/// A table of named entries. No two entries share a name.
pub struct Registry<T> {
    names: Vec<String>,
    required: Vec<bool>,
    items: Vec<T>,
}

impl<T> View for Registry<T> {
    type V = Map<Seq<char>, Entry<T>>;

    closed spec fn view(&self) -> Map<Seq<char>, Entry<T>> {
        Map::new(
            |name: Seq<char>| self.holds(name),
            |name: Seq<char>|
                Entry {
                    required: self.required@[self.index_of(name)],
                    item: self.items@[self.index_of(name)],
                },
        )
    }
}

impl<T> Registry<T> {
    /// Whether an entry has the name `name`.
    closed spec fn holds(&self, name: Seq<char>) -> bool {
        exists|i: int| 0 <= i < self.names@.len() && self.names@[i]@ == name
    }

    /// The index of the entry named `name`.
    closed spec fn index_of(&self, name: Seq<char>) -> int {
        choose|i: int| 0 <= i < self.names@.len() && self.names@[i]@ == name
    }

    /// The table is well formed: every entry has a name, a flag and an item,
    /// and no two entries share a name.
    pub closed spec fn wf(&self) -> bool {
        &&& self.names@.len() == self.required@.len()
        &&& self.names@.len() == self.items@.len()
        &&& forall|i: int, j: int|
            0 <= i < self.names@.len() && 0 <= j < self.names@.len() && i != j
                ==> self.names@[i]@ != self.names@[j]@
    }

    /// The entry at index `i` is what the table holds under its name.
    proof fn lemma_entry_at(&self, i: int)
        requires
            self.wf(),
            0 <= i < self.names@.len(),
        ensures
            self.holds(self.names@[i]@),
            self.index_of(self.names@[i]@) == i,
            self@.contains_key(self.names@[i]@),
            self@[self.names@[i]@] == (Entry { required: self.required@[i], item: self.items@[i] }),
    {
    }

    /// An empty table.
    pub fn new() -> (table: Self)
        ensures
            table.wf(),
            table@ == Map::<Seq<char>, Entry<T>>::empty(),
    {
        let table = Registry { names: Vec::new(), required: Vec::new(), items: Vec::new() };
        assert(table@ =~= Map::<Seq<char>, Entry<T>>::empty());
        table
    }

    /// The index of the entry named `name`, if there is one.
    fn position(&self, name: &str) -> (found: Option<usize>)
        requires
            self.wf(),
        ensures
            match found {
                Some(i) => i < self.names@.len() && self.names@[i as int]@ == name@,
                None => !self.holds(name@),
            },
    {
        let wanted = name.to_owned();
        let n = self.names.len();
        let mut i: usize = 0;
        while i < n
            invariant
                n == self.names@.len(),
                i <= n,
                wanted@ == name@,
                forall|j: int| 0 <= j < i ==> self.names@[j]@ != name@,
            decreases n - i,
        {
            if self.names[i] == wanted {
                return Some(i);
            }
            i += 1;
        }
        None
    }

    /// The number of entries.
    pub fn len(&self) -> (n: usize)
        requires
            self.wf(),
        ensures
            n == self@.dom().len(),
            self@.dom().finite(),
    {
        proof {
            self.lemma_dom_len(self.names@.len() as int);
            assert(self.names_upto(self.names@.len() as int) =~= self@.dom());
        }
        self.names.len()
    }

    /// The names of the first `n` entries.
    spec fn names_upto(&self, n: int) -> Set<Seq<char>> {
        Set::new(|name: Seq<char>| exists|i: int| 0 <= i < n && self.names@[i]@ == name)
    }

    /// The first `n` entries have `n` names.
    proof fn lemma_dom_len(&self, n: int)
        requires
            self.wf(),
            0 <= n <= self.names@.len(),
        ensures
            self.names_upto(n).finite(),
            self.names_upto(n).len() == n,
        decreases n,
    {
        if n == 0 {
            assert(self.names_upto(0) =~= Set::<Seq<char>>::empty());
        } else {
            self.lemma_dom_len(n - 1);
            let last = self.names@[n - 1]@;
            assert(self.names_upto(n) =~= self.names_upto(n - 1).insert(last));
            assert(!self.names_upto(n - 1).contains(last));
        }
    }

    /// Tells whether the table has an entry named `name`.
    pub fn contains(&self, name: &str) -> (b: bool)
        requires
            self.wf(),
        ensures
            b == self@.contains_key(name@),
    {
        self.position(name).is_some()
    }

    /// Tells whether the table has an entry named `name` whose flag is set.
    pub fn is_required(&self, name: &str) -> (b: bool)
        requires
            self.wf(),
        ensures
            b == (self@.contains_key(name@) && self@[name@].required),
    {
        match self.position(name) {
            Some(i) => {
                proof {
                    self.lemma_entry_at(i as int);
                }
                self.required[i]
            },
            None => false,
        }
    }

    /// The item named `name`, if the table has one.
    pub fn get(&self, name: &str) -> (item: Option<&T>)
        requires
            self.wf(),
        ensures
            match item {
                Some(it) => self@.contains_key(name@) && *it == self@[name@].item,
                None => !self@.contains_key(name@),
            },
    {
        match self.position(name) {
            Some(i) => {
                proof {
                    self.lemma_entry_at(i as int);
                }
                Some(&self.items[i])
            },
            None => None,
        }
    }

    /// Adds `item` under `name`, with its flag unset, unless the table has an
    /// entry of that name already: then the table stays as it is. Tells
    /// whether the entry was added.
    pub fn insert(&mut self, name: &str, item: T) -> (added: bool)
        requires
            old(self).wf(),
        ensures
            final(self).wf(),
            added == !old(self)@.contains_key(name@),
            final(self)@ == if added {
                old(self)@.insert(name@, Entry { required: false, item })
            } else {
                old(self)@
            },
    {
        if self.position(name).is_some() {
            return false;
        }
        let ghost before = *self;
        self.names.push(name.to_owned());
        self.required.push(false);
        self.items.push(item);
        proof {
            let n = before.names@.len() as int;
            assert(self.wf());
            assert forall|key: Seq<char>| #[trigger] self.holds(key) <==> (key == name@
                || before.holds(key)) by {
                if before.holds(key) {
                    let i = before.index_of(key);
                    assert(self.names@[i]@ == key);
                }
                if key == name@ {
                    assert(self.names@[n]@ == key);
                }
            }
            assert forall|key: Seq<char>| before.holds(key) implies self.index_of(key)
                == before.index_of(key) by {
                let i = before.index_of(key);
                assert(self.names@[i]@ == key);
            }
            self.lemma_entry_at(n);
            assert(self@ =~= before@.insert(name@, Entry { required: false, item }));
        }
        true
    }

    /// Sets the flag of the entry named `name`, if the table has one; else
    /// nothing changes. Tells whether the table has that entry.
    pub fn require(&mut self, name: &str) -> (found: bool)
        requires
            old(self).wf(),
        ensures
            final(self).wf(),
            found == old(self)@.contains_key(name@),
            final(self)@ == with_required(old(self)@, name@),
    {
        match self.position(name) {
            Some(i) => {
                let ghost before = *self;
                self.required.set(i, true);
                proof {
                    before.lemma_entry_at(i as int);
                    assert forall|key: Seq<char>| #[trigger] self.holds(key) <==> before.holds(key) by {
                        if before.holds(key) {
                            let j = before.index_of(key);
                            assert(self.names@[j]@ == key);
                        }
                        if self.holds(key) {
                            let j = self.index_of(key);
                            assert(before.names@[j]@ == key);
                        }
                    }
                    assert forall|key: Seq<char>| before.holds(key) implies self.index_of(key)
                        == before.index_of(key) by {
                        let j = before.index_of(key);
                        assert(self.names@[j]@ == key);
                    }
                    assert(self@ =~= with_required(before@, name@));
                }
                true
            },
            None => false,
        }
    }
}

} // verus!
