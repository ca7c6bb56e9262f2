//! Accounts by name: balances, nonces and keys are maps from an account name
//! to a value, and the set of authorities is a set of names.

use vstd::prelude::*;

verus! {

/// `listing` names every key of `map` exactly once, each with its value.
pub open spec fn lists<V>(listing: Seq<(String, V)>, map: Map<Seq<char>, V>) -> bool {
    &&& forall|i: int, j: int|
        0 <= i < j < listing.len() ==> (#[trigger] listing[i]).0@ != (#[trigger] listing[j]).0@
    &&& forall|i: int|
        0 <= i < listing.len() ==> {
            &&& map.contains_key((#[trigger] listing[i]).0@)
            &&& map[listing[i].0@] == listing[i].1
        }
    &&& forall|name: Seq<char>|
        map.contains_key(name) ==> exists|i: int| 0 <= i < listing.len() && (#[trigger] listing[i]).0@ == name
}

/// A map from account names to values. Each name occurs once; the listing
/// keeps the order in which names were first bound.
pub struct AccountMap<V: Copy> {
    entries: Vec<(String, V)>,
    model: Ghost<Map<Seq<char>, V>>,
}

impl<V: Copy> View for AccountMap<V> {
    type V = Map<Seq<char>, V>;

    closed spec fn view(&self) -> Map<Seq<char>, V> {
        self.model@
    }
}

impl<V: Copy> AccountMap<V> {
    #[verifier::type_invariant]
    closed spec fn well_formed(self) -> bool {
        lists(self.entries@, self.model@)
    }

    /// The map with no name bound.
    pub fn new() -> (map: Self)
        ensures
            map@ == Map::<Seq<char>, V>::empty(),
    {
        AccountMap { entries: Vec::new(), model: Ghost(Map::empty()) }
    }

    /// Number of names bound.
    pub fn len(&self) -> (n: usize)
        ensures
            n == self@.dom().len(),
            self@.dom().finite(),
    {
        proof {
            use_type_invariant(self);
            lemma_listing_len(self.entries@, self.model@);
        }
        self.entries.len()
    }

    fn position(&self, name: &str) -> (found: Option<usize>)
        ensures
            match found {
                Some(i) => i < self.entries@.len() && self.entries@[i as int].0@ == name@,
                None => !self@.contains_key(name@),
            },
    {
        proof {
            use_type_invariant(self);
        }
        find_name(&self.entries, name)
    }

    /// Whether `name` is bound.
    pub fn contains_key(&self, name: &str) -> (bound: bool)
        ensures
            bound == self@.contains_key(name@),
    {
        proof {
            use_type_invariant(self);
        }
        self.position(name).is_some()
    }

    /// The value bound to `name`, if any.
    pub fn get(&self, name: &str) -> (value: Option<V>)
        ensures
            value == (if self@.contains_key(name@) { Some(self@[name@]) } else { None::<V> }),
    {
        proof {
            use_type_invariant(self);
        }
        match self.position(name) {
            Some(i) => Some(self.entries[i].1),
            None => None,
        }
    }

    /// Binds `name` to `value`, replacing any earlier binding.
    pub fn insert(&mut self, name: String, value: V)
        ensures
            final(self)@ == old(self)@.insert(name@, value),
    {
        proof {
            use_type_invariant(&*self);
        }
        let ghost new_model = self.model@.insert(name@, value);
        let mut entries = self.entries();
        let ghost taken = entries@;
        match find_name(&entries, name.as_str()) {
            Some(i) => {
                entries.set(i, (name, value));
                proof {
                    assert forall|a: int, b: int|
                        0 <= a < b < entries@.len() implies (#[trigger] entries@[a]).0@ != (#[trigger] entries@[b]).0@ by {
                        assert(taken[a].0@ != taken[b].0@);
                    }
                    assert forall|k: Seq<char>| new_model.contains_key(k) implies exists|j: int|
                        0 <= j < entries@.len() && (#[trigger] entries@[j]).0@ == k by {
                        if k == name@ {
                            assert(entries@[i as int].0@ == k);
                        } else {
                            let j = choose|j: int| 0 <= j < taken.len() && (#[trigger] taken[j]).0@ == k;
                            assert(entries@[j].0@ == k);
                        }
                    }
                    assert forall|j: int| 0 <= j < entries@.len() implies {
                        &&& new_model.contains_key((#[trigger] entries@[j]).0@)
                        &&& new_model[entries@[j].0@] == entries@[j].1
                    } by {
                        if j != i {
                            assert(taken[j].0@ != taken[i as int].0@ || j == i);
                        }
                    }
                }
                *self = AccountMap { entries, model: Ghost(new_model) };
            },
            None => {
                entries.push((name, value));
                proof {
                    let n = taken.len() as int;
                    assert forall|a: int, b: int|
                        0 <= a < b < entries@.len() implies (#[trigger] entries@[a]).0@ != (#[trigger] entries@[b]).0@ by {
                        if b == n {
                            assert(old(self)@.contains_key(taken[a].0@));
                        } else {
                            assert(taken[a].0@ != taken[b].0@);
                        }
                    }
                    assert forall|k: Seq<char>| new_model.contains_key(k) implies exists|j: int|
                        0 <= j < entries@.len() && (#[trigger] entries@[j]).0@ == k by {
                        if k == name@ {
                            assert(entries@[n].0@ == k);
                        } else {
                            let j = choose|j: int| 0 <= j < taken.len() && (#[trigger] taken[j]).0@ == k;
                            assert(entries@[j].0@ == k);
                        }
                    }
                    assert forall|j: int| 0 <= j < entries@.len() implies {
                        &&& new_model.contains_key((#[trigger] entries@[j]).0@)
                        &&& new_model[entries@[j].0@] == entries@[j].1
                    } by {
                        if j < n {
                            assert(old(self)@.contains_key(taken[j].0@));
                        }
                    }
                }
                *self = AccountMap { entries, model: Ghost(new_model) };
            },
        }
    }

    /// Unbinds `name`, if it is bound.
    pub fn remove(&mut self, name: &str)
        ensures
            final(self)@ == old(self)@.remove(name@),
    {
        proof {
            use_type_invariant(&*self);
        }
        let ghost new_model = self.model@.remove(name@);
        let mut entries = self.entries();
        let ghost taken = entries@;
        match find_name(&entries, name) {
            Some(i) => {
                entries.remove(i);
                proof {
                    assert forall|a: int, b: int|
                        0 <= a < b < entries@.len() implies (#[trigger] entries@[a]).0@ != (#[trigger] entries@[b]).0@ by {
                        let (x, y) = (if a < i { a } else { a + 1 }, if b < i { b } else { b + 1 });
                        assert(entries@[a] == taken[x] && entries@[b] == taken[y]);
                        assert(taken[x].0@ != taken[y].0@);
                    }
                    assert forall|k: Seq<char>| new_model.contains_key(k) implies exists|j: int|
                        0 <= j < entries@.len() && (#[trigger] entries@[j]).0@ == k by {
                        let j = choose|j: int| 0 <= j < taken.len() && (#[trigger] taken[j]).0@ == k;
                        assert(j != i);
                        let m = if j < i { j } else { j - 1 };
                        assert(entries@[m] == taken[j]);
                    }
                    assert forall|j: int| 0 <= j < entries@.len() implies {
                        &&& new_model.contains_key((#[trigger] entries@[j]).0@)
                        &&& new_model[entries@[j].0@] == entries@[j].1
                    } by {
                        let m = if j < i { j } else { j + 1 };
                        assert(entries@[j] == taken[m]);
                        assert(taken[m].0@ != taken[i as int].0@);
                    }
                }
                *self = AccountMap { entries, model: Ghost(new_model) };
            },
            None => {
                assert(new_model =~= old(self)@);
            },
        }
    }

    /// Every binding, each name once, in the order names were first bound.
    pub fn entries(&self) -> (listing: Vec<(String, V)>)
        ensures
            lists(listing@, self@),
    {
        proof {
            use_type_invariant(self);
        }
        let mut listing: Vec<(String, V)> = Vec::new();
        let mut i: usize = 0;
        while i < self.entries.len()
            invariant
                i <= self.entries@.len(),
                lists(self.entries@, self@),
                listing@.len() == i,
                forall|j: int| 0 <= j < i ==> (#[trigger] listing@[j]).0@ == self.entries@[j].0@
                    && listing@[j].1 == self.entries@[j].1,
            decreases self.entries@.len() - i,
        {
            let name: String = self.entries[i].0.clone();
            let value: V = self.entries[i].1;
            listing.push((name, value));
            i = i + 1;
        }
        proof {
            assert forall|a: int, b: int|
                0 <= a < b < listing@.len() implies (#[trigger] listing@[a]).0@ != (#[trigger] listing@[b]).0@ by {
                assert(self.entries@[a].0@ != self.entries@[b].0@);
            }
            assert forall|k: Seq<char>| self@.contains_key(k) implies exists|j: int|
                0 <= j < listing@.len() && (#[trigger] listing@[j]).0@ == k by {
                let j = choose|j: int| 0 <= j < self.entries@.len() && (#[trigger] self.entries@[j]).0@ == k;
                assert(listing@[j].0@ == k);
            }
            assert forall|j: int| 0 <= j < listing@.len() implies {
                &&& self@.contains_key((#[trigger] listing@[j]).0@)
                &&& self@[listing@[j].0@] == listing@[j].1
            } by {
                assert(self.entries@[j].0@ == listing@[j].0@);
            }
        }
        listing
    }

}

impl<V: Copy> Clone for AccountMap<V> {
    /// A copy holding the same bindings.
    fn clone(&self) -> (copy: Self)
        ensures
            copy@ == self@,
    {
        proof {
            use_type_invariant(self);
        }
        let listing = self.entries();
        AccountMap { entries: listing, model: Ghost(self@) }
    }
}

/// The index at which `name` is listed, if it is.
fn find_name<V>(listing: &Vec<(String, V)>, name: &str) -> (found: Option<usize>)
    ensures
        match found {
            Some(i) => i < listing@.len() && listing@[i as int].0@ == name@,
            None => forall|j: int| 0 <= j < listing@.len() ==> (#[trigger] listing@[j]).0@ != name@,
        },
{
    let key: String = name.to_owned();
    let mut i: usize = 0;
    while i < listing.len()
        invariant
            i <= listing@.len(),
            key@ == name@,
            forall|j: int| 0 <= j < i ==> (#[trigger] listing@[j]).0@ != name@,
        decreases listing@.len() - i,
    {
        if listing[i].0 == key {
            return Some(i);
        }
        i = i + 1;
    }
    None
}

proof fn lemma_listing_len<V>(listing: Seq<(String, V)>, map: Map<Seq<char>, V>)
    requires
        lists(listing, map),
    ensures
        map.dom().finite(),
        map.dom().len() == listing.len(),
    decreases listing.len(),
{
    if listing.len() == 0 {
        assert(map.dom() =~= Set::empty());
    } else {
        let last = listing.last();
        let rest = listing.drop_last();
        let smaller = map.remove(last.0@);
        assert forall|i: int, j: int|
            0 <= i < j < rest.len() implies (#[trigger] rest[i]).0@ != (#[trigger] rest[j]).0@ by {
            assert(listing[i].0@ != listing[j].0@);
        }
        assert forall|i: int| 0 <= i < rest.len() implies {
            &&& smaller.contains_key((#[trigger] rest[i]).0@)
            &&& smaller[rest[i].0@] == rest[i].1
        } by {
            assert(listing[i].0@ != listing[listing.len() - 1].0@);
        }
        assert forall|name: Seq<char>| smaller.contains_key(name) implies exists|i: int|
            0 <= i < rest.len() && (#[trigger] rest[i]).0@ == name by {
            let i = choose|i: int| 0 <= i < listing.len() && (#[trigger] listing[i]).0@ == name;
            assert(i != listing.len() - 1);
            assert(rest[i].0@ == name);
        }
        lemma_listing_len(rest, smaller);
        assert(map.dom() =~= smaller.dom().insert(last.0@));
    }
}

/// A set of account names.
pub struct NameSet {
    names: AccountMap<bool>,
}

impl View for NameSet {
    type V = Set<Seq<char>>;

    closed spec fn view(&self) -> Set<Seq<char>> {
        self.names@.dom()
    }
}

impl NameSet {
    pub fn new() -> (set: Self)
        ensures
            set@ == Set::<Seq<char>>::empty(),
    {
        let set = NameSet { names: AccountMap::new() };
        assert(set@ =~= Set::<Seq<char>>::empty());
        set
    }

    pub fn contains(&self, name: &str) -> (member: bool)
        ensures
            member == self@.contains(name@),
    {
        self.names.contains_key(name)
    }

    pub fn insert(&mut self, name: String)
        ensures
            final(self)@ == old(self)@.insert(name@),
    {
        self.names.insert(name, true);
        assert(self@ =~= old(self)@.insert(name@));
    }

    pub fn remove(&mut self, name: &str)
        ensures
            final(self)@ == old(self)@.remove(name@),
    {
        self.names.remove(name);
        assert(self@ =~= old(self)@.remove(name@));
    }

    pub fn len(&self) -> (n: usize)
        ensures
            n == self@.len(),
            self@.finite(),
    {
        self.names.len()
    }

    /// Every name, once each, in the order they were first added.
    pub fn names(&self) -> (names: Vec<String>)
        ensures
            forall|i: int, j: int| 0 <= i < j < names@.len() ==> (#[trigger] names@[i])@ != (#[trigger] names@[j])@,
            forall|i: int| 0 <= i < names@.len() ==> self@.contains((#[trigger] names@[i])@),
            forall|name: Seq<char>| #[trigger] self@.contains(name) ==> exists|i: int| 0 <= i < names@.len() && (
            #[trigger] names@[i])@ == name,
    {
        let listing = self.names.entries();
        let mut names: Vec<String> = Vec::new();
        let mut i: usize = 0;
        while i < listing.len()
            invariant
                i <= listing@.len(),
                lists(listing@, self.names@),
                names@.len() == i,
                forall|j: int| 0 <= j < i ==> (#[trigger] names@[j])@ == listing@[j].0@,
            decreases listing@.len() - i,
        {
            names.push(listing[i].0.clone());
            i = i + 1;
        }
        proof {
            assert forall|a: int, b: int| 0 <= a < b < names@.len() implies (#[trigger] names@[a])@ != (
            #[trigger] names@[b])@ by {
                assert(listing@[a].0@ != listing@[b].0@);
            }
            assert forall|name: Seq<char>| #[trigger] self@.contains(name) implies exists|j: int|
                0 <= j < names@.len() && (#[trigger] names@[j])@ == name by {
                let j = choose|j: int| 0 <= j < listing@.len() && (#[trigger] listing@[j]).0@ == name;
                assert(names@[j]@ == name);
            }
        }
        names
    }
}

impl Clone for NameSet {
    fn clone(&self) -> (copy: Self)
        ensures
            copy@ == self@,
    {
        NameSet { names: self.names.clone() }
    }
}

} // verus!
