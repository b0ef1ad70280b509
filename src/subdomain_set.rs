use vstd::prelude::*;

verus! {

/// The names held by a list of strings.
pub open spec fn names(items: Seq<String>) -> Seq<Seq<char>> {
    items.map_values(|s: String| s@)
}

/// The names of one more element of a list are those of the shorter list and that one.
pub proof fn lemma_take_one_more(s: Seq<Seq<char>>, i: int)
    requires
        0 <= i < s.len(),
    ensures
        s.take(i + 1).to_set() == s.take(i).to_set().insert(s[i]),
{
    broadcast use vstd::seq_lib::lemma_seq_contains_after_push;

    assert(s.take(i + 1) =~= s.take(i).push(s[i]));
    assert(s.take(i + 1).to_set() =~= s.take(i).to_set().insert(s[i]));
}

/// A set of distinct subdomain names, as received from the sources.
pub struct SubdomainSet {
    items: Vec<String>,
}

impl View for SubdomainSet {
    type V = Set<Seq<char>>;

    closed spec fn view(&self) -> Set<Seq<char>> {
        names(self.items@).to_set()
    }
}

impl SubdomainSet {
    #[verifier::type_invariant]
    closed spec fn distinct(&self) -> bool {
        names(self.items@).no_duplicates()
    }

    /// An empty set.
    pub fn new() -> (r: SubdomainSet)
        ensures
            r@ == Set::<Seq<char>>::empty(),
    {
        let r = SubdomainSet { items: Vec::new() };
        assert(r@ =~= Set::<Seq<char>>::empty());
        r
    }

    /// Whether `name` is in the set.
    pub fn contains(&self, name: &String) -> (r: bool)
        ensures
            r == self@.contains(name@),
    {
        let mut i: usize = 0;
        while i < self.items.len()
            invariant
                i <= self.items.len(),
                forall|j: int| 0 <= j < i ==> self.items@[j]@ != name@,
            decreases self.items.len() - i,
        {
            if self.items[i] == *name {
                assert(names(self.items@)[i as int] == name@);
                return true;
            }
            i = i + 1;
        }
        assert(!names(self.items@).contains(name@));
        false
    }

    /// Adds `name`; returns whether it was absent before.
    pub fn insert(&mut self, name: String) -> (r: bool)
        ensures
            final(self)@ == old(self)@.insert(name@),
            r == !old(self)@.contains(name@),
    {
        proof { use_type_invariant(&*self); }
        if self.contains(&name) {
            assert(old(self)@.insert(name@) =~= old(self)@);
            return false;
        }
        let ghost before = names(self.items@);
        let ghost v = name@;
        assert(!before.contains(v));
        let mut taken = SubdomainSet { items: Vec::new() };
        core::mem::swap(self, &mut taken);
        let mut items = taken.items;
        assert(names(items@) == before);
        items.push(name);
        assert(names(items@) =~= before.push(v));
        assert(names(items@).no_duplicates()) by {
            assert forall|a: int, b: int|
                0 <= a < names(items@).len() && 0 <= b < names(items@).len() && a != b implies
                names(items@)[a] != names(items@)[b] by {
                if a == before.len() as int {
                    assert(before[b] == names(items@)[b]);
                } else if b == before.len() as int {
                    assert(before[a] == names(items@)[a]);
                }
            }
        }
        *self = SubdomainSet { items };
        proof {
            broadcast use vstd::seq_lib::lemma_seq_contains_after_push;
            assert(self@ =~= old(self)@.insert(v));
        }
        true
    }

    /// Adds every name of `other` (set union).
    pub fn merge(&mut self, other: &SubdomainSet)
        ensures
            final(self)@ == old(self)@.union(other@),
    {
        let mut i: usize = 0;
        while i < other.items.len()
            invariant
                i <= other.items.len(),
                self@ == old(self)@.union(names(other.items@).take(i as int).to_set()),
            decreases other.items.len() - i,
        {
            let name = other.items[i].clone();
            self.insert(name);
            proof {
                lemma_take_one_more(names(other.items@), i as int);
            }
            i = i + 1;
        }
        assert(names(other.items@).take(i as int) =~= names(other.items@));
        assert(self@ =~= old(self)@.union(other@));
    }

    /// The number of names in the set.
    pub fn len(&self) -> (r: usize)
        ensures
            r == self@.len(),
    {
        proof {
            use_type_invariant(self);
            names(self.items@).unique_seq_to_set();
        }
        self.items.len()
    }

    /// The names, each once, in the order they were first added.
    pub fn to_vec(&self) -> (r: Vec<String>)
        ensures
            names(r@).to_set() == self@,
            names(r@).no_duplicates(),
    {
        proof { use_type_invariant(self); }
        self.items.clone()
    }
}

} // verus!
