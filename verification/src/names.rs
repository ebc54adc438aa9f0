//! A set of player names, kept in the order in which they were first added.
use vstd::prelude::*;

verus! {

/// A set of names. Each name is held once.
pub struct NameSet {
    names: Vec<String>,
}

impl NameSet {
    /// The names, in the order in which they were first added.
    pub closed spec fn elems(&self) -> Seq<Seq<char>> {
        self.names@.map_values(|s: String| s@)
    }

    #[verifier::type_invariant]
    spec fn each_once(&self) -> bool {
        self.elems().no_duplicates()
    }

    /// The set of names held.
    pub closed spec fn set(&self) -> Set<Seq<char>> {
        self.elems().to_set()
    }

    /// An empty set.
    pub fn new() -> (r: NameSet)
        ensures
            r@ == Set::<Seq<char>>::empty(),
            r.elems() == Seq::<Seq<char>>::empty(),
    {
        let r = NameSet { names: Vec::new() };
        assert(r.elems() =~= Seq::<Seq<char>>::empty());
        assert(r.elems().to_set() =~= Set::<Seq<char>>::empty());
        r
    }

    /// Whether `name` is held.
    pub fn contains(&self, name: &String) -> (b: bool)
        ensures
            b == self@.contains(name@),
    {
        let mut i: usize = 0;
        while i < self.names.len()
            invariant
                i <= self.names@.len(),
                forall|k: int| 0 <= k < i ==> self.elems()[k] != name@,
            decreases self.names@.len() - i,
        {
            if self.names[i] == *name {
                assert(self.elems()[i as int] == name@);
                return true;
            }
            i = i + 1;
        }
        assert(!self.elems().contains(name@));
        false
    }

    /// Adds `name`; tells whether it was new.
    pub fn insert(&mut self, name: String) -> (fresh: bool)
        ensures
            final(self)@ == old(self)@.insert(name@),
            fresh == !old(self)@.contains(name@),
            final(self).elems() == (if fresh {
                old(self).elems().push(name@)
            } else {
                old(self).elems()
            }),
    {
        proof {
            use_type_invariant(&*self);
        }
        if self.contains(&name) {
            assert(self@.insert(name@) =~= self@);
            return false;
        }
        let ghost old_elems = self.elems();
        let mut names: Vec<String> = Vec::new();
        std::mem::swap(&mut names, &mut self.names);
        names.push(name);
        proof {
            let e = names@.map_values(|s: String| s@);
            assert(e =~= old_elems.push(name@));
            old_elems.lemma_push_to_set_commute(name@);
        }
        self.names = names;
        true
    }

    /// Adds every name of `other`.
    pub fn extend(&mut self, other: &NameSet)
        ensures
            final(self)@ == old(self)@.union(other@),
    {
        let mut i: usize = 0;
        let ghost start = self@;
        while i < other.names.len()
            invariant
                i <= other.names@.len(),
                self@ == start.union(other.elems().take(i as int).to_set()),
            decreases other.names@.len() - i,
        {
            let name = other.names[i].clone();
            self.insert(name);
            proof {
                assert(other.elems().take(i + 1) =~= other.elems().take(i as int).push(other.elems()[i as int]));
                other.elems().take(i as int).lemma_push_to_set_commute(other.elems()[i as int]);
                assert(self@ =~= start.union(other.elems().take(i + 1).to_set()));
            }
            i = i + 1;
        }
        assert(other.elems().take(other.names@.len() as int) =~= other.elems());
    }

    /// The number of names held.
    pub fn len(&self) -> (n: usize)
        ensures
            n == self@.len(),
    {
        proof {
            use_type_invariant(self);
            self.elems().unique_seq_to_set();
        }
        self.names.len()
    }

    /// Some name held, if any.
    pub fn first(&self) -> (r: Option<String>)
        ensures
            r is None <==> self@.is_empty(),
            r matches Some(n) ==> self@.contains(n@),
    {
        if self.names.len() == 0 {
            assert(self.elems() =~= Seq::<Seq<char>>::empty());
            assert(self@ =~= Set::<Seq<char>>::empty());
            None
        } else {
            let n = self.names[0].clone();
            assert(self.elems()[0] == n@);
            assert(self@.contains(n@));
            Some(n)
        }
    }

    /// The names, in the order in which they were first added.
    pub fn to_vec(&self) -> (v: Vec<String>)
        ensures
            v@.map_values(|s: String| s@) == self.elems(),
            self.elems().no_duplicates(),
            self.elems().to_set() == self@,
    {
        proof {
            use_type_invariant(self);
        }
        let v = self.names.clone();
        assert(v@.map_values(|s: String| s@) =~= self.elems());
        v
    }
}

impl View for NameSet {
    type V = Set<Seq<char>>;

    open spec fn view(&self) -> Set<Seq<char>> {
        self.set()
    }
}

} // verus!
