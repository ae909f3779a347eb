use vstd::prelude::*;

use vstd::seq_lib::seq_to_set_is_finite;

verus! {

/// A set of function names: the declared-name namespace gathered during
/// parsing, and the active-call chain that guards against recursion during
/// inlining. Extending it builds a new set and leaves this one as it was, so sibling calls
/// never see each other's chains.
pub struct NameSet {
    names: Vec<String>,
}

impl View for NameSet {
    type V = Set<Seq<char>>;

    closed spec fn view(&self) -> Set<Seq<char>> {
        self.names@.map_values(|s: String| s@).to_set()
    }
}

pub broadcast proof fn lemma_name_set_finite(ns: &NameSet)
    ensures
        #[trigger] ns@.finite(),
{
    broadcast use seq_to_set_is_finite;

}

impl NameSet {
    /// The empty set of names.
    pub fn new() -> (r: Self)
        ensures
            r@ == Set::<Seq<char>>::empty(),
    {
        let r = NameSet { names: Vec::new() };
        proof {
            assert(r@ =~= Set::<Seq<char>>::empty());
        }
        r
    }

    /// Whether `name` is in the set.
    pub fn contains(&self, name: &String) -> (r: bool)
        ensures
            r == self@.contains(name@),
    {
        let ghost m = self.names@.map_values(|s: String| s@);
        let mut i: usize = 0;
        while i < self.names.len()
            invariant
                i <= self.names.len(),
                m == self.names@.map_values(|s: String| s@),
                forall|j: int| 0 <= j < i ==> m[j] != name@,
            decreases self.names.len() - i,
        {
            if self.names[i] == *name {
                assert(m[i as int] == name@);
                return true;
            }
            i = i + 1;
        }
        assert(!self@.contains(name@)) by {
            if m.contains(name@) {
                let j = choose|j: int| 0 <= j < m.len() && m[j] == name@;
                assert(m[j] == name@);
            }
        }
        false
    }

    /// A new set holding everything in this one plus `name`.
    pub fn insert_clone(&self, name: &String) -> (r: Self)
        ensures
            r@ == self@.insert(name@),
    {
        let mut v: Vec<String> = Vec::new();
        let mut i: usize = 0;
        while i < self.names.len()
            invariant
                i <= self.names.len(),
                v@.len() == i,
                forall|j: int| 0 <= j < i ==> v@[j]@ == self.names@[j]@,
            decreases self.names.len() - i,
        {
            v.push(self.names[i].clone());
            i = i + 1;
        }
        v.push(name.clone());
        let r = NameSet { names: v };
        proof {
            let mold = self.names@.map_values(|s: String| s@);
            let mnew = r.names@.map_values(|s: String| s@);
            assert(mnew =~= mold.push(name@));
            assert(r@ =~= self@.insert(name@)) by {
                assert forall|x: Seq<char>| r@.contains(x) implies self@.insert(name@).contains(
                    x,
                ) by {
                    let j = choose|j: int| 0 <= j < mnew.len() && mnew[j] == x;
                    if j < mold.len() {
                        assert(mold[j] == x);
                    }
                }
                assert forall|x: Seq<char>| self@.insert(name@).contains(x) implies r@.contains(
                    x,
                ) by {
                    if x == name@ {
                        assert(mnew[mnew.len() - 1] == x);
                    } else {
                        let j = choose|j: int| 0 <= j < mold.len() && mold[j] == x;
                        assert(mnew[j] == x);
                    }
                }
            };
        }
        r
    }
}

} // verus!
