//! The flag set: the entire mutable "world memory" is a set of named boolean
//! facts. A flag is present or absent; nothing else is stored.
use vstd::prelude::*;
use vstd::string::*;

use crate::text::str_eq;

verus! {

/// A set of flag names. The abstract value is the set of the names' views.
pub struct FlagSet {
    pub items: Vec<String>,
}

impl View for FlagSet {
    type V = Set<Seq<char>>;

    open spec fn view(&self) -> Set<Seq<char>> {
        Set::new(|f: Seq<char>| exists|i: int| 0 <= i < self.items@.len() && self.items@[i]@ == f)
    }
}

impl FlagSet {
    /// The empty flag set.
    pub fn new() -> (r: FlagSet)
        ensures
            r@ == Set::<Seq<char>>::empty(),
            r.items@.len() == 0,
    {
        let r = FlagSet { items: Vec::new() };
        proof {
            assert(r@ =~= Set::<Seq<char>>::empty());
        }
        r
    }

    /// Membership test.
    pub fn contains(&self, f: &str) -> (r: bool)
        ensures
            r == self@.contains(f@),
    {
        let n = self.items.len();
        let mut i: usize = 0;
        while i < n
            invariant
                i <= n,
                n == self.items@.len(),
                forall|k: int| 0 <= k < i ==> self.items@[k]@ != f@,
            decreases n - i,
        {
            if str_eq(self.items[i].as_str(), f) {
                assert(self.items@[i as int]@ == f@);
                return true;
            }
            i += 1;
        }
        false
    }

    /// Adds a flag; adding a present flag changes nothing.
    pub fn insert(&mut self, f: &str)
        ensures
            final(self)@ == old(self)@.insert(f@),
    {
        if self.contains(f) {
            proof {
                assert(self@ =~= old(self)@.insert(f@));
            }
        } else {
            let ghost n0 = self.items@.len() as int;
            self.items.push(String::from_str(f));
            proof {
                assert(self.items@[n0]@ == f@);
                assert forall|g: Seq<char>| self@.contains(g) implies old(self)@.insert(
                    f@,
                ).contains(g) by {
                    let i = choose|i: int|
                        0 <= i < self.items@.len() && self.items@[i]@ == g;
                    if i < n0 {
                        assert(old(self).items@[i]@ == g);
                        assert(old(self)@.contains(g));
                    } else {
                        assert(g == f@);
                    }
                }
                assert forall|g: Seq<char>| old(self)@.insert(f@).contains(g) implies self@.contains(
                    g,
                ) by {
                    if g == f@ {
                        assert(self.items@[n0]@ == g);
                    } else {
                        let i = choose|i: int|
                            0 <= i < old(self).items@.len() && old(self).items@[i]@ == g;
                        assert(self.items@[i]@ == g);
                    }
                }
                assert(self@ =~= old(self)@.insert(f@));
            }
        }
    }

    /// Removes a flag; removing an absent flag changes nothing.
    pub fn remove(&mut self, f: &str)
        ensures
            final(self)@ == old(self)@.remove(f@),
    {
        let n = self.items.len();
        let mut kept: Vec<String> = Vec::new();
        let mut i: usize = 0;
        while i < n
            invariant
                i <= n,
                n == old(self).items@.len(),
                self.items@ == old(self).items@,
                forall|k: int|
                    0 <= k < kept@.len() ==> #[trigger] kept@[k]@ != f@ && exists|j: int|
                        0 <= j < i && old(self).items@[j]@ == kept@[k]@,
                forall|j: int|
                    0 <= j < i && old(self).items@[j]@ != f@ ==> exists|k: int|
                        0 <= k < kept@.len() && kept@[k]@ == #[trigger] old(self).items@[j]@,
            decreases n - i,
        {
            let ghost kept0 = kept@;
            if !str_eq(self.items[i].as_str(), f) {
                let s = self.items[i].clone();
                kept.push(s);
            }
            proof {
                assert forall|j: int|
                    0 <= j < i + 1 && old(self).items@[j]@ != f@ implies exists|k: int|
                        0 <= k < kept@.len() && kept@[k]@ == #[trigger] old(self).items@[j]@ by {
                    if j < i {
                        let k = choose|k: int|
                            0 <= k < kept0.len() && kept0[k]@ == old(self).items@[j]@;
                        assert(kept@[k]@ == old(self).items@[j]@);
                    } else {
                        assert(kept@[kept@.len() - 1]@ == old(self).items@[j]@);
                    }
                }
            }
            i += 1;
        }
        self.items = kept;
        proof {
            assert forall|g: Seq<char>| self@.contains(g) implies old(self)@.remove(f@).contains(
                g,
            ) by {
                let k = choose|k: int| 0 <= k < self.items@.len() && self.items@[k]@ == g;
                let j = choose|j: int| 0 <= j < n && old(self).items@[j]@ == self.items@[k]@;
                assert(old(self)@.contains(g));
            }
            assert forall|g: Seq<char>| old(self)@.remove(f@).contains(g) implies self@.contains(
                g,
            ) by {
                let j = choose|j: int|
                    0 <= j < old(self).items@.len() && old(self).items@[j]@ == g;
                let k = choose|k: int|
                    0 <= k < self.items@.len() && self.items@[k]@ == old(self).items@[j]@;
                assert(self@.contains(g));
            }
            assert(self@ =~= old(self)@.remove(f@));
        }
    }

    /// Whether the set is empty.
    pub fn is_empty(&self) -> (r: bool)
        ensures
            r == (self@ == Set::<Seq<char>>::empty()),
    {
        if self.items.len() == 0 {
            proof {
                assert(self@ =~= Set::<Seq<char>>::empty());
            }
            true
        } else {
            proof {
                assert(self@.contains(self.items@[0]@));
            }
            false
        }
    }

    /// The flags present in exactly one of the two sets.
    pub fn sym_diff(&self, other: &FlagSet) -> (r: FlagSet)
        ensures
            r@ == self@.difference(other@).union(other@.difference(self@)),
    {
        let mut r = FlagSet::new();
        let na = self.items.len();
        let mut i: usize = 0;
        while i < na
            invariant
                i <= na,
                na == self.items@.len(),
                forall|g: Seq<char>|
                    #[trigger] r@.contains(g) == ((exists|k: int|
                        0 <= k < i && self.items@[k]@ == g) && !other@.contains(g)),
            decreases na - i,
        {
            let ghost r0 = r@;
            if !other.contains(self.items[i].as_str()) {
                r.insert(self.items[i].as_str());
            }
            proof {
                assert forall|g: Seq<char>|
                    #[trigger] r@.contains(g) == ((exists|k: int|
                        0 <= k < i + 1 && self.items@[k]@ == g) && !other@.contains(g)) by {
                    if r@.contains(g) {
                        if r0.contains(g) {
                            let k = choose|k: int| 0 <= k < i && self.items@[k]@ == g;
                            assert(0 <= k < i + 1 && self.items@[k]@ == g);
                        } else {
                            assert(self.items@[i as int]@ == g);
                        }
                    }
                    if (exists|k: int| 0 <= k < i + 1 && self.items@[k]@ == g) && !other@.contains(
                        g,
                    ) {
                        let k = choose|k: int| 0 <= k < i + 1 && self.items@[k]@ == g;
                        if k < i {
                            assert(r0.contains(g));
                        }
                    }
                }
            }
            i += 1;
        }
        let ghost ra = r@;
        let nb = other.items.len();
        let mut j: usize = 0;
        while j < nb
            invariant
                j <= nb,
                nb == other.items@.len(),
                forall|g: Seq<char>|
                    #[trigger] r@.contains(g) == (ra.contains(g) || ((exists|k: int|
                        0 <= k < j && other.items@[k]@ == g) && !self@.contains(g))),
            decreases nb - j,
        {
            let ghost r0 = r@;
            if !self.contains(other.items[j].as_str()) {
                r.insert(other.items[j].as_str());
            }
            proof {
                assert forall|g: Seq<char>|
                    #[trigger] r@.contains(g) == (ra.contains(g) || ((exists|k: int|
                        0 <= k < j + 1 && other.items@[k]@ == g) && !self@.contains(g))) by {
                    if r@.contains(g) && !r0.contains(g) {
                        assert(other.items@[j as int]@ == g);
                    }
                    if !r@.contains(g) && (exists|k: int|
                        0 <= k < j + 1 && other.items@[k]@ == g) && !self@.contains(g) {
                        let k = choose|k: int| 0 <= k < j + 1 && other.items@[k]@ == g;
                        if k < j {
                            assert(r0.contains(g));
                        }
                    }
                }
            }
            j += 1;
        }
        proof {
            assert forall|g: Seq<char>|
                r@.contains(g) == #[trigger] self@.difference(other@).union(
                    other@.difference(self@),
                ).contains(g) by {
                if self@.contains(g) && !other@.contains(g) {
                    let k = choose|k: int|
                        0 <= k < self.items@.len() && self.items@[k]@ == g;
                    assert(ra.contains(g));
                }
                if other@.contains(g) && !self@.contains(g) {
                    let k = choose|k: int|
                        0 <= k < other.items@.len() && other.items@[k]@ == g;
                    assert(r@.contains(g));
                }
                if ra.contains(g) {
                    assert(self@.contains(g) && !other@.contains(g));
                }
            }
            assert(r@ =~= self@.difference(other@).union(other@.difference(self@)));
        }
        r
    }

    /// An equal flag set, element by element.
    pub fn duplicate(&self) -> (r: FlagSet)
        ensures
            r@ == self@,
    {
        let n = self.items.len();
        let mut items: Vec<String> = Vec::new();
        let mut i: usize = 0;
        while i < n
            invariant
                i <= n,
                n == self.items@.len(),
                items@.len() == i,
                forall|k: int| 0 <= k < i ==> items@[k]@ == self.items@[k]@,
            decreases n - i,
        {
            items.push(self.items[i].clone());
            i += 1;
        }
        let r = FlagSet { items };
        proof {
            assert forall|g: Seq<char>| r@.contains(g) implies self@.contains(g) by {
                let k = choose|k: int| 0 <= k < r.items@.len() && r.items@[k]@ == g;
                assert(self.items@[k]@ == g);
            }
            assert forall|g: Seq<char>| self@.contains(g) implies r@.contains(g) by {
                let k = choose|k: int| 0 <= k < self.items@.len() && self.items@[k]@ == g;
                assert(r.items@[k]@ == g);
            }
            assert(r@ =~= self@);
        }
        r
    }
}

} // verus!
