//! Mutable placement state: which location each item is at, and which room
//! each NPC is in. Both are maps keyed by entity id.
use vstd::prelude::*;
use vstd::string::*;

use crate::model::{ItemLocation, LocV};
use crate::text::str_eq;

verus! {

/// One entry of the item-location map.
pub struct LocEntry {
    pub id: String,
    pub loc: ItemLocation,
}

/// The item-location map. An item with no entry has been consumed and is
/// nowhere in the world.
pub struct LocMap {
    pub entries: Vec<LocEntry>,
}

/// Occupants of a container counted among the first `n` entries.
pub open spec fn count_inside_upto(entries: Seq<LocEntry>, cid: Seq<char>, n: nat) -> nat
    decreases n,
{
    if n == 0 {
        0
    } else {
        count_inside_upto(entries, cid, (n - 1) as nat) + (match entries[n - 1].loc@ {
            LocV::Item(p) => if p == cid { 1 as nat } else { 0 as nat },
            _ => 0 as nat,
        })
    }
}

impl View for LocMap {
    type V = Map<Seq<char>, LocV>;

    /// The abstract value: a finite map from item id to location.
    open spec fn view(&self) -> Map<Seq<char>, LocV> {
        Map::new(|k: Seq<char>| self.has(k), |k: Seq<char>| self.at(k))
    }
}

impl LocMap {
    /// Keys are unique.
    pub open spec fn wf(&self) -> bool {
        forall|i: int, j: int|
            0 <= i < j < self.entries@.len() ==> self.entries@[i].id@ != self.entries@[j].id@
    }

    /// Whether the map has an entry for the id.
    pub open spec fn has(&self, id: Seq<char>) -> bool {
        exists|i: int| 0 <= i < self.entries@.len() && self.entries@[i].id@ == id
    }

    /// The location stored under the id (meaningful when `has` holds).
    pub open spec fn at(&self, id: Seq<char>) -> LocV {
        let i = choose|i: int| 0 <= i < self.entries@.len() && self.entries@[i].id@ == id;
        self.entries@[i].loc@
    }

    pub proof fn lemma_at(&self, i: int)
        requires
            self.wf(),
            0 <= i < self.entries@.len(),
        ensures
            self.has(self.entries@[i].id@),
            self.at(self.entries@[i].id@) == self.entries@[i].loc@,
    {
        assert(0 <= i < self.entries@.len() && self.entries@[i].id@ == self.entries@[i].id@);
        let j = choose|j: int|
            0 <= j < self.entries@.len() && self.entries@[j].id@ == self.entries@[i].id@;
        if i < j {
            assert(self.entries@[i].id@ != self.entries@[j].id@);
        } else if j < i {
            assert(self.entries@[j].id@ != self.entries@[i].id@);
        }
    }

    /// The abstract map agrees with `has` and `at`.
    pub proof fn lemma_view_facts(&self)
        ensures
            forall|k: Seq<char>| #[trigger] self@.dom().contains(k) == self.has(k),
            forall|k: Seq<char>| self.has(k) ==> #[trigger] self@[k] == self.at(k),
    {
    }

    /// The empty map.
    pub fn new() -> (r: LocMap)
        ensures
            r.wf(),
            r.entries@.len() == 0,
            forall|g: Seq<char>| !r.has(g),
    {
        LocMap { entries: Vec::new() }
    }

    /// Looks an item up.
    pub fn get(&self, id: &str) -> (r: Option<ItemLocation>)
        requires
            self.wf(),
        ensures
            r is Some <==> self.has(id@),
            r matches Some(l) ==> l@ == self.at(id@),
    {
        let n = self.entries.len();
        let mut i: usize = 0;
        while i < n
            invariant
                i <= n,
                n == self.entries@.len(),
                forall|k: int| 0 <= k < i ==> self.entries@[k].id@ != id@,
            decreases n - i,
        {
            if str_eq(self.entries[i].id.as_str(), id) {
                proof {
                    self.lemma_at(i as int);
                }
                return Some(self.entries[i].loc.duplicate());
            }
            i += 1;
        }
        None
    }

    /// Stores a location under the id, replacing any existing entry.
    pub fn set(&mut self, id: &str, loc: ItemLocation)
        requires
            old(self).wf(),
        ensures
            final(self).wf(),
            final(self)@ == old(self)@.insert(id@, loc@),
            forall|g: Seq<char>| final(self).has(g) == (old(self).has(g) || g == id@),
            final(self).at(id@) == loc@,
            forall|g: Seq<char>|
                g != id@ && old(self).has(g) ==> final(self).at(g) == old(self).at(g),
            !old(self).has(id@) ==> final(self).entries@.len() == old(self).entries@.len() + 1
                && (forall|k: int|
                0 <= k < old(self).entries@.len() ==> final(self).entries@[k] == old(
                    self,
                ).entries@[k]) && final(self).entries@[old(self).entries@.len() as int].id@ == id@
                && final(self).entries@[old(self).entries@.len() as int].loc@ == loc@,
    {
        let n = self.entries.len();
        let mut i: usize = 0;
        while i < n
            invariant
                i <= n,
                n == self.entries@.len(),
                self.entries@ == old(self).entries@,
                forall|k: int| 0 <= k < i ==> self.entries@[k].id@ != id@,
            decreases n - i,
        {
            if str_eq(self.entries[i].id.as_str(), id) {
                let e = LocEntry { id: String::from_str(id), loc };
                self.entries.set(i, e);
                proof {
                    assert(self.entries@.len() == old(self).entries@.len());
                    assert forall|g: Seq<char>| final(self).has(g) == (old(self).has(g) || g
                        == id@) by {
                        if self.has(g) {
                            let k = choose|k: int|
                                0 <= k < self.entries@.len() && self.entries@[k].id@ == g;
                            if k != i {
                                assert(old(self).entries@[k].id@ == g);
                            }
                        }
                        if old(self).has(g) {
                            let k = choose|k: int|
                                0 <= k < old(self).entries@.len() && old(self).entries@[k].id@
                                    == g;
                            if k != i {
                                assert(self.entries@[k].id@ == g);
                            } else {
                                assert(self.entries@[i as int].id@ == id@);
                            }
                        }
                        if g == id@ {
                            assert(self.entries@[i as int].id@ == g);
                        }
                    }
                    self.lemma_at(i as int);
                    assert forall|g: Seq<char>|
                        g != id@ && old(self).has(g) implies final(self).at(g) == old(self).at(
                        g,
                    ) by {
                        let k = choose|k: int|
                            0 <= k < old(self).entries@.len() && old(self).entries@[k].id@ == g;
                        assert(self.entries@[k].id@ == g);
                        self.lemma_at(k);
                        old(self).lemma_at(k);
                    }
                    assert(self@ =~= old(self)@.insert(id@, loc@));
                }
                return ;
            }
            i += 1;
        }
        let e = LocEntry { id: String::from_str(id), loc };
        self.entries.push(e);
        proof {
            assert(self.entries@[n as int].id@ == id@);
            assert forall|k: int, l: int|
                0 <= k < l < self.entries@.len() implies self.entries@[k].id@
                != self.entries@[l].id@ by {
                if l < n {
                    assert(old(self).entries@[k].id@ != old(self).entries@[l].id@);
                }
            }
            assert forall|g: Seq<char>| final(self).has(g) == (old(self).has(g) || g == id@) by {
                if self.has(g) {
                    let k = choose|k: int|
                        0 <= k < self.entries@.len() && self.entries@[k].id@ == g;
                    if k < n {
                        assert(old(self).entries@[k].id@ == g);
                    }
                }
                if old(self).has(g) {
                    let k = choose|k: int|
                        0 <= k < old(self).entries@.len() && old(self).entries@[k].id@ == g;
                    assert(self.entries@[k].id@ == g);
                }
            }
            self.lemma_at(n as int);
            assert forall|g: Seq<char>|
                g != id@ && old(self).has(g) implies final(self).at(g) == old(self).at(g) by {
                let k = choose|k: int|
                    0 <= k < old(self).entries@.len() && old(self).entries@[k].id@ == g;
                assert(self.entries@[k].id@ == g);
                self.lemma_at(k);
                old(self).lemma_at(k);
            }
            assert(self@ =~= old(self)@.insert(id@, loc@));
        }
    }

    /// Deletes the entry under the id, if any: the item is consumed.
    pub fn remove(&mut self, id: &str)
        requires
            old(self).wf(),
        ensures
            final(self).wf(),
            final(self)@ == old(self)@.remove(id@),
            forall|g: Seq<char>| final(self).has(g) == (old(self).has(g) && g != id@),
            forall|g: Seq<char>|
                g != id@ && old(self).has(g) ==> final(self).at(g) == old(self).at(g),
    {
        let n = self.entries.len();
        let mut kept: Vec<LocEntry> = Vec::new();
        let mut i: usize = 0;
        while i < n
            invariant
                i <= n,
                n == old(self).entries@.len(),
                self.entries@ == old(self).entries@,
                old(self).wf(),
                forall|k: int, l: int| 0 <= k < l < kept@.len() ==> kept@[k].id@ != kept@[l].id@,
                forall|k: int|
                    0 <= k < kept@.len() ==> #[trigger] kept@[k].id@ != id@ && exists|j: int|
                        0 <= j < i && old(self).entries@[j].id@ == kept@[k].id@
                            && old(self).entries@[j].loc@ == kept@[k].loc@,
                forall|j: int|
                    0 <= j < i && old(self).entries@[j].id@ != id@ ==> exists|k: int|
                        0 <= k < kept@.len() && kept@[k].id@ == #[trigger] old(
                            self,
                        ).entries@[j].id@ && kept@[k].loc@ == old(self).entries@[j].loc@,
            decreases n - i,
        {
            let ghost kept0 = kept@;
            if !str_eq(self.entries[i].id.as_str(), id) {
                let e = LocEntry {
                    id: self.entries[i].id.clone(),
                    loc: self.entries[i].loc.duplicate(),
                };
                kept.push(e);
            }
            proof {
                assert forall|j: int|
                    0 <= j < i + 1 && old(self).entries@[j].id@ != id@ implies exists|k: int|
                        0 <= k < kept@.len() && kept@[k].id@ == #[trigger] old(
                            self,
                        ).entries@[j].id@ && kept@[k].loc@ == old(self).entries@[j].loc@ by {
                    if j < i {
                        let k = choose|k: int|
                            0 <= k < kept0.len() && kept0[k].id@ == old(self).entries@[j].id@
                                && kept0[k].loc@ == old(self).entries@[j].loc@;
                        assert(kept@[k].id@ == old(self).entries@[j].id@);
                    } else {
                        assert(kept@[kept@.len() - 1].id@ == old(self).entries@[j].id@);
                    }
                }
                assert forall|k: int, l: int|
                    0 <= k < l < kept@.len() implies kept@[k].id@ != kept@[l].id@ by {
                    if l == kept@.len() - 1 && kept@.len() > kept0.len() {
                        let j = choose|j: int|
                            0 <= j < i && old(self).entries@[j].id@ == kept0[k].id@ && old(
                                self,
                            ).entries@[j].loc@ == kept0[k].loc@;
                        assert(old(self).entries@[j].id@ != old(self).entries@[i as int].id@);
                    }
                }
            }
            i += 1;
        }
        self.entries = kept;
        proof {
            assert forall|g: Seq<char>| final(self).has(g) == (old(self).has(g) && g != id@) by {
                if self.has(g) {
                    let k = choose|k: int|
                        0 <= k < self.entries@.len() && self.entries@[k].id@ == g;
                    let j = choose|j: int|
                        0 <= j < n && old(self).entries@[j].id@ == self.entries@[k].id@ && old(
                            self,
                        ).entries@[j].loc@ == self.entries@[k].loc@;
                    assert(old(self).entries@[j].id@ == g);
                }
                if old(self).has(g) && g != id@ {
                    let j = choose|j: int|
                        0 <= j < old(self).entries@.len() && old(self).entries@[j].id@ == g;
                    let k = choose|k: int|
                        0 <= k < self.entries@.len() && self.entries@[k].id@ == old(
                            self,
                        ).entries@[j].id@ && self.entries@[k].loc@ == old(self).entries@[j].loc@;
                    assert(self.entries@[k].id@ == g);
                }
            }
            assert forall|g: Seq<char>|
                g != id@ && old(self).has(g) implies final(self).at(g) == old(self).at(g) by {
                let j = choose|j: int|
                    0 <= j < old(self).entries@.len() && old(self).entries@[j].id@ == g;
                old(self).lemma_at(j);
                let k = choose|k: int|
                    0 <= k < self.entries@.len() && self.entries@[k].id@ == old(
                        self,
                    ).entries@[j].id@ && self.entries@[k].loc@ == old(self).entries@[j].loc@;
                self.lemma_at(k);
            }
            assert(self@ =~= old(self)@.remove(id@));
        }
    }

    /// Counts the items currently located inside the given container.
    pub fn count_inside(&self, cid: &str) -> (r: usize)
        ensures
            r == count_inside_upto(self.entries@, cid@, self.entries@.len()),
    {
        let n = self.entries.len();
        let mut c: usize = 0;
        let mut i: usize = 0;
        while i < n
            invariant
                i <= n,
                n == self.entries@.len(),
                c <= i,
                c == count_inside_upto(self.entries@, cid@, i as nat),
            decreases n - i,
        {
            match &self.entries[i].loc {
                ItemLocation::Item(p) => {
                    if str_eq(p.as_str(), cid) {
                        c += 1;
                    }
                },
                _ => {},
            }
            i += 1;
        }
        c
    }
}

/// One entry of the NPC-location map.
pub struct NpcEntry {
    pub id: String,
    pub room: String,
}

/// The NPC-location map: which room each NPC currently stands in.
pub struct NpcMap {
    pub entries: Vec<NpcEntry>,
}

impl View for NpcMap {
    type V = Map<Seq<char>, Seq<char>>;

    /// The abstract value: a finite map from NPC id to room id.
    open spec fn view(&self) -> Map<Seq<char>, Seq<char>> {
        Map::new(|k: Seq<char>| self.has(k), |k: Seq<char>| self.at(k))
    }
}

impl NpcMap {
    /// Keys are unique.
    pub open spec fn wf(&self) -> bool {
        forall|i: int, j: int|
            0 <= i < j < self.entries@.len() ==> self.entries@[i].id@ != self.entries@[j].id@
    }

    /// Whether the map has an entry for the id.
    pub open spec fn has(&self, id: Seq<char>) -> bool {
        exists|i: int| 0 <= i < self.entries@.len() && self.entries@[i].id@ == id
    }

    /// The room stored under the id (meaningful when `has` holds).
    pub open spec fn at(&self, id: Seq<char>) -> Seq<char> {
        let i = choose|i: int| 0 <= i < self.entries@.len() && self.entries@[i].id@ == id;
        self.entries@[i].room@
    }

    pub proof fn lemma_at(&self, i: int)
        requires
            self.wf(),
            0 <= i < self.entries@.len(),
        ensures
            self.has(self.entries@[i].id@),
            self.at(self.entries@[i].id@) == self.entries@[i].room@,
    {
        assert(0 <= i < self.entries@.len() && self.entries@[i].id@ == self.entries@[i].id@);
        let j = choose|j: int|
            0 <= j < self.entries@.len() && self.entries@[j].id@ == self.entries@[i].id@;
        if i < j {
            assert(self.entries@[i].id@ != self.entries@[j].id@);
        } else if j < i {
            assert(self.entries@[j].id@ != self.entries@[i].id@);
        }
    }

    /// The empty map.
    pub fn new() -> (r: NpcMap)
        ensures
            r.wf(),
            r.entries@.len() == 0,
            forall|g: Seq<char>| !r.has(g),
    {
        NpcMap { entries: Vec::new() }
    }

    /// Looks an NPC's room up.
    pub fn get(&self, id: &str) -> (r: Option<String>)
        requires
            self.wf(),
        ensures
            r is Some <==> self.has(id@),
            r matches Some(s) ==> s@ == self.at(id@),
    {
        let n = self.entries.len();
        let mut i: usize = 0;
        while i < n
            invariant
                i <= n,
                n == self.entries@.len(),
                forall|k: int| 0 <= k < i ==> self.entries@[k].id@ != id@,
            decreases n - i,
        {
            if str_eq(self.entries[i].id.as_str(), id) {
                proof {
                    self.lemma_at(i as int);
                }
                return Some(self.entries[i].room.clone());
            }
            i += 1;
        }
        None
    }

    /// Stores a room under the id, replacing any existing entry.
    pub fn set(&mut self, id: &str, room: String)
        requires
            old(self).wf(),
        ensures
            final(self).wf(),
            final(self)@ == old(self)@.insert(id@, room@),
            forall|g: Seq<char>| final(self).has(g) == (old(self).has(g) || g == id@),
            final(self).at(id@) == room@,
            forall|g: Seq<char>|
                g != id@ && old(self).has(g) ==> final(self).at(g) == old(self).at(g),
            !old(self).has(id@) ==> final(self).entries@.len() == old(self).entries@.len() + 1
                && (forall|k: int|
                0 <= k < old(self).entries@.len() ==> final(self).entries@[k] == old(
                    self,
                ).entries@[k]) && final(self).entries@[old(self).entries@.len() as int].id@ == id@
                && final(self).entries@[old(self).entries@.len() as int].room@ == room@,
    {
        let n = self.entries.len();
        let mut i: usize = 0;
        while i < n
            invariant
                i <= n,
                n == self.entries@.len(),
                self.entries@ == old(self).entries@,
                forall|k: int| 0 <= k < i ==> self.entries@[k].id@ != id@,
            decreases n - i,
        {
            if str_eq(self.entries[i].id.as_str(), id) {
                let e = NpcEntry { id: String::from_str(id), room };
                self.entries.set(i, e);
                proof {
                    assert forall|g: Seq<char>| final(self).has(g) == (old(self).has(g) || g
                        == id@) by {
                        if self.has(g) {
                            let k = choose|k: int|
                                0 <= k < self.entries@.len() && self.entries@[k].id@ == g;
                            if k != i {
                                assert(old(self).entries@[k].id@ == g);
                            }
                        }
                        if old(self).has(g) {
                            let k = choose|k: int|
                                0 <= k < old(self).entries@.len() && old(self).entries@[k].id@
                                    == g;
                            if k != i {
                                assert(self.entries@[k].id@ == g);
                            } else {
                                assert(self.entries@[i as int].id@ == id@);
                            }
                        }
                        if g == id@ {
                            assert(self.entries@[i as int].id@ == g);
                        }
                    }
                    self.lemma_at(i as int);
                    assert forall|g: Seq<char>|
                        g != id@ && old(self).has(g) implies final(self).at(g) == old(self).at(
                        g,
                    ) by {
                        let k = choose|k: int|
                            0 <= k < old(self).entries@.len() && old(self).entries@[k].id@ == g;
                        assert(self.entries@[k].id@ == g);
                        self.lemma_at(k);
                        old(self).lemma_at(k);
                    }
                    assert(self@ =~= old(self)@.insert(id@, room@));
                }
                return ;
            }
            i += 1;
        }
        let e = NpcEntry { id: String::from_str(id), room };
        self.entries.push(e);
        proof {
            assert(self.entries@[n as int].id@ == id@);
            assert forall|k: int, l: int|
                0 <= k < l < self.entries@.len() implies self.entries@[k].id@
                != self.entries@[l].id@ by {
                if l < n {
                    assert(old(self).entries@[k].id@ != old(self).entries@[l].id@);
                }
            }
            assert forall|g: Seq<char>| final(self).has(g) == (old(self).has(g) || g == id@) by {
                if self.has(g) {
                    let k = choose|k: int|
                        0 <= k < self.entries@.len() && self.entries@[k].id@ == g;
                    if k < n {
                        assert(old(self).entries@[k].id@ == g);
                    }
                }
                if old(self).has(g) {
                    let k = choose|k: int|
                        0 <= k < old(self).entries@.len() && old(self).entries@[k].id@ == g;
                    assert(self.entries@[k].id@ == g);
                }
            }
            self.lemma_at(n as int);
            assert forall|g: Seq<char>|
                g != id@ && old(self).has(g) implies final(self).at(g) == old(self).at(g) by {
                let k = choose|k: int|
                    0 <= k < old(self).entries@.len() && old(self).entries@[k].id@ == g;
                assert(self.entries@[k].id@ == g);
                self.lemma_at(k);
                old(self).lemma_at(k);
            }
            assert(self@ =~= old(self)@.insert(id@, room@));
        }
    }
}

} // verus!
