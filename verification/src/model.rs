//! The immutable world description: rooms, exits, items, non-player
//! characters, conditional text and scripted actions. Built once by a loader,
//! read-only during play.
use vstd::prelude::*;

use crate::text::str_eq;

verus! {

/// Where an item is: in a room, carried, inside another item, or held by an
/// NPC. Every item has exactly one location at any time.
#[derive(Debug)]
pub enum ItemLocation {
    Room(String),
    Inventory,
    Item(String),
    Npc(String),
}

/// The abstract value of an item location.
pub enum LocV {
    Room(Seq<char>),
    Inventory,
    Item(Seq<char>),
    Npc(Seq<char>),
}

impl View for ItemLocation {
    type V = LocV;

    open spec fn view(&self) -> LocV {
        match self {
            ItemLocation::Room(r) => LocV::Room(r@),
            ItemLocation::Inventory => LocV::Inventory,
            ItemLocation::Item(p) => LocV::Item(p@),
            ItemLocation::Npc(n) => LocV::Npc(n@),
        }
    }
}

impl ItemLocation {
    /// An equal location value.
    pub fn duplicate(&self) -> (r: ItemLocation)
        ensures
            r@ == self@,
    {
        match self {
            ItemLocation::Room(s) => ItemLocation::Room(s.clone()),
            ItemLocation::Inventory => ItemLocation::Inventory,
            ItemLocation::Item(s) => ItemLocation::Item(s.clone()),
            ItemLocation::Npc(s) => ItemLocation::Npc(s.clone()),
        }
    }
}

/// A scripted action: verb phrases, optional noun gates, response text,
/// effects, conditions, and scope / inventory requirements.
pub struct Action {
    pub id: String,
    pub verbs: Vec<String>,
    pub nouns: Vec<String>,
    pub response: String,
    pub effects: Vec<String>,
    pub conditions: Vec<String>,
    pub scope_requirements: Vec<String>,
    pub requires_inventory: Vec<String>,
    pub missing_inventory_text: Option<String>,
    pub missing_scope_text: Option<String>,
}

/// A conditional extra description fragment of a room.
pub struct StateDesc {
    pub conditions: Vec<String>,
    pub text: String,
}

/// An exit of a room: direction label, target room, verb synonyms, and
/// visibility conditions.
pub struct Exit {
    pub direction: String,
    pub target: String,
    pub verbs: Vec<String>,
    pub conditions: Vec<String>,
}

/// A room: identity, descriptions, exits, scoped actions, and conditional
/// description fragments.
pub struct Room {
    pub id: String,
    pub name: String,
    pub desc: String,
    pub exits: Vec<Exit>,
    pub actions: Vec<Action>,
    pub state_descs: Vec<StateDesc>,
}

/// Container behaviour of an item: capacity, interaction conditions,
/// completion tracking, accepted store verbs and preposition.
pub struct ContainerProps {
    pub capacity: Option<usize>,
    pub conditions: Vec<String>,
    pub complete_when: Vec<String>,
    pub complete_flag: Option<String>,
    pub closed_text: String,
    pub complete_text: Option<String>,
    pub verbs: Vec<String>,
    pub prep: String,
}

/// What kind of item this is: a closed variant set.
pub enum ItemKind {
    Simple,
    Container(ContainerProps),
}

/// An item: identity, name and aliases, texts, visibility conditions,
/// portability, kind, and starting location.
pub struct Item {
    pub id: String,
    pub name: String,
    pub aliases: Vec<String>,
    pub room_text: String,
    pub inventory_text: String,
    pub examine_text: String,
    pub conditions: Vec<String>,
    pub portable: bool,
    pub kind: ItemKind,
    pub start_location: ItemLocation,
}

/// A world-wide conditional event: fires when its conditions hold, optionally
/// restricted by room, optionally only once.
pub struct GlobalCondition {
    pub id: String,
    pub conditions: Vec<String>,
    pub allowed_rooms: Vec<String>,
    pub disallowed_rooms: Vec<String>,
    pub response: String,
    pub effects: Vec<String>,
    pub one_shot: bool,
}

/// Roaming behaviour of an NPC.
pub struct NpcRoam {
    pub enabled: bool,
    pub allowed_rooms: Vec<String>,
    pub chance_percent: u8,
}

/// One dialogue entry of an NPC.
pub struct NpcDialogue {
    pub id: String,
    pub conditions: Vec<String>,
    pub response: String,
    pub effects: Vec<String>,
    pub one_shot: bool,
}

/// A non-player character.
pub struct Npc {
    pub id: String,
    pub name: String,
    pub aliases: Vec<String>,
    pub start_room: String,
    pub room_text: String,
    pub examine_text: String,
    pub conditions: Vec<String>,
    pub actions: Vec<Action>,
    pub roam: Option<NpcRoam>,
    pub block_movement: bool,
    pub block_conditions: Vec<String>,
    pub block_text: Option<String>,
    pub block_exits: Vec<String>,
    pub foe: bool,
    pub attack_chance_percent: u8,
    pub attack_text: Option<String>,
    pub attack_effects: Vec<String>,
    pub dialogue: Vec<NpcDialogue>,
}

/// The whole static world description.
pub struct World {
    pub id: String,
    pub name: String,
    pub desc: String,
    pub start_room: String,
    pub rooms: Vec<Room>,
    pub items: Vec<Item>,
    pub npcs: Vec<Npc>,
    pub global_conditions: Vec<GlobalCondition>,
    pub global_actions: Vec<Action>,
}

/// Whether some room in the sequence carries the given id.
pub open spec fn spec_has_room(rooms: Seq<Room>, id: Seq<char>) -> bool {
    exists|i: int| 0 <= i < rooms.len() && rooms[i].id@ == id
}

/// Whether some item in the sequence carries the given id.
pub open spec fn spec_has_item(items: Seq<Item>, id: Seq<char>) -> bool {
    exists|i: int| 0 <= i < items.len() && items[i].id@ == id
}

/// Whether some NPC in the sequence carries the given id.
pub open spec fn spec_has_npc(npcs: Seq<Npc>, id: Seq<char>) -> bool {
    exists|i: int| 0 <= i < npcs.len() && npcs[i].id@ == id
}

/// The index of the item with the given id, when there is exactly one.
pub open spec fn spec_item_index(items: Seq<Item>, id: Seq<char>) -> int {
    choose|i: int| 0 <= i < items.len() && items[i].id@ == id
}

/// The index of the room with the given id, when there is exactly one.
pub open spec fn spec_room_index(rooms: Seq<Room>, id: Seq<char>) -> int {
    choose|i: int| 0 <= i < rooms.len() && rooms[i].id@ == id
}

/// In a well-formed room list, any index whose room carries the id is the
/// chosen index.
pub proof fn lemma_room_index_unique(rooms: Seq<Room>, i: int)
    requires
        forall|k: int, l: int| 0 <= k < l < rooms.len() ==> rooms[k].id@ != rooms[l].id@,
        0 <= i < rooms.len(),
    ensures
        spec_room_index(rooms, rooms[i].id@) == i,
{
    assert(0 <= i < rooms.len() && rooms[i].id@ == rooms[i].id@);
    let j = spec_room_index(rooms, rooms[i].id@);
    if i < j {
        assert(rooms[i].id@ != rooms[j].id@);
    } else if j < i {
        assert(rooms[j].id@ != rooms[i].id@);
    }
}

/// In a well-formed item list, any index whose item carries the id is the
/// chosen index.
pub proof fn lemma_item_index_unique(items: Seq<Item>, i: int)
    requires
        forall|k: int, l: int| 0 <= k < l < items.len() ==> items[k].id@ != items[l].id@,
        0 <= i < items.len(),
    ensures
        spec_item_index(items, items[i].id@) == i,
{
    assert(0 <= i < items.len() && items[i].id@ == items[i].id@);
    let j = spec_item_index(items, items[i].id@);
    if i < j {
        assert(items[i].id@ != items[j].id@);
    } else if j < i {
        assert(items[j].id@ != items[i].id@);
    }
}

impl World {
    /// Ids are unique within each of the three entity families.
    pub open spec fn wf(&self) -> bool {
        &&& forall|i: int, j: int|
            0 <= i < j < self.rooms@.len() ==> self.rooms@[i].id@ != self.rooms@[j].id@
        &&& forall|i: int, j: int|
            0 <= i < j < self.items@.len() ==> self.items@[i].id@ != self.items@[j].id@
        &&& forall|i: int, j: int|
            0 <= i < j < self.npcs@.len() ==> self.npcs@[i].id@ != self.npcs@[j].id@
    }

    /// Finds the room with the given id.
    pub fn room_index(&self, id: &str) -> (r: Option<usize>)
        ensures
            match r {
                Some(i) => i < self.rooms@.len() && self.rooms@[i as int].id@ == id@
                    && spec_has_room(self.rooms@, id@),
                None => !spec_has_room(self.rooms@, id@),
            },
    {
        let n = self.rooms.len();
        let mut i: usize = 0;
        while i < n
            invariant
                i <= n,
                n == self.rooms@.len(),
                forall|k: int| 0 <= k < i ==> self.rooms@[k].id@ != id@,
            decreases n - i,
        {
            if str_eq(self.rooms[i].id.as_str(), id) {
                return Some(i);
            }
            i += 1;
        }
        None
    }

    /// Finds the item with the given id.
    pub fn item_index(&self, id: &str) -> (r: Option<usize>)
        ensures
            match r {
                Some(i) => i < self.items@.len() && self.items@[i as int].id@ == id@
                    && spec_has_item(self.items@, id@),
                None => !spec_has_item(self.items@, id@),
            },
    {
        let n = self.items.len();
        let mut i: usize = 0;
        while i < n
            invariant
                i <= n,
                n == self.items@.len(),
                forall|k: int| 0 <= k < i ==> self.items@[k].id@ != id@,
            decreases n - i,
        {
            if str_eq(self.items[i].id.as_str(), id) {
                return Some(i);
            }
            i += 1;
        }
        None
    }

    /// Finds the NPC with the given id.
    pub fn npc_index(&self, id: &str) -> (r: Option<usize>)
        ensures
            match r {
                Some(i) => i < self.npcs@.len() && self.npcs@[i as int].id@ == id@
                    && spec_has_npc(self.npcs@, id@),
                None => !spec_has_npc(self.npcs@, id@),
            },
    {
        let n = self.npcs.len();
        let mut i: usize = 0;
        while i < n
            invariant
                i <= n,
                n == self.npcs@.len(),
                forall|k: int| 0 <= k < i ==> self.npcs@[k].id@ != id@,
            decreases n - i,
        {
            if str_eq(self.npcs[i].id.as_str(), id) {
                return Some(i);
            }
            i += 1;
        }
        None
    }

    /// Whether a room with the given id exists.
    pub fn has_room(&self, id: &str) -> (r: bool)
        ensures
            r == spec_has_room(self.rooms@, id@),
    {
        self.room_index(id).is_some()
    }
}

} // verus!
