//! Referential validation of a loaded world: every exit target, start
//! location, required item and room list must resolve, and phrase lists
//! must not hold blank entries.
use vstd::prelude::*;
use vstd::string::*;

use crate::model::{
    spec_has_item, spec_has_npc, spec_has_room, Action, GlobalCondition, Item, ItemKind,
    ItemLocation, Npc, Room, World,
};
use crate::text::{is_blank_str, spec_blank};

verus! {

/// One validation finding, as a human-readable message.
#[derive(Debug)]
pub struct ValidationError {
    pub message: String,
}

impl ValidationError {
    /// Wraps a message.
    pub fn new(msg: String) -> (r: ValidationError)
        ensures
            r.message@ == msg@,
    {
        ValidationError { message: msg }
    }
}

/// One action's references and phrases are sound: required items resolve
/// and no verb or noun entry is blank.
pub open spec fn spec_action_ok(items: Seq<Item>, a: Action) -> bool {
    &&& forall|k: int|
        0 <= k < a.requires_inventory@.len() ==> spec_has_item(
            items,
            (#[trigger] a.requires_inventory@[k])@,
        )
    &&& forall|k: int|
        0 <= k < a.scope_requirements@.len() ==> spec_has_item(
            items,
            (#[trigger] a.scope_requirements@[k])@,
        )
    &&& forall|k: int| 0 <= k < a.verbs@.len() ==> !spec_blank((#[trigger] a.verbs@[k])@)
    &&& forall|k: int| 0 <= k < a.nouns@.len() ==> !spec_blank((#[trigger] a.nouns@[k])@)
}

/// Every action in the list is sound.
pub open spec fn spec_actions_ok(items: Seq<Item>, actions: Seq<Action>) -> bool {
    forall|i: int| 0 <= i < actions.len() ==> spec_action_ok(items, #[trigger] actions[i])
}

/// One item's start location resolves; an item cannot start inside itself.
pub open spec fn spec_item_start_ok(w: World, it: Item) -> bool {
    match it.start_location {
        ItemLocation::Room(r) => spec_has_room(w.rooms@, r@),
        ItemLocation::Inventory => true,
        ItemLocation::Item(p) => p@ != it.id@ && spec_has_item(w.items@, p@),
        ItemLocation::Npc(n) => spec_has_npc(w.npcs@, n@),
    }
}

/// A container's required contents resolve.
pub open spec fn spec_item_contents_ok(w: World, it: Item) -> bool {
    match it.kind {
        ItemKind::Simple => true,
        ItemKind::Container(p) => forall|k: int|
            0 <= k < p.complete_when@.len() ==> spec_has_item(
                w.items@,
                (#[trigger] p.complete_when@[k])@,
            ),
    }
}

/// One NPC is sound: its start room resolves, its blockable-exit entries
/// are not blank, and its actions are sound.
pub open spec fn spec_npc_ok(w: World, npc: Npc) -> bool {
    &&& spec_has_room(w.rooms@, npc.start_room@)
    &&& forall|k: int| 0 <= k < npc.block_exits@.len() ==> !spec_blank((#[trigger] npc.block_exits@[k])@)
    &&& spec_actions_ok(w.items@, npc.actions@)
}

/// One global condition's room lists resolve.
pub open spec fn spec_gc_ok(w: World, gc: GlobalCondition) -> bool {
    &&& forall|k: int|
        0 <= k < gc.allowed_rooms@.len() ==> spec_has_room(w.rooms@, (#[trigger] gc.allowed_rooms@[k])@)
    &&& forall|k: int|
        0 <= k < gc.disallowed_rooms@.len() ==> spec_has_room(
            w.rooms@,
            (#[trigger] gc.disallowed_rooms@[k])@,
        )
}

/// The whole world is referentially sound: the validation finds nothing.
pub open spec fn spec_world_ok(w: World) -> bool {
    &&& w.rooms@.len() > 0
    &&& spec_has_room(w.rooms@, w.start_room@)
    &&& forall|i: int, j: int|
        0 <= i < w.rooms@.len() && 0 <= j < (#[trigger] w.rooms@[i]).exits@.len()
            ==> spec_has_room(w.rooms@, (#[trigger] w.rooms@[i].exits@[j]).target@)
    &&& forall|i: int| 0 <= i < w.items@.len() ==> spec_item_start_ok(w, #[trigger] w.items@[i])
    &&& forall|i: int| 0 <= i < w.items@.len() ==> spec_item_contents_ok(w, #[trigger] w.items@[i])
    &&& forall|i: int| 0 <= i < w.npcs@.len() ==> spec_npc_ok(w, #[trigger] w.npcs@[i])
    &&& forall|i: int|
        0 <= i < w.rooms@.len() ==> spec_actions_ok(w.items@, (#[trigger] w.rooms@[i]).actions@)
    &&& spec_actions_ok(w.items@, w.global_actions@)
    &&& forall|i: int| 0 <= i < w.global_conditions@.len() ==> spec_gc_ok(
            w,
            #[trigger] w.global_conditions@[i],
        )
}

/// Validates one action list, appending one finding per unsound reference
/// or blank phrase, labeled with its owner.
fn validate_actions(
    actions: &Vec<Action>,
    world: &World,
    errors: &mut Vec<ValidationError>,
    label: &str,
) -> (clean: bool)
    ensures
        clean == spec_actions_ok(world.items@, actions@),
        final(errors)@.len() >= old(errors)@.len(),
        clean ==> final(errors)@ == old(errors)@,
        !clean ==> final(errors)@.len() > old(errors)@.len(),
{
    let mut clean = true;
    let n = actions.len();
    let mut i: usize = 0;
    while i < n
        invariant
            i <= n,
            n == actions@.len(),
            errors@.len() >= old(errors)@.len(),
            clean ==> errors@ == old(errors)@,
            !clean ==> errors@.len() > old(errors)@.len(),
            clean == (forall|k: int|
                0 <= k < i ==> spec_action_ok(world.items@, #[trigger] actions@[k])),
        decreases n - i,
    {
        let a = &actions[i];
        let mut ok = true;
        let nr = a.requires_inventory.len();
        let mut k: usize = 0;
        while k < nr
            invariant
                k <= nr,
                nr == a.requires_inventory@.len(),
                errors@.len() >= old(errors)@.len(),
                (clean && ok) ==> errors@ == old(errors)@,
                !(clean && ok) ==> errors@.len() > old(errors)@.len(),
                ok == (forall|x: int|
                    0 <= x < k ==> spec_has_item(
                        world.items@,
                        (#[trigger] a.requires_inventory@[x])@,
                    )),
            decreases nr - k,
        {
            if world.item_index(a.requires_inventory[k].as_str()).is_none() {
                let mut m = String::from_str(label);
                m.append(" action '");
                m.append(a.id.as_str());
                m.append("' requires missing item '");
                m.append(a.requires_inventory[k].as_str());
                m.append("'");
                errors.push(ValidationError::new(m));
                ok = false;
            }
            k += 1;
        }
        let ns = a.scope_requirements.len();
        let ghost ok1 = ok;
        let mut k: usize = 0;
        while k < ns
            invariant
                k <= ns,
                ns == a.scope_requirements@.len(),
                errors@.len() >= old(errors)@.len(),
                (clean && ok) ==> errors@ == old(errors)@,
                !(clean && ok) ==> errors@.len() > old(errors)@.len(),
                ok ==> ok1,
                ok == (ok1 && forall|x: int|
                    0 <= x < k ==> spec_has_item(
                        world.items@,
                        (#[trigger] a.scope_requirements@[x])@,
                    )),
            decreases ns - k,
        {
            if world.item_index(a.scope_requirements[k].as_str()).is_none() {
                let mut m = String::from_str(label);
                m.append(" action '");
                m.append(a.id.as_str());
                m.append("' scope_requirements references missing item '");
                m.append(a.scope_requirements[k].as_str());
                m.append("'");
                errors.push(ValidationError::new(m));
                ok = false;
            }
            k += 1;
        }
        let nv = a.verbs.len();
        let ghost ok2 = ok;
        let mut k: usize = 0;
        while k < nv
            invariant
                k <= nv,
                nv == a.verbs@.len(),
                errors@.len() >= old(errors)@.len(),
                (clean && ok) ==> errors@ == old(errors)@,
                !(clean && ok) ==> errors@.len() > old(errors)@.len(),
                ok ==> ok2,
                ok == (ok2 && forall|x: int| 0 <= x < k ==> !spec_blank((#[trigger] a.verbs@[x])@)),
            decreases nv - k,
        {
            if is_blank_str(a.verbs[k].as_str()) {
                let mut m = String::from_str(label);
                m.append(" action '");
                m.append(a.id.as_str());
                m.append("' has an empty verb entry");
                errors.push(ValidationError::new(m));
                ok = false;
            }
            k += 1;
        }
        let nn = a.nouns.len();
        let ghost ok3 = ok;
        let mut k: usize = 0;
        while k < nn
            invariant
                k <= nn,
                nn == a.nouns@.len(),
                errors@.len() >= old(errors)@.len(),
                (clean && ok) ==> errors@ == old(errors)@,
                !(clean && ok) ==> errors@.len() > old(errors)@.len(),
                ok ==> ok3,
                ok == (ok3 && forall|x: int| 0 <= x < k ==> !spec_blank((#[trigger] a.nouns@[x])@)),
            decreases nn - k,
        {
            if is_blank_str(a.nouns[k].as_str()) {
                let mut m = String::from_str(label);
                m.append(" action '");
                m.append(a.id.as_str());
                m.append("' has an empty noun entry");
                errors.push(ValidationError::new(m));
                ok = false;
            }
            k += 1;
        }
        if !ok {
            clean = false;
        }
        i += 1;
    }
    clean
}

/// Validates the whole world against its own references: an empty result
/// means the world is sound; every unsound reference yields a finding.
pub fn validate_world(world: &World) -> (errors: Vec<ValidationError>)
    ensures
        errors@.len() == 0 <==> spec_world_ok(*world),
{
    let mut errors: Vec<ValidationError> = Vec::new();
    let mut sound = true;
    if world.rooms.len() == 0 {
        errors.push(ValidationError::new(String::from_str("world has no rooms")));
        sound = false;
    }
    if !world.has_room(world.start_room.as_str()) {
        let mut m = String::from_str("start_room '");
        m.append(world.start_room.as_str());
        m.append("' not found among rooms");
        errors.push(ValidationError::new(m));
        sound = false;
    }
    // exits
    let nr = world.rooms.len();
    let mut i: usize = 0;
    while i < nr
        invariant
            i <= nr,
            nr == world.rooms@.len(),
            sound ==> errors@.len() == 0,
            !sound ==> errors@.len() > 0,
            sound == ((world.rooms@.len() > 0) && spec_has_room(world.rooms@, world.start_room@)
                && (forall|x: int, j: int|
                0 <= x < i && 0 <= j < (#[trigger] world.rooms@[x]).exits@.len() ==> spec_has_room(
                    world.rooms@,
                    (#[trigger] world.rooms@[x].exits@[j]).target@,
                ))),
        decreases nr - i,
    {
        let room = &world.rooms[i];
        let ne = room.exits.len();
        let ghost sound0 = sound;
        let mut j: usize = 0;
        while j < ne
            invariant
                j <= ne,
                ne == room.exits@.len(),
                i < nr,
                room == world.rooms@[i as int],
                sound ==> errors@.len() == 0,
                !sound ==> errors@.len() > 0,
                sound ==> sound0,
                sound == (sound0 && forall|y: int|
                    0 <= y < j ==> spec_has_room(
                        world.rooms@,
                        (#[trigger] room.exits@[y]).target@,
                    )),
            decreases ne - j,
        {
            if !world.has_room(room.exits[j].target.as_str()) {
                let mut m = String::from_str("room '");
                m.append(room.id.as_str());
                m.append("' exit '");
                m.append(room.exits[j].direction.as_str());
                m.append("' targets missing room '");
                m.append(room.exits[j].target.as_str());
                m.append("'");
                errors.push(ValidationError::new(m));
                sound = false;
            }
            j += 1;
        }
        i += 1;
    }
    // item start locations and container contents
    let ni = world.items.len();
    let mut i: usize = 0;
    while i < ni
        invariant
            i <= ni,
            ni == world.items@.len(),
            sound ==> errors@.len() == 0,
            !sound ==> errors@.len() > 0,
            ({
                let prev = (world.rooms@.len() > 0) && spec_has_room(
                    world.rooms@,
                    world.start_room@,
                ) && (forall|x: int, j: int|
                    0 <= x < world.rooms@.len() && 0 <= j < (
                    #[trigger] world.rooms@[x]).exits@.len() ==> spec_has_room(
                        world.rooms@,
                        (#[trigger] world.rooms@[x].exits@[j]).target@,
                    ));
                sound == (prev && (forall|x: int|
                    0 <= x < i ==> spec_item_start_ok(*world, #[trigger] world.items@[x])) && (
                forall|x: int|
                    0 <= x < i ==> spec_item_contents_ok(*world, #[trigger] world.items@[x])))
            }),
        decreases ni - i,
    {
        let it = &world.items[i];
        match &it.start_location {
            ItemLocation::Room(r) => {
                if !world.has_room(r.as_str()) {
                    let mut m = String::from_str("item '");
                    m.append(it.id.as_str());
                    m.append("' start_location room '");
                    m.append(r.as_str());
                    m.append("' not found");
                    errors.push(ValidationError::new(m));
                    sound = false;
                }
            },
            ItemLocation::Item(parent) => {
                if crate::text::str_eq(parent.as_str(), it.id.as_str()) {
                    let mut m = String::from_str("item '");
                    m.append(it.id.as_str());
                    m.append("' cannot start inside itself");
                    errors.push(ValidationError::new(m));
                    sound = false;
                }
                if world.item_index(parent.as_str()).is_none() {
                    let mut m = String::from_str("item '");
                    m.append(it.id.as_str());
                    m.append("' start_location item '");
                    m.append(parent.as_str());
                    m.append("' not found");
                    errors.push(ValidationError::new(m));
                    sound = false;
                }
            },
            ItemLocation::Npc(npc_id) => {
                if world.npc_index(npc_id.as_str()).is_none() {
                    let mut m = String::from_str("item '");
                    m.append(it.id.as_str());
                    m.append("' start_location npc '");
                    m.append(npc_id.as_str());
                    m.append("' not found");
                    errors.push(ValidationError::new(m));
                    sound = false;
                }
            },
            ItemLocation::Inventory => {},
        }
        match &it.kind {
            ItemKind::Container(p) => {
                let nw = p.complete_when.len();
                let ghost sound0 = sound;
                let mut k: usize = 0;
                while k < nw
                    invariant
                        k <= nw,
                        nw == p.complete_when@.len(),
                        i < ni,
                        it == world.items@[i as int],
                        it.kind matches ItemKind::Container(pp) && pp == *p,
                        sound ==> errors@.len() == 0,
                        !sound ==> errors@.len() > 0,
                        sound ==> sound0,
                        sound == (sound0 && forall|y: int|
                            0 <= y < k ==> spec_has_item(
                                world.items@,
                                (#[trigger] p.complete_when@[y])@,
                            )),
                    decreases nw - k,
                {
                    if world.item_index(p.complete_when[k].as_str()).is_none() {
                        let mut m = String::from_str("container '");
                        m.append(it.id.as_str());
                        m.append("' complete_when references missing item '");
                        m.append(p.complete_when[k].as_str());
                        m.append("'");
                        errors.push(ValidationError::new(m));
                        sound = false;
                    }
                    k += 1;
                }
            },
            ItemKind::Simple => {},
        }
        i += 1;
    }
    // NPCs
    let ghost prev_items = sound;
    let nn = world.npcs.len();
    let mut i: usize = 0;
    while i < nn
        invariant
            i <= nn,
            nn == world.npcs@.len(),
            sound ==> errors@.len() == 0,
            !sound ==> errors@.len() > 0,
            sound ==> prev_items,
            sound == (prev_items && forall|x: int|
                0 <= x < i ==> spec_npc_ok(*world, #[trigger] world.npcs@[x])),
        decreases nn - i,
    {
        let npc = &world.npcs[i];
        let mut ok = true;
        if !world.has_room(npc.start_room.as_str()) {
            let mut m = String::from_str("npc '");
            m.append(npc.id.as_str());
            m.append("' start_room '");
            m.append(npc.start_room.as_str());
            m.append("' not found");
            errors.push(ValidationError::new(m));
            ok = false;
        }
        let nb = npc.block_exits.len();
        let ghost ok0 = ok;
        let mut k: usize = 0;
        while k < nb
            invariant
                k <= nb,
                nb == npc.block_exits@.len(),
                i < nn,
                npc == world.npcs@[i as int],
                errors@.len() >= 0,
                (sound && ok) ==> errors@.len() == 0,
                !(sound && ok) ==> true,
                sound ==> errors@.len() == 0 || !ok,
                !sound ==> errors@.len() > 0,
                sound && !ok ==> errors@.len() > 0,
                ok ==> ok0,
                ok == (ok0 && forall|y: int|
                    0 <= y < k ==> !spec_blank((#[trigger] npc.block_exits@[y])@)),
            decreases nb - k,
        {
            if is_blank_str(npc.block_exits[k].as_str()) {
                let mut m = String::from_str("npc '");
                m.append(npc.id.as_str());
                m.append("' has an empty block_exits entry");
                errors.push(ValidationError::new(m));
                ok = false;
            }
            k += 1;
        }
        let mut label = String::from_str("npc '");
        label.append(npc.id.as_str());
        label.append("'");
        let actions_clean = validate_actions(&npc.actions, world, &mut errors, label.as_str());
        if !actions_clean {
            ok = false;
        }
        if !ok {
            sound = false;
        }
        i += 1;
    }
    // room actions
    let ghost prev_npcs = sound;
    let mut i: usize = 0;
    while i < nr
        invariant
            i <= nr,
            nr == world.rooms@.len(),
            sound ==> errors@.len() == 0,
            !sound ==> errors@.len() > 0,
            sound ==> prev_npcs,
            sound == (prev_npcs && forall|x: int|
                0 <= x < i ==> spec_actions_ok(
                    world.items@,
                    (#[trigger] world.rooms@[x]).actions@,
                )),
        decreases nr - i,
    {
        let room = &world.rooms[i];
        let mut label = String::from_str("room '");
        label.append(room.id.as_str());
        label.append("'");
        if !validate_actions(&room.actions, world, &mut errors, label.as_str()) {
            sound = false;
        }
        i += 1;
    }
    // global actions
    if !validate_actions(
        &world.global_actions,
        world,
        &mut errors,
        "global actions",
    ) {
        sound = false;
    }
    // global conditions
    let ghost prev_ga = sound;
    let ng = world.global_conditions.len();
    let mut i: usize = 0;
    while i < ng
        invariant
            i <= ng,
            ng == world.global_conditions@.len(),
            sound ==> errors@.len() == 0,
            !sound ==> errors@.len() > 0,
            sound ==> prev_ga,
            sound == (prev_ga && forall|x: int|
                0 <= x < i ==> spec_gc_ok(*world, #[trigger] world.global_conditions@[x])),
        decreases ng - i,
    {
        let gc = &world.global_conditions[i];
        let mut ok = true;
        let na = gc.allowed_rooms.len();
        let mut k: usize = 0;
        while k < na
            invariant
                k <= na,
                na == gc.allowed_rooms@.len(),
                i < ng,
                gc == world.global_conditions@[i as int],
                sound ==> errors@.len() == 0 || !ok,
                !sound ==> errors@.len() > 0,
                sound && !ok ==> errors@.len() > 0,
                sound && ok ==> errors@.len() == 0,
                ok == (forall|y: int|
                    0 <= y < k ==> spec_has_room(
                        world.rooms@,
                        (#[trigger] gc.allowed_rooms@[y])@,
                    )),
            decreases na - k,
        {
            if !world.has_room(gc.allowed_rooms[k].as_str()) {
                let mut m = String::from_str("global_condition '");
                m.append(gc.id.as_str());
                m.append("' allowed_rooms references missing room '");
                m.append(gc.allowed_rooms[k].as_str());
                m.append("'");
                errors.push(ValidationError::new(m));
                ok = false;
            }
            k += 1;
        }
        let nd = gc.disallowed_rooms.len();
        let ghost ok0 = ok;
        let mut k: usize = 0;
        while k < nd
            invariant
                k <= nd,
                nd == gc.disallowed_rooms@.len(),
                i < ng,
                gc == world.global_conditions@[i as int],
                sound ==> errors@.len() == 0 || !ok,
                !sound ==> errors@.len() > 0,
                sound && !ok ==> errors@.len() > 0,
                sound && ok ==> errors@.len() == 0,
                ok ==> ok0,
                ok == (ok0 && forall|y: int|
                    0 <= y < k ==> spec_has_room(
                        world.rooms@,
                        (#[trigger] gc.disallowed_rooms@[y])@,
                    )),
            decreases nd - k,
        {
            if !world.has_room(gc.disallowed_rooms[k].as_str()) {
                let mut m = String::from_str("global_condition '");
                m.append(gc.id.as_str());
                m.append("' disallowed_rooms references missing room '");
                m.append(gc.disallowed_rooms[k].as_str());
                m.append("'");
                errors.push(ValidationError::new(m));
                ok = false;
            }
            k += 1;
        }
        if !ok {
            sound = false;
        }
        i += 1;
    }
    errors
}

} // verus!
