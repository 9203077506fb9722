//! The condition / effect evaluator. A condition or effect is a flag name,
//! optionally prefixed with `!` for negation. Conditions gate visibility and
//! availability; effects add or remove flags.
use vstd::prelude::*;
use vstd::string::*;

use crate::flags::FlagSet;
use crate::locmap::LocMap;
use crate::model::{GlobalCondition, Item, LocV, World};
use crate::output::{spec_event, BlockV, Output};
use crate::text::{seq_contains_str, spec_trim, str_list_contains, trim_str};

verus! {

/// Whether a condition or effect string carries the negation marker.
pub open spec fn cond_negated(c: Seq<char>) -> bool {
    c.len() > 0 && c[0] == '!'
}

/// The flag name of a condition or effect string (the marker stripped).
pub open spec fn cond_name(c: Seq<char>) -> Seq<char> {
    if cond_negated(c) {
        c.skip(1)
    } else {
        c
    }
}

/// One condition holds when its flag is present (positive condition) or
/// absent (negated condition).
pub open spec fn spec_cond_holds(c: Seq<char>, flags: Set<Seq<char>>) -> bool {
    if cond_negated(c) {
        !flags.contains(cond_name(c))
    } else {
        flags.contains(c)
    }
}

/// All conditions in the list hold; an empty list holds vacuously.
pub open spec fn spec_conditions_met(cs: Seq<String>, flags: Set<Seq<char>>) -> bool {
    forall|i: int| 0 <= i < cs.len() ==> spec_cond_holds(cs[i]@, flags)
}

/// The flag set after the first `n` effects have been applied in order.
pub open spec fn spec_apply_effects_upto(fl: Set<Seq<char>>, effects: Seq<String>, n: nat) -> Set<
    Seq<char>,
>
    decreases n,
{
    if n == 0 {
        fl
    } else {
        let prev = spec_apply_effects_upto(fl, effects, (n - 1) as nat);
        let e = effects[n - 1]@;
        if cond_negated(e) {
            prev.remove(cond_name(e))
        } else {
            prev.insert(e)
        }
    }
}

/// The flag set after a whole effect list has been applied in order. Later
/// entries win on the same flag name.
pub open spec fn spec_apply_effects(fl: Set<Seq<char>>, effects: Seq<String>) -> Set<Seq<char>> {
    spec_apply_effects_upto(fl, effects, effects.len())
}

/// Whether a condition string carries the negation marker.
pub fn is_negated(s: &str) -> (r: bool)
    ensures
        r == cond_negated(s@),
{
    s.unicode_len() > 0 && s.get_char(0) == '!'
}

/// Returns true if all conditions are satisfied: every positive condition's
/// flag present, every negated condition's flag absent.
pub fn conditions_met(conditions: &Vec<String>, flags: &FlagSet) -> (r: bool)
    ensures
        r == spec_conditions_met(conditions@, flags@),
{
    let n = conditions.len();
    let mut i: usize = 0;
    while i < n
        invariant
            i <= n,
            n == conditions@.len(),
            forall|k: int| 0 <= k < i ==> spec_cond_holds(conditions@[k]@, flags@),
        decreases n - i,
    {
        let c = conditions[i].as_str();
        if is_negated(c) {
            let name = c.substring_char(1, c.unicode_len());
            assert(name@ =~= cond_name(c@));
            if flags.contains(name) {
                assert(!spec_cond_holds(conditions@[i as int]@, flags@));
                return false;
            }
        } else {
            if !flags.contains(c) {
                assert(!spec_cond_holds(conditions@[i as int]@, flags@));
                return false;
            }
        }
        i += 1;
    }
    true
}

/// Applies a list of effects to the flags, in list order: an unprefixed
/// effect inserts its flag, a negated effect removes it.
pub fn apply_effects(flags: &mut FlagSet, effects: &Vec<String>)
    ensures
        final(flags)@ == spec_apply_effects(old(flags)@, effects@),
{
    let n = effects.len();
    let mut i: usize = 0;
    while i < n
        invariant
            i <= n,
            n == effects@.len(),
            flags@ == spec_apply_effects_upto(old(flags)@, effects@, i as nat),
        decreases n - i,
    {
        let e = effects[i].as_str();
        if is_negated(e) {
            let name = e.substring_char(1, e.unicode_len());
            assert(name@ =~= cond_name(e@));
            flags.remove(name);
        } else {
            flags.insert(e);
        }
        i += 1;
    }
}

/// Whether the item's own visibility conditions are satisfied.
pub fn item_visible(item: &Item, flags: &FlagSet) -> (r: bool)
    ensures
        r == spec_conditions_met(item.conditions@, flags@),
{
    conditions_met(&item.conditions, flags)
}

/// Whether the item is currently located in the given room.
pub open spec fn spec_item_in_room(locs: LocMap, id: Seq<char>, room: Seq<char>) -> bool {
    locs.has(id) && (locs.at(id) matches LocV::Room(r) && r == room)
}

pub fn item_in_room(item_id: &str, item_locations: &LocMap, room_id: &str) -> (r: bool)
    requires
        item_locations.wf(),
    ensures
        r == spec_item_in_room(*item_locations, item_id@, room_id@),
{
    match item_locations.get(item_id) {
        Some(loc) => match &loc {
            crate::model::ItemLocation::Room(rm) => crate::text::str_eq(rm.as_str(), room_id),
            _ => false,
        },
        None => false,
    }
}

/// Whether the item is currently carried.
pub open spec fn spec_item_in_inventory(locs: LocMap, id: Seq<char>) -> bool {
    locs.has(id) && locs.at(id) is Inventory
}

pub fn item_in_inventory(item_id: &str, item_locations: &LocMap) -> (r: bool)
    requires
        item_locations.wf(),
    ensures
        r == spec_item_in_inventory(*item_locations, item_id@),
{
    match item_locations.get(item_id) {
        Some(loc) => match &loc {
            crate::model::ItemLocation::Inventory => true,
            _ => false,
        },
        None => false,
    }
}

/// Evaluating one global condition against the current pass state:
/// `(flags, fired, output)`.
pub open spec fn spec_gc_step(
    gc: GlobalCondition,
    room: Seq<char>,
    st: (Set<Seq<char>>, Set<Seq<char>>, Seq<BlockV>),
) -> (Set<Seq<char>>, Set<Seq<char>>, Seq<BlockV>) {
    let (flags, fired, outv) = st;
    if gc.one_shot && fired.contains(gc.id@) {
        st
    } else if !spec_conditions_met(gc.conditions@, flags) {
        st
    } else if gc.allowed_rooms@.len() > 0 && !seq_contains_str(gc.allowed_rooms@, room) {
        st
    } else if seq_contains_str(gc.disallowed_rooms@, room) {
        st
    } else {
        let outv2 = spec_event(outv, spec_trim(gc.response@));
        let flags2 = spec_apply_effects(flags, gc.effects@);
        let fired2 = if gc.one_shot {
            fired.insert(gc.id@)
        } else {
            fired
        };
        (flags2, fired2, outv2)
    }
}

/// The pass state after the first `n` global conditions have been evaluated.
pub open spec fn spec_eval_gcs_upto(
    gcs: Seq<GlobalCondition>,
    room: Seq<char>,
    st: (Set<Seq<char>>, Set<Seq<char>>, Seq<BlockV>),
    n: nat,
) -> (Set<Seq<char>>, Set<Seq<char>>, Seq<BlockV>)
    decreases n,
{
    if n == 0 {
        st
    } else {
        spec_gc_step(gcs[n - 1], room, spec_eval_gcs_upto(gcs, room, st, (n - 1) as nat))
    }
}

/// The pass state after every global condition has been evaluated in
/// declaration order.
pub open spec fn spec_eval_gcs(
    gcs: Seq<GlobalCondition>,
    room: Seq<char>,
    st: (Set<Seq<char>>, Set<Seq<char>>, Seq<BlockV>),
) -> (Set<Seq<char>>, Set<Seq<char>>, Seq<BlockV>) {
    spec_eval_gcs_upto(gcs, room, st, gcs.len())
}

/// Evaluates and fires the satisfied global conditions, in declaration
/// order: each firing emits its trimmed response as an event, applies its
/// effects, and a one-shot condition is marked as fired.
pub fn evaluate_global_conditions(
    out: &mut Output,
    world: &World,
    flags: &mut FlagSet,
    current_room_id: &str,
    fired: &mut FlagSet,
)
    requires
        old(out).wf(),
    ensures
        final(out).wf(),
        (final(flags)@, final(fired)@, final(out)@) == spec_eval_gcs(
            world.global_conditions@,
            current_room_id@,
            (old(flags)@, old(fired)@, old(out)@),
        ),
{
    let n = world.global_conditions.len();
    let mut i: usize = 0;
    while i < n
        invariant
            i <= n,
            n == world.global_conditions@.len(),
            out.wf(),
            (flags@, fired@, out@) == spec_eval_gcs_upto(
                world.global_conditions@,
                current_room_id@,
                (old(flags)@, old(fired)@, old(out)@),
                i as nat,
            ),
        decreases n - i,
    {
        let gc = &world.global_conditions[i];
        let skip_fired = gc.one_shot && fired.contains(gc.id.as_str());
        if !skip_fired {
            if conditions_met(&gc.conditions, flags) {
                let allowed = gc.allowed_rooms.len() == 0 || str_list_contains(
                    &gc.allowed_rooms,
                    current_room_id,
                );
                if allowed && !str_list_contains(&gc.disallowed_rooms, current_room_id) {
                    let txt = trim_str(gc.response.as_str());
                    out.event(txt);
                    apply_effects(flags, &gc.effects);
                    if gc.one_shot {
                        fired.insert(gc.id.as_str());
                    }
                }
            }
        }
        i += 1;
    }
}

} // verus!
