//! The game state and the per-command pipeline: one call resolves one
//! player command into a state transition and an ordered output document.
use vstd::prelude::*;
use vstd::string::*;

use crate::actions::{
    actions_bounded, spec_action_outcome, try_handle_action, try_handle_global_action,
};
use crate::conditions::{evaluate_global_conditions, spec_eval_gcs};
use crate::flags::FlagSet;
use crate::items::{
    handle_drop, handle_drop_all, handle_examine, handle_inventory, handle_take,
    handle_take_all_from_container, handle_take_all_room, handle_take_from_container,
    spec_drop_all_outcome, spec_drop_outcome, spec_examine_outcome, spec_inventory_outcome,
    spec_store_outcome, spec_take_all_from_outcome, spec_take_all_outcome,
    spec_take_from_container_outcome, spec_take_outcome, try_handle_container_store,
};
use crate::locmap::{LocMap, NpcMap};
use crate::model::{
    lemma_room_index_unique, spec_has_room, spec_room_index, Item, LocV, Npc, World,
};
use crate::movement::{spec_try_movement, try_handle_movement};
use crate::npcs::{
    handle_talk_to_npc, roam_npcs_after_player_move, spec_npc_action_outcome, spec_roam_upto,
    spec_talk_outcome, try_handle_npc_action,
};
use crate::output::{spec_say, BlockV, Output};
use crate::render::{render_room, room_depends_on_any_flag, spec_render_room, spec_room_depends};
use crate::text::{
    first_non_space, lower_seq, lower_str, raw_first_token, spec_tokenize, spec_trim,
    str_eq, token_to_string, tokenize, trim_str, word_end,
};
use crate::order::{join_tokens_after, spec_join};

verus! {

/// Every action list of the world stays within the per-action size bound.
pub open spec fn spec_world_actions_bounded(w: World) -> bool {
    &&& forall|i: int|
        0 <= i < w.rooms@.len() ==> actions_bounded((#[trigger] w.rooms@[i]).actions@)
    &&& forall|i: int| 0 <= i < w.npcs@.len() ==> actions_bounded((#[trigger] w.npcs@[i]).actions@)
    &&& actions_bounded(w.global_actions@)
}

/// The whole mutable game state: current room, flags, placements, one-shot
/// bookkeeping, and the two counters.
pub struct GameState {
    pub world: World,
    pub current_room_id: String,
    pub flags: FlagSet,
    pub fired_global_conditions: FlagSet,
    pub fired_dialogues: FlagSet,
    pub item_locations: LocMap,
    pub npc_locations: NpcMap,
    /// Advances only on a successful room change; seeds roaming.
    pub turn_index: u64,
    /// Advances on every processed command; seeds blocking and attack rolls.
    pub action_index: u64,
}

/// The first position of the separator `" from "` in the sequence, at or
/// after `i` (-1 when it does not occur).
pub open spec fn spec_find_from(s: Seq<char>, i: nat) -> int
    decreases s.len() + 6 - i,
{
    if i + 6 > s.len() {
        -1
    } else if s.subrange(i as int, i as int + 6) == " from "@ {
        i as int
    } else {
        spec_find_from(s, (i + 1) as nat)
    }
}

/// The sequence with every leading occurrence of `"at"` removed.
pub open spec fn strip_at(t: Seq<char>) -> Seq<char>
    decreases t.len(),
{
    if t.len() >= 2 && t[0] == 'a' && t[1] == 't' {
        strip_at(t.skip(2))
    } else {
        t
    }
}

/// The abstract result of the per-command dispatch.
pub struct DispatchR {
    pub cur: Seq<char>,
    pub flags: Set<Seq<char>>,
    pub fired_dialogues: Set<Seq<char>>,
    pub locs: Map<Seq<char>, LocV>,
    pub nlocs: Map<Seq<char>, Seq<char>>,
    pub turn: u64,
    pub out: Seq<BlockV>,
    pub rendered: bool,
    pub quit: bool,
}

/// The abstract result of one whole step.
pub struct StepR {
    pub cur: Seq<char>,
    pub flags: Set<Seq<char>>,
    pub fired_global: Set<Seq<char>>,
    pub fired_dialogues: Set<Seq<char>>,
    pub locs: Map<Seq<char>, LocV>,
    pub nlocs: Map<Seq<char>, Seq<char>>,
    pub turn: u64,
    pub action: u64,
    pub out: Seq<BlockV>,
    pub quit: bool,
}

/// The dispatch result when nothing changes.
pub open spec fn spec_dispatch_base(s: GameState, outv: Seq<BlockV>) -> DispatchR {
    DispatchR {
        cur: s.current_room_id@,
        flags: s.flags@,
        fired_dialogues: s.fired_dialogues@,
        locs: s.item_locations@,
        nlocs: s.npc_locations@,
        turn: s.turn_index,
        out: outv,
        rendered: false,
        quit: false,
    }
}

/// The reserved-verb dispatch and the resolver fallback chain of one
/// command, mirroring the order: quit, inventory, talk, take (with its
/// container forms), drop, examine, container store, look, movement, NPC
/// actions, room actions, global actions, and the unrecognized report.
pub open spec fn spec_dispatch(s: GameState, input: Seq<char>, seed: u64, outv: Seq<BlockV>) -> DispatchR {
    let low = lower_seq(input);
    let toks = spec_tokenize(input);
    let b = spec_dispatch_base(s, outv);
    let verb = if toks.len() == 0 {
        Seq::<char>::empty()
    } else {
        toks[0]
    };
    let rest_l = if toks.len() == 0 {
        Seq::<char>::empty()
    } else {
        spec_join(toks.skip(1), " "@)
    };
    if low == "quit"@ || low == "exit"@ {
        DispatchR { out: spec_say(outv, "Goodbye."@), quit: true, ..b }
    } else if low == "inventory"@ || low == "i"@ {
        DispatchR { out: spec_inventory_outcome(s.world, s.item_locations, outv), ..b }
    } else if verb == "talk"@ || verb == "speak"@ {
        let t = spec_talk_outcome(
            s.world,
            s.npc_locations,
            s.flags@,
            s.fired_dialogues@,
            s.current_room_id@,
            rest_l,
            outv,
        );
        DispatchR { flags: t.0, fired_dialogues: t.1, out: t.2, ..b }
    } else if verb == "take"@ || verb == "get"@ {
        if toks.len() == 1 {
            DispatchR { out: spec_say(outv, "Take what?"@), ..b }
        } else if rest_l == "all"@ {
            let t = spec_take_all_outcome(s.world, s.item_locations, s.flags@, s.current_room_id@, outv);
            DispatchR { locs: t.0, out: t.1, ..b }
        } else {
            let fi = spec_find_from(rest_l, 0);
            if fi >= 0 {
                let item_part = spec_trim(rest_l.take(fi));
                let cont_part = spec_trim(rest_l.skip(fi + 6));
                if item_part.len() == 0 || cont_part.len() == 0 {
                    DispatchR {
                        out: spec_say(
                            outv,
                            "I don't understand what you want to take from where."@,
                        ),
                        ..b
                    }
                } else if item_part == "all"@ {
                    let t = spec_take_all_from_outcome(
                        s.world,
                        s.item_locations,
                        s.flags@,
                        s.current_room_id@,
                        cont_part,
                        outv,
                    );
                    DispatchR { locs: t.0, out: t.1, ..b }
                } else {
                    let t = spec_take_from_container_outcome(
                        s.world,
                        s.item_locations,
                        s.flags@,
                        s.current_room_id@,
                        item_part,
                        cont_part,
                        outv,
                    );
                    DispatchR { locs: t.0, out: t.1, ..b }
                }
            } else {
                let t = spec_take_outcome(
                    s.world,
                    s.item_locations,
                    s.flags@,
                    s.current_room_id@,
                    rest_l,
                    outv,
                );
                DispatchR { locs: t.0, out: t.1, ..b }
            }
        }
    } else if verb == "drop"@ {
        if toks.len() == 1 {
            DispatchR { out: spec_say(outv, "Drop what?"@), ..b }
        } else if rest_l == "all"@ {
            let t = spec_drop_all_outcome(s.world, s.item_locations, s.current_room_id@, outv);
            DispatchR { locs: t.0, out: t.1, ..b }
        } else {
            let t = spec_drop_outcome(s.world, s.item_locations, s.current_room_id@, rest_l, outv);
            DispatchR { locs: t.0, out: t.1, ..b }
        }
    } else if verb == "examine"@ || verb == "x"@ || (verb == "look"@ && rest_l.len() >= 3
        && rest_l.take(3) == "at "@) {
        let target = if verb == "look"@ {
            spec_trim(strip_at(rest_l))
        } else {
            spec_trim(rest_l)
        };
        if target.len() == 0 {
            DispatchR { out: spec_say(outv, "Examine what?"@), ..b }
        } else {
            DispatchR {
                out: spec_examine_outcome(
                    s.world,
                    s.item_locations,
                    s.flags@,
                    s.current_room_id@,
                    target,
                    outv,
                ),
                ..b
            }
        }
    } else {
        let raw_verb = input.subrange(
            first_non_space(input, 0) as int,
            word_end(input, first_non_space(input, 0)) as int,
        );
        let st = spec_store_outcome(
            s.world,
            s.item_locations,
            s.flags@,
            s.current_room_id@,
            raw_verb,
            rest_l,
            outv,
        );
        if st.3 {
            DispatchR { locs: st.0, flags: st.1, out: st.2, ..b }
        } else if spec_has_room(s.world.rooms@, s.current_room_id@) {
            let room = s.world.rooms@[spec_room_index(s.world.rooms@, s.current_room_id@)];
            if low == "look"@ || low == "l"@ {
                DispatchR {
                    out: spec_render_room(s.world, room, s.flags@, s.item_locations@, outv),
                    rendered: true,
                    ..b
                }
            } else {
                let mv = spec_try_movement(
                    s.world,
                    room,
                    low,
                    s.npc_locations,
                    s.flags@,
                    seed,
                    outv,
                    s.current_room_id@,
                );
                if mv.3 {
                    if mv.1 != s.current_room_id@ {
                        let turn2 = s.turn_index.wrapping_add(1);
                        let nl2 = spec_roam_upto(s.world, turn2, s.npc_locations@, s.world.npcs@.len());
                        if spec_has_room(s.world.rooms@, mv.1) {
                            let room2 = s.world.rooms@[spec_room_index(s.world.rooms@, mv.1)];
                            DispatchR {
                                cur: mv.1,
                                flags: mv.2,
                                turn: turn2,
                                nlocs: nl2,
                                out: spec_render_room(s.world, room2, mv.2, s.item_locations@, mv.0),
                                rendered: true,
                                ..b
                            }
                        } else {
                            DispatchR {
                                cur: mv.1,
                                flags: mv.2,
                                turn: turn2,
                                nlocs: nl2,
                                out: mv.0,
                                rendered: false,
                                ..b
                            }
                        }
                    } else {
                        DispatchR { flags: mv.2, out: mv.0, rendered: true, ..b }
                    }
                } else {
                    let na = spec_npc_action_outcome(
                        s.world,
                        s.item_locations,
                        s.npc_locations,
                        s.flags@,
                        s.current_room_id@,
                        input,
                        outv,
                    );
                    if na.3 {
                        DispatchR { locs: na.0, flags: na.1, out: na.2, ..b }
                    } else {
                        let ra = spec_action_outcome(
                            room.actions@,
                            s.world,
                            s.item_locations,
                            s.flags@,
                            s.current_room_id@,
                            input,
                            outv,
                        );
                        if ra.2 {
                            DispatchR { flags: ra.0, out: ra.1, ..b }
                        } else {
                            let ga = spec_action_outcome(
                                s.world.global_actions@,
                                s.world,
                                s.item_locations,
                                s.flags@,
                                s.current_room_id@,
                                input,
                                outv,
                            );
                            if ga.2 {
                                DispatchR { flags: ga.0, out: ga.1, ..b }
                            } else {
                                DispatchR {
                                    out: spec_say(outv, "I don't understand that command."@),
                                    ..b
                                }
                            }
                        }
                    }
                }
            }
        } else {
            DispatchR {
                out: spec_say(
                    outv,
                    "Error: you are in an unknown room '"@ + s.current_room_id@ + "'"@,
                ),
                quit: true,
                ..b
            }
        }
    }
}

/// One whole step: the action counter advances, the command is dispatched,
/// the global conditions fire, and a relevant flag change may trigger one
/// re-render.
pub open spec fn spec_step(s: GameState, input: Seq<char>) -> StepR {
    let act2 = s.action_index.wrapping_add(1);
    let d = spec_dispatch(s, input, act2, Seq::empty());
    let g = spec_eval_gcs(
        s.world.global_conditions@,
        d.cur,
        (d.flags, s.fired_global_conditions@, d.out),
    );
    let changed = d.flags.difference(g.0).union(g.0.difference(d.flags));
    let out3 = if changed != Set::<Seq<char>>::empty() && !d.rendered && spec_has_room(
        s.world.rooms@,
        d.cur,
    ) && spec_room_depends(
        s.world,
        s.world.rooms@[spec_room_index(s.world.rooms@, d.cur)],
        d.locs,
        changed,
    ) {
        spec_render_room(
            s.world,
            s.world.rooms@[spec_room_index(s.world.rooms@, d.cur)],
            g.0,
            d.locs,
            g.2,
        )
    } else {
        g.2
    };
    StepR {
        cur: d.cur,
        flags: g.0,
        fired_global: g.1,
        fired_dialogues: d.fired_dialogues,
        locs: d.locs,
        nlocs: d.nlocs,
        turn: d.turn,
        action: act2,
        out: out3,
        quit: d.quit,
    }
}

/// When the separator is found, it stands within bounds and matches.
pub proof fn lemma_find_from_props(s: Seq<char>, i: nat)
    ensures
        spec_find_from(s, i) >= 0 ==> i <= spec_find_from(s, i) && spec_find_from(s, i) + 6
            <= s.len() && s.subrange(spec_find_from(s, i), spec_find_from(s, i) + 6) == " from "@,
    decreases s.len() + 6 - i,
{
    if i + 6 <= s.len() && s.subrange(i as int, i as int + 6) != " from "@ {
        lemma_find_from_props(s, (i + 1) as nat);
    }
}

/// Finds the first occurrence of the separator `" from "`.
#[verifier::rlimit(50)]
fn find_from(s: &str) -> (r: Option<usize>)
    ensures
        r matches Some(k) ==> spec_find_from(s@, 0) == k,
        r is None ==> spec_find_from(s@, 0) == -1,
{
    let n = s.unicode_len();
    let mut i: usize = 0;
    while n - i >= 6
        invariant
            i <= n,
            n == s@.len(),
            spec_find_from(s@, 0) == spec_find_from(s@, i as nat),
        decreases n - i,
    {
        let hit = s.get_char(i) == ' ' && s.get_char(i + 1) == 'f' && s.get_char(i + 2) == 'r'
            && s.get_char(i + 3) == 'o' && s.get_char(i + 4) == 'm' && s.get_char(i + 5) == ' ';
        proof {
            reveal_strlit(" from ");
            if hit {
                assert(s@.subrange(i as int, i as int + 6) =~= " from "@);
            } else {
                assert(s@.subrange(i as int, i as int + 6) != " from "@) by {
                    if s@.subrange(i as int, i as int + 6) == " from "@ {
                        assert(s@.subrange(i as int, i as int + 6)[0] == ' ');
                        assert(s@.subrange(i as int, i as int + 6)[1] == 'f');
                        assert(s@.subrange(i as int, i as int + 6)[2] == 'r');
                        assert(s@.subrange(i as int, i as int + 6)[3] == 'o');
                        assert(s@.subrange(i as int, i as int + 6)[4] == 'm');
                        assert(s@.subrange(i as int, i as int + 6)[5] == ' ');
                    }
                }
            }
        }
        if hit {
            return Some(i);
        }
        i += 1;
    }
    None
}

/// Removes every leading occurrence of `"at"` from a string.
fn strip_at_str(s: &str) -> (r: &str)
    ensures
        r@ == strip_at(s@),
{
    let n = s.unicode_len();
    let mut i: usize = 0;
    proof {
        assert(s@.skip(0) =~= s@);
    }
    while n - i >= 2 && s.get_char(i) == 'a' && s.get_char(i + 1) == 't'
        invariant
            i <= n,
            n == s@.len(),
            strip_at(s@) == strip_at(s@.skip(i as int)),
        decreases n - i,
    {
        proof {
            assert(s@.skip(i as int).skip(2) =~= s@.skip(i as int + 2));
        }
        i += 2;
    }
    let r = s.substring_char(i, n);
    proof {
        assert(r@ =~= s@.skip(i as int));
    }
    r
}

/// The seeded item-location map: each item at its declared start location,
/// among the first `n` items.
pub open spec fn spec_seed_locs(items: Seq<Item>, n: nat) -> Map<Seq<char>, LocV>
    decreases n,
{
    if n == 0 {
        Map::empty()
    } else {
        spec_seed_locs(items, (n - 1) as nat).insert(items[n - 1].id@, items[n - 1].start_location@)
    }
}

/// The seeded NPC-location map: each NPC in its declared start room, among
/// the first `n` NPCs.
pub open spec fn spec_seed_npcs(npcs: Seq<Npc>, n: nat) -> Map<Seq<char>, Seq<char>>
    decreases n,
{
    if n == 0 {
        Map::empty()
    } else {
        spec_seed_npcs(npcs, (n - 1) as nat).insert(npcs[n - 1].id@, npcs[n - 1].start_room@)
    }
}

impl GameState {
    /// The state is well-formed: unique entity ids, unique placement keys,
    /// and bounded action lists.
    pub open spec fn wf(&self) -> bool {
        &&& self.world.wf()
        &&& spec_world_actions_bounded(self.world)
        &&& self.item_locations.wf()
        &&& self.npc_locations.wf()
    }

    /// A fresh game state over the world: item and NPC placements seeded
    /// from their declared start locations, no flags, no room entered yet,
    /// counters at zero.
    pub fn new(world: World) -> (r: GameState)
        ensures
            r.world == world,
            r.current_room_id@ == Seq::<char>::empty(),
            r.flags@ == Set::<Seq<char>>::empty(),
            r.fired_global_conditions@ == Set::<Seq<char>>::empty(),
            r.fired_dialogues@ == Set::<Seq<char>>::empty(),
            r.item_locations@ == spec_seed_locs(world.items@, world.items@.len()),
            r.npc_locations@ == spec_seed_npcs(world.npcs@, world.npcs@.len()),
            world.wf() ==> r.item_locations.entries@.len() == world.items@.len() && (forall|
                k: int,
            |
                0 <= k < world.items@.len() ==> (#[trigger] r.item_locations.entries@[k]).id@
                    == world.items@[k].id@ && r.item_locations.entries@[k].loc@
                    == world.items@[k].start_location@),
            world.wf() ==> r.npc_locations.entries@.len() == world.npcs@.len() && (forall|k: int|
                0 <= k < world.npcs@.len() ==> (#[trigger] r.npc_locations.entries@[k]).id@
                    == world.npcs@[k].id@ && r.npc_locations.entries@[k].room@
                    == world.npcs@[k].start_room@),
            r.flags.items@.len() == 0,
            r.fired_global_conditions.items@.len() == 0,
            r.fired_dialogues.items@.len() == 0,
            r.turn_index == 0,
            r.action_index == 0,
            r.item_locations.wf(),
            r.npc_locations.wf(),
            world.wf() && spec_world_actions_bounded(world) ==> r.wf(),
    {
        let mut item_locations = LocMap::new();
        proof {
            item_locations.lemma_view_facts();
            assert(item_locations@ =~= Map::<Seq<char>, LocV>::empty());
        }
        let n = world.items.len();
        let mut i: usize = 0;
        while i < n
            invariant
                i <= n,
                n == world.items@.len(),
                item_locations.wf(),
                item_locations@ == spec_seed_locs(world.items@, i as nat),
                world.wf() ==> item_locations.entries@.len() == i && (forall|k: int|
                    0 <= k < i ==> (#[trigger] item_locations.entries@[k]).id@
                        == world.items@[k].id@ && item_locations.entries@[k].loc@
                        == world.items@[k].start_location@),
            decreases n - i,
        {
            let it = &world.items[i];
            proof {
                if world.wf() {
                    assert forall|j: int|
                        0 <= j < item_locations.entries@.len() implies (#[trigger] item_locations.entries@[j]).id@
                        != it.id@ by {
                        assert(world.items@[j].id@ != world.items@[i as int].id@);
                    }
                    assert(!item_locations.has(it.id@));
                }
            }
            item_locations.set(it.id.as_str(), it.start_location.duplicate());
            i += 1;
        }
        let mut npc_locations = NpcMap::new();
        proof {
            assert forall|k: Seq<char>| !(#[trigger] npc_locations@.dom().contains(k)) by {}
            assert(npc_locations@ =~= Map::<Seq<char>, Seq<char>>::empty());
        }
        let m = world.npcs.len();
        let mut j: usize = 0;
        while j < m
            invariant
                j <= m,
                m == world.npcs@.len(),
                npc_locations.wf(),
                npc_locations@ == spec_seed_npcs(world.npcs@, j as nat),
                world.wf() ==> npc_locations.entries@.len() == j && (forall|k: int|
                    0 <= k < j ==> (#[trigger] npc_locations.entries@[k]).id@
                        == world.npcs@[k].id@ && npc_locations.entries@[k].room@
                        == world.npcs@[k].start_room@),
            decreases m - j,
        {
            let npc = &world.npcs[j];
            proof {
                if world.wf() {
                    assert forall|x: int|
                        0 <= x < npc_locations.entries@.len() implies (#[trigger] npc_locations.entries@[x]).id@
                        != npc.id@ by {
                        assert(world.npcs@[x].id@ != world.npcs@[j as int].id@);
                    }
                    assert(!npc_locations.has(npc.id@));
                }
            }
            npc_locations.set(npc.id.as_str(), npc.start_room.clone());
            j += 1;
        }
        GameState {
            world,
            current_room_id: String::new(),
            flags: FlagSet::new(),
            fired_global_conditions: FlagSet::new(),
            fired_dialogues: FlagSet::new(),
            item_locations,
            npc_locations,
            turn_index: 0,
            action_index: 0,
        }
    }

    /// Resolves one command into state changes and output, without the
    /// global-condition pass.
    #[verifier::rlimit(100)]
    fn dispatch(&mut self, out: &mut Output, input: &str, seed: u64) -> (r: (bool, bool))
        requires
            old(self).wf(),
            old(out).wf(),
        ensures
            final(self).wf(),
            final(out).wf(),
            final(self).world == old(self).world,
            final(self).fired_global_conditions == old(self).fired_global_conditions,
            final(self).action_index == old(self).action_index,
            ({
                let d = spec_dispatch(*old(self), input@, seed, old(out)@);
                &&& final(self).current_room_id@ == d.cur
                &&& final(self).flags@ == d.flags
                &&& final(self).fired_dialogues@ == d.fired_dialogues
                &&& final(self).item_locations@ == d.locs
                &&& final(self).npc_locations@ == d.nlocs
                &&& final(self).turn_index == d.turn
                &&& final(out)@ == d.out
                &&& r.0 == d.rendered
                &&& r.1 == d.quit
            }),
    {
        let ghost s0 = *self;
        let low = lower_str(input);
        if str_eq(low.as_str(), "quit") || str_eq(low.as_str(), "exit") {
            out.say("Goodbye.");
            return (false, true);
        }
        if str_eq(low.as_str(), "inventory") || str_eq(low.as_str(), "i") {
            handle_inventory(out, &self.world, &self.item_locations);
            return (false, false);
        }
        let toks = tokenize(input);
        let verb: String = if toks.len() > 0 {
            token_to_string(&toks[0])
        } else {
            String::new()
        };
        let rest_l: String = if toks.len() > 0 {
            join_tokens_after(&toks, 1)
        } else {
            String::new()
        };
        if str_eq(verb.as_str(), "talk") || str_eq(verb.as_str(), "speak") {
            handle_talk_to_npc(
                out,
                &self.world,
                &self.npc_locations,
                self.current_room_id.as_str(),
                rest_l.as_str(),
                &mut self.flags,
                &mut self.fired_dialogues,
            );
            return (false, false);
        }
        if str_eq(verb.as_str(), "take") || str_eq(verb.as_str(), "get") {
            if toks.len() == 1 {
                out.say("Take what?");
                return (false, false);
            }
            if str_eq(rest_l.as_str(), "all") {
                handle_take_all_room(
                    out,
                    &mut self.item_locations,
                    &self.world,
                    self.current_room_id.as_str(),
                    &self.flags,
                );
                return (false, false);
            }
            match find_from(rest_l.as_str()) {
                Some(fi) => {
                    proof {
                        lemma_find_from_props(rest_l@, 0);
                    }
                    let rn = rest_l.as_str().unicode_len();
                    let item_raw = rest_l.as_str().substring_char(0, fi);
                    let item_part = trim_str(item_raw);
                    let cont_raw = rest_l.as_str().substring_char(fi + 6, rn);
                    let cont_part = trim_str(cont_raw);
                    proof {
                        assert(item_raw@ =~= rest_l@.take(fi as int));
                        assert(cont_raw@ =~= rest_l@.skip(fi as int + 6));
                    }
                    if item_part.unicode_len() == 0 || cont_part.unicode_len() == 0 {
                        out.say("I don't understand what you want to take from where.");
                        return (false, false);
                    }
                    if str_eq(item_part, "all") {
                        handle_take_all_from_container(
                            out,
                            &mut self.item_locations,
                            &self.world,
                            self.current_room_id.as_str(),
                            cont_part,
                            &self.flags,
                        );
                        return (false, false);
                    }
                    handle_take_from_container(
                        out,
                        &mut self.item_locations,
                        &self.world,
                        self.current_room_id.as_str(),
                        item_part,
                        cont_part,
                        &self.flags,
                    );
                    return (false, false);
                },
                None => {
                    handle_take(
                        out,
                        &mut self.item_locations,
                        &self.world,
                        self.current_room_id.as_str(),
                        rest_l.as_str(),
                        &self.flags,
                    );
                    return (false, false);
                },
            }
        }
        if str_eq(verb.as_str(), "drop") {
            if toks.len() == 1 {
                out.say("Drop what?");
                return (false, false);
            }
            if str_eq(rest_l.as_str(), "all") {
                handle_drop_all(
                    out,
                    &mut self.item_locations,
                    &self.world,
                    self.current_room_id.as_str(),
                );
                return (false, false);
            }
            handle_drop(
                out,
                &mut self.item_locations,
                &self.world,
                self.current_room_id.as_str(),
                rest_l.as_str(),
            );
            return (false, false);
        }
        let is_look_at = str_eq(verb.as_str(), "look") && rest_l.as_str().unicode_len() >= 3
            && rest_l.as_str().get_char(0) == 'a' && rest_l.as_str().get_char(1) == 't'
            && rest_l.as_str().get_char(2) == ' ';
        proof {
            reveal_strlit("at ");
            if rest_l@.len() >= 3 {
                if rest_l@[0] == 'a' && rest_l@[1] == 't' && rest_l@[2] == ' ' {
                    assert(rest_l@.take(3) =~= "at "@);
                } else {
                    assert(rest_l@.take(3) != "at "@) by {
                        if rest_l@.take(3) == "at "@ {
                            assert(rest_l@.take(3)[0] == 'a');
                            assert(rest_l@.take(3)[1] == 't');
                            assert(rest_l@.take(3)[2] == ' ');
                        }
                    }
                }
            }
        }
        if str_eq(verb.as_str(), "examine") || str_eq(verb.as_str(), "x") || is_look_at {
            let target: &str = if str_eq(verb.as_str(), "look") {
                trim_str(strip_at_str(rest_l.as_str()))
            } else {
                trim_str(rest_l.as_str())
            };
            if target.unicode_len() == 0 {
                out.say("Examine what?");
                return (false, false);
            }
            handle_examine(
                out,
                &self.world,
                &self.item_locations,
                self.current_room_id.as_str(),
                target,
                &self.flags,
            );
            return (false, false);
        }
        let raw_verb = raw_first_token(input);
        if try_handle_container_store(
            out,
            raw_verb,
            rest_l.as_str(),
            &mut self.item_locations,
            &self.world,
            self.current_room_id.as_str(),
            &mut self.flags,
        ) {
            return (false, false);
        }
        let ridx = match self.world.room_index(self.current_room_id.as_str()) {
            Some(ridx) => ridx,
            None => {
                let mut m = String::from_str("Error: you are in an unknown room '");
                m.append(self.current_room_id.as_str());
                m.append("'");
                out.say(m.as_str());
                return (false, true);
            },
        };
        proof {
            lemma_room_index_unique(self.world.rooms@, ridx as int);
        }
        if str_eq(low.as_str(), "look") || str_eq(low.as_str(), "l") {
            render_room(
                out,
                &self.world.rooms[ridx],
                &self.flags,
                &self.world,
                &self.item_locations,
            );
            return (true, false);
        }
        let prev = self.current_room_id.clone();
        if try_handle_movement(
            out,
            &mut self.current_room_id,
            &self.world,
            &self.world.rooms[ridx],
            low.as_str(),
            &self.npc_locations,
            &mut self.flags,
            seed,
        ) {
            if !str_eq(self.current_room_id.as_str(), prev.as_str()) {
                self.turn_index = self.turn_index.wrapping_add(1);
                roam_npcs_after_player_move(
                    &self.world,
                    &mut self.npc_locations,
                    &self.flags,
                    self.turn_index,
                );
                match self.world.room_index(self.current_room_id.as_str()) {
                    Some(r2) => {
                        proof {
                            lemma_room_index_unique(self.world.rooms@, r2 as int);
                        }
                        render_room(
                            out,
                            &self.world.rooms[r2],
                            &self.flags,
                            &self.world,
                            &self.item_locations,
                        );
                        return (true, false);
                    },
                    None => {
                        return (false, false);
                    },
                }
            }
            return (true, false);
        }
        if try_handle_npc_action(
            out,
            input,
            &self.world,
            &mut self.item_locations,
            &self.npc_locations,
            self.current_room_id.as_str(),
            &mut self.flags,
        ) {
            return (false, false);
        }
        if try_handle_action(
            out,
            &self.world.rooms[ridx],
            input,
            &self.world,
            &self.item_locations,
            self.current_room_id.as_str(),
            &mut self.flags,
        ) {
            return (false, false);
        }
        if try_handle_global_action(
            out,
            input,
            &self.world,
            &self.item_locations,
            self.current_room_id.as_str(),
            &mut self.flags,
        ) {
            return (false, false);
        }
        out.say("I don't understand that command.");
        (false, false)
    }

    /// Processes a single player command: returns the turn's output and
    /// whether the player asked to quit. The action counter advances on
    /// every call, the global conditions fire after the command, and a
    /// relevant flag change may trigger one re-render.
    pub fn step(&mut self, input: &str) -> (r: (Output, bool))
        requires
            old(self).wf(),
        ensures
            final(self).wf(),
            final(self).world == old(self).world,
            ({
                let st = spec_step(*old(self), input@);
                &&& final(self).current_room_id@ == st.cur
                &&& final(self).flags@ == st.flags
                &&& final(self).fired_global_conditions@ == st.fired_global
                &&& final(self).fired_dialogues@ == st.fired_dialogues
                &&& final(self).item_locations@ == st.locs
                &&& final(self).npc_locations@ == st.nlocs
                &&& final(self).turn_index == st.turn
                &&& final(self).action_index == st.action
                &&& r.0@ == st.out
                &&& r.0.wf()
                &&& r.1 == st.quit
            }),
    {
        let mut out = Output::new();
        let seed = self.action_index.wrapping_add(1);
        let (rendered, quit) = self.dispatch(&mut out, input, seed);
        self.action_index = seed;
        let flags_before = self.flags.duplicate();
        evaluate_global_conditions(
            &mut out,
            &self.world,
            &mut self.flags,
            self.current_room_id.as_str(),
            &mut self.fired_global_conditions,
        );
        let changed = self.flags.sym_diff(&flags_before);
        proof {
            assert(changed@ =~= flags_before@.difference(self.flags@).union(
                self.flags@.difference(flags_before@),
            ));
        }
        if !changed.is_empty() && !rendered {
            match self.world.room_index(self.current_room_id.as_str()) {
                Some(ridx) => {
                    proof {
                        lemma_room_index_unique(self.world.rooms@, ridx as int);
                    }
                    if room_depends_on_any_flag(
                        &self.world.rooms[ridx],
                        &self.world,
                        &self.item_locations,
                        &changed,
                    ) {
                        render_room(
                            &mut out,
                            &self.world.rooms[ridx],
                            &self.flags,
                            &self.world,
                            &self.item_locations,
                        );
                    }
                },
                None => {},
            }
        }
        (out, quit)
    }

    /// Enters the starting room and renders it; `None` when the declared
    /// start room does not exist.
    pub fn initialize(&mut self) -> (r: Option<Output>)
        requires
            old(self).wf(),
        ensures
            final(self).wf(),
            final(self).world == old(self).world,
            final(self).current_room_id@ == old(self).world.start_room@,
            final(self).flags == old(self).flags,
            final(self).item_locations == old(self).item_locations,
            final(self).npc_locations == old(self).npc_locations,
            final(self).fired_global_conditions == old(self).fired_global_conditions,
            final(self).fired_dialogues == old(self).fired_dialogues,
            final(self).turn_index == old(self).turn_index,
            final(self).action_index == old(self).action_index,
            r is Some <==> spec_has_room(old(self).world.rooms@, old(self).world.start_room@),
            r matches Some(out) ==> out.wf() && out@ == spec_render_room(
                old(self).world,
                old(self).world.rooms@[spec_room_index(
                    old(self).world.rooms@,
                    old(self).world.start_room@,
                )],
                old(self).flags@,
                old(self).item_locations@,
                Seq::empty(),
            ),
    {
        self.current_room_id = self.world.start_room.clone();
        match self.world.room_index(self.current_room_id.as_str()) {
            Some(ridx) => {
                proof {
                    lemma_room_index_unique(self.world.rooms@, ridx as int);
                }
                let mut out = Output::new();
                render_room(
                    &mut out,
                    &self.world.rooms[ridx],
                    &self.flags,
                    &self.world,
                    &self.item_locations,
                );
                Some(out)
            },
            None => None,
        }
    }
}

} // verus!
