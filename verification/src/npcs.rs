//! The NPC subsystem: free-text NPC matching, NPC-scoped actions with
//! one-way consumption of required items, examining, dialogue, and
//! deterministic roaming.
use vstd::prelude::*;
use vstd::string::*;
use vstd::utf8::encode_utf8;

use crate::actions::{
    actions_bounded, evaluate_actions_for_input, spec_eval_actions,
};
use crate::conditions::{
    apply_effects, conditions_met, spec_apply_effects, spec_conditions_met,
};
use crate::flags::FlagSet;
use crate::locmap::{LocMap, NpcMap};
use crate::matching::{
    entity_words, overlap_count, spec_entity_words, spec_overlap,
};
use crate::model::{Item, LocV, Npc, World};
use crate::order::{
    insert_by_key, join_keys, sorted_by_keys, spec_join, spec_sort_indices, spec_sort_indices_upto,
};
use crate::output::{spec_say, BlockV, Output};
use crate::rand::{deterministic_index, deterministic_roll_percent, spec_index_in, spec_roll_percent};
use crate::text::{
    is_blank_str, spec_blank, spec_tokenize, spec_trim, str_eq, tokenize, trim_str, views_of,
};

verus! {

/// Whether the NPC's own visibility conditions are satisfied.
pub fn npc_visible(npc: &Npc, flags: &FlagSet) -> (r: bool)
    ensures
        r == spec_conditions_met(npc.conditions@, flags@),
{
    conditions_met(&npc.conditions, flags)
}

/// The locator score of the NPC at index `i`: zero when it is not in the
/// current room, invisible, or shares no word with the query; otherwise the
/// word-overlap count.
pub open spec fn spec_npc_score(
    w: World,
    nloc: NpcMap,
    flags: Set<Seq<char>>,
    cur: Seq<char>,
    q: Seq<Seq<char>>,
    i: int,
) -> nat {
    let npc = w.npcs@[i];
    if !(nloc.has(npc.id@) && nloc.at(npc.id@) == cur) {
        0
    } else if !spec_conditions_met(npc.conditions@, flags) {
        0
    } else {
        spec_overlap(q, spec_entity_words(npc.name@, npc.aliases@))
    }
}

/// The best NPC score among the first `n` NPCs.
pub open spec fn spec_best_npc_score_upto(
    w: World,
    nloc: NpcMap,
    flags: Set<Seq<char>>,
    cur: Seq<char>,
    q: Seq<Seq<char>>,
    n: nat,
) -> nat
    decreases n,
{
    if n == 0 {
        0
    } else {
        let prev = spec_best_npc_score_upto(w, nloc, flags, cur, q, (n - 1) as nat);
        let c = spec_npc_score(w, nloc, flags, cur, q, n - 1);
        if c > prev {
            c
        } else {
            prev
        }
    }
}

/// The best NPC score among all NPCs.
pub open spec fn spec_best_npc_score(
    w: World,
    nloc: NpcMap,
    flags: Set<Seq<char>>,
    cur: Seq<char>,
    q: Seq<Seq<char>>,
) -> nat {
    spec_best_npc_score_upto(w, nloc, flags, cur, q, w.npcs@.len())
}

/// How many of the first `n` NPCs reach score `m`.
pub open spec fn spec_npc_score_count_upto(
    w: World,
    nloc: NpcMap,
    flags: Set<Seq<char>>,
    cur: Seq<char>,
    q: Seq<Seq<char>>,
    m: nat,
    n: nat,
) -> nat
    decreases n,
{
    if n == 0 {
        0
    } else {
        spec_npc_score_count_upto(w, nloc, flags, cur, q, m, (n - 1) as nat) + (if spec_npc_score(
            w,
            nloc,
            flags,
            cur,
            q,
            n - 1,
        ) == m {
            1 as nat
        } else {
            0 as nat
        })
    }
}

/// How many NPCs reach score `m`.
pub open spec fn spec_npc_score_count(
    w: World,
    nloc: NpcMap,
    flags: Set<Seq<char>>,
    cur: Seq<char>,
    q: Seq<Seq<char>>,
    m: nat,
) -> nat {
    spec_npc_score_count_upto(w, nloc, flags, cur, q, m, w.npcs@.len())
}

/// A positive best score is attained by some NPC.
pub proof fn lemma_best_npc_attained(
    w: World,
    nloc: NpcMap,
    flags: Set<Seq<char>>,
    cur: Seq<char>,
    q: Seq<Seq<char>>,
    n: nat,
)
    requires
        spec_best_npc_score_upto(w, nloc, flags, cur, q, n) > 0,
    ensures
        exists|i: int|
            0 <= i < n && spec_npc_score(w, nloc, flags, cur, q, i) == spec_best_npc_score_upto(
                w,
                nloc,
                flags,
                cur,
                q,
                n,
            ),
    decreases n,
{
    let prev = spec_best_npc_score_upto(w, nloc, flags, cur, q, (n - 1) as nat);
    let c = spec_npc_score(w, nloc, flags, cur, q, n - 1);
    if c > prev {
        assert(spec_npc_score(w, nloc, flags, cur, q, n - 1) == spec_best_npc_score_upto(
            w,
            nloc,
            flags,
            cur,
            q,
            n,
        ));
    } else {
        lemma_best_npc_attained(w, nloc, flags, cur, q, (n - 1) as nat);
    }
}

/// An NPC at score `m` makes the count at least one.
pub proof fn lemma_npc_count_one(
    w: World,
    nloc: NpcMap,
    flags: Set<Seq<char>>,
    cur: Seq<char>,
    q: Seq<Seq<char>>,
    m: nat,
    i: int,
    n: nat,
)
    requires
        0 <= i < n,
        spec_npc_score(w, nloc, flags, cur, q, i) == m,
    ensures
        spec_npc_score_count_upto(w, nloc, flags, cur, q, m, n) >= 1,
    decreases n,
{
    if i < n - 1 {
        lemma_npc_count_one(w, nloc, flags, cur, q, m, i, (n - 1) as nat);
    }
}

/// Two distinct NPCs at score `m` make the count at least two.
pub proof fn lemma_npc_count_two(
    w: World,
    nloc: NpcMap,
    flags: Set<Seq<char>>,
    cur: Seq<char>,
    q: Seq<Seq<char>>,
    m: nat,
    i: int,
    j: int,
    n: nat,
)
    requires
        0 <= i < j < n,
        spec_npc_score(w, nloc, flags, cur, q, i) == m,
        spec_npc_score(w, nloc, flags, cur, q, j) == m,
    ensures
        spec_npc_score_count_upto(w, nloc, flags, cur, q, m, n) >= 2,
    decreases n,
{
    if j < n - 1 {
        lemma_npc_count_two(w, nloc, flags, cur, q, m, i, j, (n - 1) as nat);
    } else {
        lemma_npc_count_one(w, nloc, flags, cur, q, m, i, (n - 1) as nat);
    }
}

/// The index of the NPC reaching the best score, when there is exactly one.
pub open spec fn spec_npc_unique_index(
    w: World,
    nloc: NpcMap,
    flags: Set<Seq<char>>,
    cur: Seq<char>,
    q: Seq<Seq<char>>,
) -> int {
    choose|i: int|
        0 <= i < w.npcs@.len() && spec_npc_score(w, nloc, flags, cur, q, i)
            == spec_best_npc_score(w, nloc, flags, cur, q)
}

/// The outcome of the scored NPC locator.
pub enum NpcMatch {
    /// No visible NPC in the room shares a word with the query.
    NoMatch,
    /// A single NPC scores strictly highest: its index.
    Unique(usize),
    /// Two or more NPCs tie for the highest score: their indices, ordered by
    /// NPC name.
    Ambiguous(Vec<usize>),
}

/// Scored free-text NPC matching over name and alias words, restricted to
/// visible NPCs standing in the current room.
pub fn find_npc_by_words_scored(
    world: &World,
    npc_locations: &NpcMap,
    flags: &FlagSet,
    current_room_id: &str,
    query: &str,
) -> (r: NpcMatch)
    requires
        npc_locations.wf(),
    ensures
        ({
            let q = spec_tokenize(query@);
            let m = spec_best_npc_score(*world, *npc_locations, flags@, current_room_id@, q);
            let cnt = spec_npc_score_count(*world, *npc_locations, flags@, current_room_id@, q, m);
            match r {
                NpcMatch::NoMatch => m == 0,
                NpcMatch::Unique(i) => m > 0 && cnt == 1 && i < world.npcs@.len()
                    && spec_npc_score(*world, *npc_locations, flags@, current_room_id@, q, i as int)
                    == m,
                NpcMatch::Ambiguous(v) => m > 0 && cnt >= 2 && sorted_by_keys(
                    world.npcs@.map_values(|n: Npc| n.name),
                    v@,
                ) && v@.len() == cnt && (forall|x: usize|
                    v@.contains(x) == (x < world.npcs@.len() && spec_npc_score(
                        *world,
                        *npc_locations,
                        flags@,
                        current_room_id@,
                        q,
                        x as int,
                    ) == m)),
            }
        }),
{
    let toks = tokenize(query);
    let ghost q = views_of(toks@);
    let n = world.npcs.len();
    let mut scores: Vec<usize> = Vec::new();
    let mut best: usize = 0;
    let mut i: usize = 0;
    while i < n
        invariant
            i <= n,
            n == world.npcs@.len(),
            npc_locations.wf(),
            q == spec_tokenize(query@),
            scores@.len() == i,
            forall|k: int|
                0 <= k < i ==> scores@[k] == spec_npc_score(
                    *world,
                    *npc_locations,
                    flags@,
                    current_room_id@,
                    q,
                    k,
                ),
            best == spec_best_npc_score_upto(
                *world,
                *npc_locations,
                flags@,
                current_room_id@,
                q,
                i as nat,
            ),
        decreases n - i,
    {
        let npc = &world.npcs[i];
        let mut sc: usize = 0;
        let mut here = false;
        match npc_locations.get(npc.id.as_str()) {
            Some(rm) => {
                here = str_eq(rm.as_str(), current_room_id);
            },
            None => {},
        }
        if here {
            if conditions_met(&npc.conditions, flags) {
                let words = entity_words(npc.name.as_str(), &npc.aliases);
                sc = overlap_count(&toks, &words);
            }
        }
        if sc > best {
            best = sc;
        }
        scores.push(sc);
        i += 1;
    }
    let ghost m = spec_best_npc_score(*world, *npc_locations, flags@, current_room_id@, q);
    if best == 0 {
        return NpcMatch::NoMatch;
    }
    let mut names: Vec<String> = Vec::new();
    let mut i: usize = 0;
    while i < n
        invariant
            i <= n,
            n == world.npcs@.len(),
            names@.len() == i,
            forall|k: int| 0 <= k < i ==> names@[k] == world.npcs@[k].name,
        decreases n - i,
    {
        names.push(world.npcs[i].name.clone());
        i += 1;
    }
    proof {
        assert(names@ =~= world.npcs@.map_values(|x: Npc| x.name));
    }
    let mut picked: Vec<usize> = Vec::new();
    let mut i: usize = 0;
    while i < n
        invariant
            i <= n,
            n == world.npcs@.len(),
            names@ == world.npcs@.map_values(|x: Npc| x.name),
            scores@.len() == n,
            best == m,
            q == spec_tokenize(query@),
            forall|k: int|
                0 <= k < n ==> scores@[k] == spec_npc_score(
                    *world,
                    *npc_locations,
                    flags@,
                    current_room_id@,
                    q,
                    k,
                ),
            forall|k: int| 0 <= k < picked@.len() ==> #[trigger] picked@[k] < n,
            sorted_by_keys(names@, picked@),
            picked@.len() == spec_npc_score_count_upto(
                *world,
                *npc_locations,
                flags@,
                current_room_id@,
                q,
                m,
                i as nat,
            ),
            forall|x: usize|
                picked@.contains(x) == (x < i && spec_npc_score(
                    *world,
                    *npc_locations,
                    flags@,
                    current_room_id@,
                    q,
                    x as int,
                ) == m),
        decreases n - i,
    {
        let ghost picked0 = picked@;
        if scores[i] == best {
            insert_by_key(&names, &mut picked, i);
            proof {
                assert forall|x: usize|
                    picked@.contains(x) == (x < i + 1 && spec_npc_score(
                        *world,
                        *npc_locations,
                        flags@,
                        current_room_id@,
                        q,
                        x as int,
                    ) == m) by {
                    assert(picked@.contains(x) == (picked0.contains(x) || x == i));
                }
            }
        } else {
            proof {
                assert forall|x: usize|
                    picked@.contains(x) == (x < i + 1 && spec_npc_score(
                        *world,
                        *npc_locations,
                        flags@,
                        current_room_id@,
                        q,
                        x as int,
                    ) == m) by {
                    if x == i {
                        assert(!picked0.contains(x));
                    }
                }
            }
        }
        i += 1;
    }
    if picked.len() == 1 {
        let idx = picked[0];
        proof {
            assert(picked@.contains(picked@[0]));
        }
        NpcMatch::Unique(idx)
    } else {
        proof {
            lemma_best_npc_attained(*world, *npc_locations, flags@, current_room_id@, q, n as nat);
            let wit = choose|i: int|
                0 <= i < n && spec_npc_score(*world, *npc_locations, flags@, current_room_id@, q, i)
                    == m;
            assert(picked@.contains(wit as usize));
            assert(picked@.len() >= 1);
        }
        NpcMatch::Ambiguous(picked)
    }
}

/// The location map after the required items have been consumed: their
/// entries removed outright, in list order.
pub open spec fn spec_consume(m: Map<Seq<char>, LocV>, ids: Seq<String>, n: nat) -> Map<
    Seq<char>,
    LocV,
>
    decreases n,
{
    if n == 0 {
        m
    } else {
        spec_consume(m, ids, (n - 1) as nat).remove(ids[n - 1]@)
    }
}

/// The whole state change of an NPC-scoped action attempt.
pub open spec fn spec_npc_action_outcome(
    w: World,
    locs: LocMap,
    nloc: NpcMap,
    flags: Set<Seq<char>>,
    cur: Seq<char>,
    input: Seq<char>,
    outv: Seq<BlockV>,
) -> (Map<Seq<char>, LocV>, Set<Seq<char>>, Seq<BlockV>, bool) {
    let q = spec_tokenize(input);
    let m = spec_best_npc_score(w, nloc, flags, cur, q);
    let cnt = spec_npc_score_count(w, nloc, flags, cur, q, m);
    if q.len() == 0 {
        (locs@, flags, outv, false)
    } else if m == 0 {
        (locs@, flags, outv, false)
    } else if cnt != 1 {
        (locs@, flags, spec_say(outv, "Be more specific."@), true)
    } else {
        let npc = w.npcs@[spec_npc_unique_index(w, nloc, flags, cur, q)];
        let st = spec_eval_actions(w, locs, flags, cur, q, npc.actions@);
        if st.count == 1 {
            let a = npc.actions@[st.first];
            (
                spec_consume(locs@, a.requires_inventory@, a.requires_inventory@.len()),
                spec_apply_effects(flags, a.effects@),
                spec_say(outv, spec_trim(a.response@)),
                true,
            )
        } else if st.count > 1 {
            (locs@, flags, spec_say(outv, "Be more specific."@), true)
        } else if st.block_key >= 0 {
            (locs@, flags, spec_say(outv, st.block_msg), true)
        } else {
            (locs@, flags, outv, false)
        }
    }
}

/// Attempts to resolve the input against the actions of the NPC it
/// addresses. A successful action permanently consumes its required
/// inventory items: their location entries are removed outright.
pub fn try_handle_npc_action(
    out: &mut Output,
    input: &str,
    world: &World,
    item_locations: &mut LocMap,
    npc_locations: &NpcMap,
    current_room_id: &str,
    flags: &mut FlagSet,
) -> (r: bool)
    requires
        old(out).wf(),
        world.wf(),
        old(item_locations).wf(),
        npc_locations.wf(),
        forall|i: int|
            0 <= i < world.npcs@.len() ==> actions_bounded(#[trigger] world.npcs@[i].actions@),
    ensures
        final(out).wf(),
        final(item_locations).wf(),
        r == false ==> *final(item_locations) == *old(item_locations),
        (final(item_locations)@, final(flags)@, final(out)@, r) == spec_npc_action_outcome(
            *world,
            *old(item_locations),
            *npc_locations,
            old(flags)@,
            current_room_id@,
            input@,
            old(out)@,
        ),
{
    let toks = tokenize(input);
    if toks.len() == 0 {
        proof {
            assert(spec_tokenize(input@).len() == 0);
        }
        return false;
    }
    let ghost q = spec_tokenize(input@);
    let npc_match = find_npc_by_words_scored(world, npc_locations, flags, current_room_id, input);
    let npc_idx: usize;
    match npc_match {
        NpcMatch::NoMatch => {
            return false;
        },
        NpcMatch::Ambiguous(_) => {
            out.say("Be more specific.");
            return true;
        },
        NpcMatch::Unique(ix) => {
            npc_idx = ix;
        },
    }
    proof {
        let m = spec_best_npc_score(*world, *npc_locations, flags@, current_room_id@, q);
        let ci = spec_npc_unique_index(*world, *npc_locations, flags@, current_room_id@, q);
        assert(0 <= ci < world.npcs@.len() && spec_npc_score(
            *world,
            *npc_locations,
            flags@,
            current_room_id@,
            q,
            ci,
        ) == m);
        if ci != npc_idx as int {
            if ci < npc_idx as int {
                lemma_npc_count_two(
                    *world,
                    *npc_locations,
                    flags@,
                    current_room_id@,
                    q,
                    m,
                    ci,
                    npc_idx as int,
                    world.npcs@.len(),
                );
            } else {
                lemma_npc_count_two(
                    *world,
                    *npc_locations,
                    flags@,
                    current_room_id@,
                    q,
                    m,
                    npc_idx as int,
                    ci,
                    world.npcs@.len(),
                );
            }
        }
    }
    let npc = &world.npcs[npc_idx];
    let (exec, msg, handled) = evaluate_actions_for_input(
        &npc.actions,
        input,
        world,
        item_locations,
        current_room_id,
        flags,
    );
    match exec {
        Some(ix) => {
            let a = &npc.actions[ix];
            out.say(trim_str(a.response.as_str()));
            apply_effects(flags, &a.effects);
            let nr = a.requires_inventory.len();
            let mut k: usize = 0;
            while k < nr
                invariant
                    k <= nr,
                    nr == a.requires_inventory@.len(),
                    item_locations.wf(),
                    item_locations@ == spec_consume(
                        old(item_locations)@,
                        a.requires_inventory@,
                        k as nat,
                    ),
                decreases nr - k,
            {
                item_locations.remove(a.requires_inventory[k].as_str());
                k += 1;
            }
            return true;
        },
        None => {},
    }
    match msg {
        Some(m) => {
            out.say(m.as_str());
            return true;
        },
        None => {},
    }
    handled
}

/// When the count at the best score is one, any index at the best score is
/// the unique index.
pub proof fn lemma_npc_unique_agrees(
    w: World,
    nloc: NpcMap,
    flags: Set<Seq<char>>,
    cur: Seq<char>,
    q: Seq<Seq<char>>,
    idx: int,
)
    requires
        0 <= idx < w.npcs@.len(),
        spec_npc_score(w, nloc, flags, cur, q, idx) == spec_best_npc_score(w, nloc, flags, cur, q),
        spec_npc_score_count(
            w,
            nloc,
            flags,
            cur,
            q,
            spec_best_npc_score(w, nloc, flags, cur, q),
        ) == 1,
    ensures
        spec_npc_unique_index(w, nloc, flags, cur, q) == idx,
{
    let m = spec_best_npc_score(w, nloc, flags, cur, q);
    let ci = spec_npc_unique_index(w, nloc, flags, cur, q);
    assert(0 <= ci < w.npcs@.len() && spec_npc_score(w, nloc, flags, cur, q, ci) == m);
    if ci < idx {
        lemma_npc_count_two(w, nloc, flags, cur, q, m, ci, idx, w.npcs@.len());
    } else if idx < ci {
        lemma_npc_count_two(w, nloc, flags, cur, q, m, idx, ci, w.npcs@.len());
    }
}

/// The items held by the NPC, among the first `n` items, in declaration
/// order: located at the NPC and visibility-passing.
pub open spec fn spec_held_upto(
    items: Seq<Item>,
    locs: LocMap,
    flags: Set<Seq<char>>,
    npc_id: Seq<char>,
    n: nat,
) -> Seq<int>
    decreases n,
{
    if n == 0 {
        Seq::empty()
    } else {
        let p = spec_held_upto(items, locs, flags, npc_id, (n - 1) as nat);
        let it = items[n - 1];
        if locs.has(it.id@) && (locs.at(it.id@) matches LocV::Npc(h) && h == npc_id)
            && spec_conditions_met(it.conditions@, flags) {
            p.push(n - 1)
        } else {
            p
        }
    }
}

/// The output change of examining an NPC: its examine text (or a default),
/// then the visible items it holds, ordered by name.
pub open spec fn spec_examine_npc_outcome(
    w: World,
    locs: LocMap,
    nloc: NpcMap,
    flags: Set<Seq<char>>,
    cur: Seq<char>,
    target: Seq<char>,
    outv: Seq<BlockV>,
) -> (Seq<BlockV>, bool) {
    let q = spec_tokenize(target);
    let m = spec_best_npc_score(w, nloc, flags, cur, q);
    let cnt = spec_npc_score_count(w, nloc, flags, cur, q, m);
    if q.len() == 0 {
        (outv, false)
    } else if m == 0 {
        (outv, false)
    } else if cnt != 1 {
        (spec_say(outv, "Be more specific."@), true)
    } else {
        let npc = w.npcs@[spec_npc_unique_index(w, nloc, flags, cur, q)];
        let o1 = if spec_blank(npc.examine_text@) {
            spec_say(outv, "You see nothing special about "@ + npc.name@ + "."@)
        } else {
            spec_say(outv, spec_trim(npc.examine_text@))
        };
        let held = spec_held_upto(w.items@, locs, flags, npc.id@, w.items@.len());
        if held.len() == 0 {
            (o1, true)
        } else {
            let sorted = spec_sort_indices(w.items@.map_values(|it: Item| it.name), held);
            (
                spec_say(
                    o1,
                    npc.name@ + " is holding: "@ + spec_join(
                        sorted.map_values(|i: int| w.items@[i].name@),
                        ", "@,
                    ) + "."@,
                ),
                true,
            )
        }
    }
}

/// Examines an NPC in the current room: its examine text (or a default),
/// then the visible items it holds, ordered by name.
pub fn try_handle_examine_npc(
    out: &mut Output,
    item_locations: &LocMap,
    world: &World,
    npc_locations: &NpcMap,
    current_room_id: &str,
    target_name: &str,
    flags: &FlagSet,
) -> (r: bool)
    requires
        old(out).wf(),
        item_locations.wf(),
        npc_locations.wf(),
    ensures
        final(out).wf(),
        (final(out)@, r) == spec_examine_npc_outcome(
            *world,
            *item_locations,
            *npc_locations,
            flags@,
            current_room_id@,
            target_name@,
            old(out)@,
        ),
{
    let toks = tokenize(target_name);
    if toks.len() == 0 {
        return false;
    }
    let ghost q = spec_tokenize(target_name@);
    let npc_match = find_npc_by_words_scored(
        world,
        npc_locations,
        flags,
        current_room_id,
        target_name,
    );
    let npc_idx: usize;
    match npc_match {
        NpcMatch::NoMatch => {
            return false;
        },
        NpcMatch::Ambiguous(_) => {
            out.say("Be more specific.");
            return true;
        },
        NpcMatch::Unique(ix) => {
            npc_idx = ix;
        },
    }
    proof {
        lemma_npc_unique_agrees(
            *world,
            *npc_locations,
            flags@,
            current_room_id@,
            q,
            npc_idx as int,
        );
    }
    let npc = &world.npcs[npc_idx];
    if is_blank_str(npc.examine_text.as_str()) {
        let mut msg = String::from_str("You see nothing special about ");
        msg.append(npc.name.as_str());
        msg.append(".");
        out.say(msg.as_str());
    } else {
        out.say(trim_str(npc.examine_text.as_str()));
    }
    // collect the visible items this NPC holds, in declaration order
    let n = world.items.len();
    let mut held: Vec<usize> = Vec::new();
    let mut i: usize = 0;
    while i < n
        invariant
            i <= n,
            n == world.items@.len(),
            item_locations.wf(),
            ({
                let sh = spec_held_upto(world.items@, *item_locations, flags@, npc.id@, i as nat);
                held@.len() == sh.len() && (forall|k: int| 0 <= k < sh.len() ==> held@[k] == sh[k])
                    && (forall|k: int| 0 <= k < held@.len() ==> #[trigger] held@[k] < n)
            }),
        decreases n - i,
    {
        let it = &world.items[i];
        let mut is_held = false;
        match item_locations.get(it.id.as_str()) {
            Some(loc) => match &loc {
                crate::model::ItemLocation::Npc(h) => {
                    is_held = str_eq(h.as_str(), npc.id.as_str());
                },
                _ => {},
            },
            None => {},
        }
        if is_held && conditions_met(&it.conditions, flags) {
            held.push(i);
        }
        i += 1;
    }
    let ghost sh = spec_held_upto(world.items@, *item_locations, flags@, npc.id@, n as nat);
    if held.len() == 0 {
        return true;
    }
    // order the held items by name
    let mut names: Vec<String> = Vec::new();
    let mut i: usize = 0;
    while i < n
        invariant
            i <= n,
            n == world.items@.len(),
            names@.len() == i,
            forall|k: int| 0 <= k < i ==> names@[k] == world.items@[k].name,
        decreases n - i,
    {
        names.push(world.items[i].name.clone());
        i += 1;
    }
    proof {
        assert(names@ =~= world.items@.map_values(|it: Item| it.name));
    }
    let ghost heldm = held@.map_values(|u: usize| u as int);
    proof {
        assert(heldm =~= sh);
    }
    let nh = held.len();
    let mut order: Vec<usize> = Vec::new();
    let mut k: usize = 0;
    while k < nh
        invariant
            k <= nh,
            nh == held@.len(),
            heldm == held@.map_values(|u: usize| u as int),
            names@ == world.items@.map_values(|it: Item| it.name),
            forall|x: int| 0 <= x < held@.len() ==> #[trigger] held@[x] < names@.len(),
            forall|x: int| 0 <= x < order@.len() ==> #[trigger] order@[x] < names@.len(),
            sorted_by_keys(names@, order@),
            order@.map_values(|u: usize| u as int) == spec_sort_indices_upto(
                names@,
                heldm,
                k as nat,
            ),
        decreases nh - k,
    {
        insert_by_key(&names, &mut order, held[k]);
        k += 1;
    }
    let list = join_keys(&names, &order, ", ");
    let mut msg = npc.name.clone();
    msg.append(" is holding: ");
    msg.append(list.as_str());
    msg.append(".");
    proof {
        let sorted = spec_sort_indices(names@, heldm);
        assert(order@.map_values(|u: usize| u as int) == sorted);
        assert(order@.map_values(|u: usize| names@[u as int]@) =~= sorted.map_values(
            |i: int| world.items@[i].name@,
        ));
    }
    out.say(msg.as_str());
    true
}

/// The fired-key of a dialogue entry: the NPC id and the entry id joined.
pub open spec fn spec_dialogue_key(npc: Npc, d: crate::model::NpcDialogue) -> Seq<char> {
    npc.id@ + "::"@ + d.id@
}

/// Whether a dialogue entry can fire: conditions met, and not an
/// already-fired one-shot.
pub open spec fn spec_dialogue_ready(
    npc: Npc,
    d: crate::model::NpcDialogue,
    flags: Set<Seq<char>>,
    fired: Set<Seq<char>>,
) -> bool {
    spec_conditions_met(d.conditions@, flags) && !(d.one_shot && fired.contains(
        spec_dialogue_key(npc, d),
    ))
}

/// The first dialogue entry that can fire, among the first `n` (-1 if none).
pub open spec fn spec_first_dialogue_upto(
    npc: Npc,
    flags: Set<Seq<char>>,
    fired: Set<Seq<char>>,
    n: nat,
) -> int
    decreases n,
{
    if n == 0 {
        -1
    } else {
        let p = spec_first_dialogue_upto(npc, flags, fired, (n - 1) as nat);
        if p >= 0 {
            p
        } else if spec_dialogue_ready(npc, npc.dialogue@[n - 1], flags, fired) {
            n - 1
        } else {
            -1
        }
    }
}

/// Once a dialogue entry has been selected, later entries change nothing.
pub proof fn lemma_first_dialogue_frozen(
    npc: Npc,
    flags: Set<Seq<char>>,
    fired: Set<Seq<char>>,
    n: nat,
    m: nat,
)
    requires
        n <= m <= npc.dialogue@.len(),
        spec_first_dialogue_upto(npc, flags, fired, n) >= 0,
    ensures
        spec_first_dialogue_upto(npc, flags, fired, m) == spec_first_dialogue_upto(
            npc,
            flags,
            fired,
            n,
        ),
    decreases m,
{
    if m > n {
        lemma_first_dialogue_frozen(npc, flags, fired, n, (m - 1) as nat);
    }
}

/// The whole state change of a talk attempt.
pub open spec fn spec_talk_outcome(
    w: World,
    nloc: NpcMap,
    flags: Set<Seq<char>>,
    fired: Set<Seq<char>>,
    cur: Seq<char>,
    target: Seq<char>,
    outv: Seq<BlockV>,
) -> (Set<Seq<char>>, Set<Seq<char>>, Seq<BlockV>, bool) {
    let q = spec_tokenize(target);
    let m = spec_best_npc_score(w, nloc, flags, cur, q);
    let cnt = spec_npc_score_count(w, nloc, flags, cur, q, m);
    if spec_blank(target) {
        (flags, fired, spec_say(outv, "Talk to whom?"@), true)
    } else if m == 0 {
        (flags, fired, outv, false)
    } else if cnt != 1 {
        (flags, fired, spec_say(outv, "Be more specific."@), true)
    } else {
        let npc = w.npcs@[spec_npc_unique_index(w, nloc, flags, cur, q)];
        if npc.dialogue@.len() == 0 {
            (flags, fired, spec_say(outv, npc.name@ + " has nothing to say."@), true)
        } else {
            let d_idx = spec_first_dialogue_upto(npc, flags, fired, npc.dialogue@.len());
            if d_idx >= 0 {
                let d = npc.dialogue@[d_idx];
                (
                    spec_apply_effects(flags, d.effects@),
                    if d.one_shot {
                        fired.insert(spec_dialogue_key(npc, d))
                    } else {
                        fired
                    },
                    spec_say(outv, spec_trim(d.response@)),
                    true,
                )
            } else {
                (flags, fired, spec_say(outv, npc.name@ + " has nothing new to say."@), true)
            }
        }
    }
}

/// Talks to an NPC in the current room: the first dialogue entry whose
/// conditions hold (and that is not an exhausted one-shot) fires; its
/// effects apply and a one-shot entry is marked as fired.
pub fn handle_talk_to_npc(
    out: &mut Output,
    world: &World,
    npc_locations: &NpcMap,
    current_room_id: &str,
    target_name: &str,
    flags: &mut FlagSet,
    fired_dialogues: &mut FlagSet,
) -> (r: bool)
    requires
        old(out).wf(),
        npc_locations.wf(),
    ensures
        final(out).wf(),
        (final(flags)@, final(fired_dialogues)@, final(out)@, r) == spec_talk_outcome(
            *world,
            *npc_locations,
            old(flags)@,
            old(fired_dialogues)@,
            current_room_id@,
            target_name@,
            old(out)@,
        ),
{
    if is_blank_str(target_name) {
        out.say("Talk to whom?");
        return true;
    }
    let ghost q = spec_tokenize(target_name@);
    let npc_match = find_npc_by_words_scored(
        world,
        npc_locations,
        flags,
        current_room_id,
        target_name,
    );
    let npc_idx: usize;
    match npc_match {
        NpcMatch::NoMatch => {
            return false;
        },
        NpcMatch::Ambiguous(_) => {
            out.say("Be more specific.");
            return true;
        },
        NpcMatch::Unique(ix) => {
            npc_idx = ix;
        },
    }
    proof {
        lemma_npc_unique_agrees(
            *world,
            *npc_locations,
            flags@,
            current_room_id@,
            q,
            npc_idx as int,
        );
    }
    let npc = &world.npcs[npc_idx];
    let nd = npc.dialogue.len();
    if nd == 0 {
        let mut msg = npc.name.clone();
        msg.append(" has nothing to say.");
        out.say(msg.as_str());
        return true;
    }
    let mut i: usize = 0;
    while i < nd
        invariant
            i <= nd,
            nd == npc.dialogue@.len(),
            out.wf(),
            out@ == old(out)@,
            flags@ == old(flags)@,
            fired_dialogues@ == old(fired_dialogues)@,
            spec_first_dialogue_upto(*npc, flags@, fired_dialogues@, i as nat) == -1,
        decreases nd - i,
    {
        let d = &npc.dialogue[i];
        if conditions_met(&d.conditions, flags) {
            let mut key = npc.id.clone();
            key.append("::");
            key.append(d.id.as_str());
            let blocked = d.one_shot && fired_dialogues.contains(key.as_str());
            if !blocked {
                proof {
                    lemma_first_dialogue_frozen(
                        *npc,
                        flags@,
                        fired_dialogues@,
                        (i + 1) as nat,
                        nd as nat,
                    );
                }
                out.say(trim_str(d.response.as_str()));
                apply_effects(flags, &d.effects);
                if d.one_shot {
                    fired_dialogues.insert(key.as_str());
                }
                return true;
            }
        }
        i += 1;
    }
    let mut msg = npc.name.clone();
    msg.append(" has nothing new to say.");
    out.say(msg.as_str());
    true
}

/// One NPC's roaming step: with roaming enabled and configured, a
/// deterministic roll against the chance, then a deterministic pick among
/// the allowed rooms; the move happens only when the picked room exists.
pub open spec fn spec_roam_step(
    w: World,
    turn: u64,
    m: Map<Seq<char>, Seq<char>>,
    npc: Npc,
) -> Map<Seq<char>, Seq<char>> {
    match npc.roam {
        Some(r) => if r.enabled && r.allowed_rooms@.len() > 0 && r.chance_percent > 0 {
            if spec_roll_percent(turn, encode_utf8(npc.id@)) < r.chance_percent as u64 {
                let idx = spec_index_in(turn, encode_utf8(npc.id@), r.allowed_rooms@.len());
                let target = r.allowed_rooms@[idx as int]@;
                if crate::model::spec_has_room(w.rooms@, target) {
                    m.insert(npc.id@, target)
                } else {
                    m
                }
            } else {
                m
            }
        } else {
            m
        },
        None => m,
    }
}

/// The NPC-location map after the first `n` NPCs have taken their roaming
/// step, in declaration order.
pub open spec fn spec_roam_upto(
    w: World,
    turn: u64,
    m: Map<Seq<char>, Seq<char>>,
    n: nat,
) -> Map<Seq<char>, Seq<char>>
    decreases n,
{
    if n == 0 {
        m
    } else {
        spec_roam_step(w, turn, spec_roam_upto(w, turn, m, (n - 1) as nat), w.npcs@[n - 1])
    }
}

/// Deterministic roaming after a successful player room change: every
/// roaming-enabled NPC rolls against its chance and may relocate to one of
/// its allowed rooms, keyed by the turn counter.
pub fn roam_npcs_after_player_move(
    world: &World,
    npc_locations: &mut NpcMap,
    flags: &FlagSet,
    turn_index: u64,
)
    requires
        old(npc_locations).wf(),
    ensures
        final(npc_locations).wf(),
        final(npc_locations)@ == spec_roam_upto(
            *world,
            turn_index,
            old(npc_locations)@,
            world.npcs@.len(),
        ),
{
    let n = world.npcs.len();
    let mut i: usize = 0;
    while i < n
        invariant
            i <= n,
            n == world.npcs@.len(),
            npc_locations.wf(),
            npc_locations@ == spec_roam_upto(*world, turn_index, old(npc_locations)@, i as nat),
        decreases n - i,
    {
        let npc = &world.npcs[i];
        match &npc.roam {
            Some(r) => {
                if r.enabled && r.allowed_rooms.len() > 0 && r.chance_percent > 0 {
                    let roll = deterministic_roll_percent(turn_index, npc.id.as_str());
                    if roll < r.chance_percent as u64 {
                        let idx = deterministic_index(
                            turn_index,
                            npc.id.as_str(),
                            r.allowed_rooms.len(),
                        );
                        let target = &r.allowed_rooms[idx];
                        if world.has_room(target.as_str()) {
                            npc_locations.set(npc.id.as_str(), target.clone());
                        }
                    }
                }
            },
            None => {},
        }
        i += 1;
    }
}

} // verus!
