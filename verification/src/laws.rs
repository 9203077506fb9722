//! General laws of the engine, stated and proved over the same spec
//! functions that the public contracts use.
use vstd::prelude::*;
use vstd::string::*;

use crate::actions::{
    action_bounded, lemma_assess_block_total_bound, spec_action_outcome, spec_assess,
    spec_eval_actions, spec_inv_eval, spec_scope_eval, Assess,
};
use crate::conditions::{cond_negated, spec_conditions_met, spec_cond_holds};
use crate::items::{
    spec_any_supports_upto, spec_completion, spec_container_props, spec_store_outcome,
    spec_take_from_container_outcome,
};
use crate::locmap::{count_inside_upto, LocMap};
use crate::model::{Action, Item, ItemKind, LocV, World};
use crate::movement::{spec_abbrev_upto, spec_exact_matches, spec_try_movement};
use crate::matching::{
    spec_best_item_score, spec_item_score_count_upto, spec_item_unique_index, FilterV,
};
use crate::output::{spec_say, BlockV};
use crate::state::{spec_step, GameState, StepR};
use crate::text::{lower_seq, spec_blank, spec_tokenize, spec_trim};

verus! {

/// An empty condition list is vacuously satisfied, whatever the flags.
pub proof fn lemma_conditions_met_empty(conds: Seq<String>, flags: Set<Seq<char>>)
    requires
        conds.len() == 0,
    ensures
        spec_conditions_met(conds, flags),
{
}

/// A single negated condition is satisfied exactly when its flag is absent.
pub proof fn lemma_conditions_met_single_negated(conds: Seq<String>, flags: Set<Seq<char>>)
    requires
        conds.len() == 1,
        cond_negated(conds[0]@),
    ensures
        spec_conditions_met(conds, flags) <==> !flags.contains(conds[0]@.skip(1)),
{
    assert(spec_cond_holds(conds[0]@, flags) == !flags.contains(conds[0]@.skip(1)));
    if spec_cond_holds(conds[0]@, flags) {
        assert(spec_conditions_met(conds, flags));
    }
}

/// When two or more actions tie for the highest executable score, the
/// resolver reports ambiguity and never silently picks one: the flags stay
/// unchanged and the only output is the ambiguity report.
pub proof fn lemma_action_tie_reports_ambiguity(
    actions: Seq<Action>,
    w: World,
    locs: LocMap,
    flags: Set<Seq<char>>,
    room: Seq<char>,
    input: Seq<char>,
    outv: Seq<BlockV>,
)
    requires
        spec_eval_actions(w, locs, flags, room, spec_tokenize(input), actions).count > 1,
    ensures
        spec_action_outcome(actions, w, locs, flags, room, input, outv) == (
            flags,
            spec_say(outv, "Be more specific."@),
            true,
        ),
{
}

/// Among blocked candidates, a missing-inventory report outranks every
/// missing-scope or failed-conditions report, whatever the scores: the
/// blocked-feedback choice orders reason priority above score.
pub proof fn lemma_missing_inventory_outranks(
    w: World,
    locs: LocMap,
    flags: Set<Seq<char>>,
    room: Seq<char>,
    toks: Seq<Seq<char>>,
    a1: Action,
    a2: Action,
    k1: nat,
    m1: Seq<char>,
    k2: nat,
    m2: Seq<char>,
)
    requires
        action_bounded(a2),
        spec_assess(w, locs, flags, room, toks, a1) == Assess::Block(k1, m1),
        spec_assess(w, locs, flags, room, toks, a2) == Assess::Block(k2, m2),
        !spec_inv_eval(locs, a1.requires_inventory@).ok,
        spec_inv_eval(locs, a2.requires_inventory@).ok,
    ensures
        k1 > k2,
{
    lemma_assess_block_total_bound(w, locs, flags, room, toks, a2);
}

/// Among blocked candidates whose inventory requirements are met, a
/// missing-scope report outranks every failed-conditions report, whatever
/// the scores.
pub proof fn lemma_missing_scope_outranks_condition(
    w: World,
    locs: LocMap,
    flags: Set<Seq<char>>,
    room: Seq<char>,
    toks: Seq<Seq<char>>,
    a1: Action,
    a2: Action,
    k1: nat,
    m1: Seq<char>,
    k2: nat,
    m2: Seq<char>,
)
    requires
        action_bounded(a2),
        spec_assess(w, locs, flags, room, toks, a1) == Assess::Block(k1, m1),
        spec_assess(w, locs, flags, room, toks, a2) == Assess::Block(k2, m2),
        spec_inv_eval(locs, a1.requires_inventory@).ok,
        !spec_scope_eval(w, locs, flags, room, toks, a1.scope_requirements@).ok,
        spec_inv_eval(locs, a2.requires_inventory@).ok,
        spec_scope_eval(w, locs, flags, room, toks, a2.scope_requirements@).ok,
    ensures
        k1 > k2,
{
    lemma_assess_block_total_bound(w, locs, flags, room, toks, a2);
}

/// Abbreviation matching considers input tokens of length exactly one and
/// nothing else: without single-character tokens there are no abbreviation
/// characters at all.
pub proof fn lemma_abbrev_uses_only_single_char_tokens(toks: Seq<Seq<char>>, n: nat)
    requires
        n <= toks.len(),
        forall|k: int| 0 <= k < toks.len() ==> (#[trigger] toks[k]).len() != 1,
    ensures
        spec_abbrev_upto(toks, n).len() == 0,
    decreases n,
{
    if n > 0 {
        lemma_abbrev_uses_only_single_char_tokens(toks, (n - 1) as nat);
    }
}

/// A command whose tokens are all longer than one character never moves by
/// abbreviation: if the exact pass found nothing, the whole movement
/// attempt declines the input and changes nothing.
pub proof fn lemma_no_abbreviation_without_single_char_tokens(
    w: World,
    room: crate::model::Room,
    cmd: Seq<char>,
    nloc: crate::locmap::NpcMap,
    flags: Set<Seq<char>>,
    seed: u64,
    outv: Seq<BlockV>,
    cur: Seq<char>,
)
    requires
        forall|k: int|
            0 <= k < spec_tokenize(cmd).len() ==> (#[trigger] spec_tokenize(cmd)[k]).len() != 1,
        spec_exact_matches(room.exits@, spec_tokenize(cmd), flags).len() == 0,
    ensures
        spec_try_movement(w, room, cmd, nloc, flags, seed, outv, cur) == (outv, cur, flags, false),
{
    let toks = spec_tokenize(cmd);
    lemma_abbrev_uses_only_single_char_tokens(toks, toks.len());
}

/// A store attempt that passes every gate — some visible container accepts
/// the verb, the query resolves to a unique carried portable item and to a
/// unique accepting container, the container's interaction conditions hold,
/// and capacity is not exceeded — relocates exactly that item into that
/// container, reports it, and runs the completion check on the new
/// placement: the storing half of the round trip.
pub proof fn lemma_store_success(
    w: World,
    locs: LocMap,
    flags: Set<Seq<char>>,
    cur: Seq<char>,
    verb: Seq<char>,
    rest: Seq<char>,
    outv: Seq<BlockV>,
)
    requires
        lower_seq(spec_trim(verb)).len() > 0,
        spec_any_supports_upto(w, locs, flags, cur, lower_seq(spec_trim(verb)), w.items@.len()),
        !spec_blank(rest),
        spec_best_item_score(
            w,
            locs,
            Set::empty(),
            spec_tokenize(rest),
            FilterV::Carried,
            false,
        ) > 0,
        spec_item_score_count_upto(
            w,
            locs,
            Set::empty(),
            spec_tokenize(rest),
            FilterV::Carried,
            false,
            spec_best_item_score(w, locs, Set::empty(), spec_tokenize(rest), FilterV::Carried, false),
            w.items@.len(),
        ) == 1,
        w.items@[spec_item_unique_index(
            w,
            locs,
            Set::empty(),
            spec_tokenize(rest),
            FilterV::Carried,
            false,
        )].portable,
        spec_best_item_score(
            w,
            locs,
            flags,
            spec_tokenize(rest),
            FilterV::ContainerInWithVerb(cur, lower_seq(spec_trim(verb))),
            true,
        ) > 0,
        spec_item_score_count_upto(
            w,
            locs,
            flags,
            spec_tokenize(rest),
            FilterV::ContainerInWithVerb(cur, lower_seq(spec_trim(verb))),
            true,
            spec_best_item_score(
                w,
                locs,
                flags,
                spec_tokenize(rest),
                FilterV::ContainerInWithVerb(cur, lower_seq(spec_trim(verb))),
                true,
            ),
            w.items@.len(),
        ) == 1,
        ({
            let c = w.items@[spec_item_unique_index(
                w,
                locs,
                flags,
                spec_tokenize(rest),
                FilterV::ContainerInWithVerb(cur, lower_seq(spec_trim(verb))),
                true,
            )];
            let p = spec_container_props(c.kind);
            &&& !(p.conditions@.len() > 0 && !crate::conditions::spec_conditions_met(
                p.conditions@,
                flags,
            ))
            &&& !(p.capacity matches Some(cap) && count_inside_upto(
                locs.entries@,
                c.id@,
                locs.entries@.len(),
            ) >= cap)
        }),
    ensures
        ({
            let v = lower_seq(spec_trim(verb));
            let q = spec_tokenize(rest);
            let it = w.items@[spec_item_unique_index(w, locs, Set::empty(), q, FilterV::Carried, false)];
            let c = w.items@[spec_item_unique_index(
                w,
                locs,
                flags,
                q,
                FilterV::ContainerInWithVerb(cur, v),
                true,
            )];
            let p = spec_container_props(c.kind);
            let stored = locs@.insert(it.id@, LocV::Item(c.id@));
            let said = spec_say(
                outv,
                "You "@ + v + " the "@ + it.name@ + " "@ + p.prep@ + " the "@ + c.name@ + "."@,
            );
            let r = spec_store_outcome(w, locs, flags, cur, verb, rest, outv);
            &&& r.3 == true
            &&& r.0 == stored
            &&& r.0[it.id@] == LocV::Item(c.id@)
            &&& r.1 == spec_completion(w, stored, flags, said, c.id@).0
            &&& r.2 == spec_completion(w, stored, flags, said, c.id@).1
        }),
{
}

/// A retrieval that passes every gate — the query resolves to a unique
/// visible container in scope whose interaction conditions hold, and to a
/// unique visible portable item inside it — moves exactly that item back
/// to the inventory and reports it: the retrieving half of the round trip.
pub proof fn lemma_retrieve_success(
    w: World,
    locs: LocMap,
    flags: Set<Seq<char>>,
    cur: Seq<char>,
    item_name: Seq<char>,
    container_name: Seq<char>,
    outv: Seq<BlockV>,
)
    requires
        !spec_blank(item_name),
        !spec_blank(container_name),
        spec_best_item_score(
            w,
            locs,
            flags,
            spec_tokenize(container_name),
            FilterV::ContainerIn(cur),
            true,
        ) > 0,
        spec_item_score_count_upto(
            w,
            locs,
            flags,
            spec_tokenize(container_name),
            FilterV::ContainerIn(cur),
            true,
            spec_best_item_score(
                w,
                locs,
                flags,
                spec_tokenize(container_name),
                FilterV::ContainerIn(cur),
                true,
            ),
            w.items@.len(),
        ) == 1,
        ({
            let c = w.items@[spec_item_unique_index(
                w,
                locs,
                flags,
                spec_tokenize(container_name),
                FilterV::ContainerIn(cur),
                true,
            )];
            let p = spec_container_props(c.kind);
            !(p.conditions@.len() > 0 && !crate::conditions::spec_conditions_met(
                p.conditions@,
                flags,
            ))
        }),
        ({
            let c = w.items@[spec_item_unique_index(
                w,
                locs,
                flags,
                spec_tokenize(container_name),
                FilterV::ContainerIn(cur),
                true,
            )];
            &&& spec_best_item_score(
                w,
                locs,
                flags,
                spec_tokenize(item_name),
                FilterV::Inside(c.id@),
                true,
            ) > 0
            &&& spec_item_score_count_upto(
                w,
                locs,
                flags,
                spec_tokenize(item_name),
                FilterV::Inside(c.id@),
                true,
                spec_best_item_score(
                    w,
                    locs,
                    flags,
                    spec_tokenize(item_name),
                    FilterV::Inside(c.id@),
                    true,
                ),
                w.items@.len(),
            ) == 1
            &&& w.items@[spec_item_unique_index(
                w,
                locs,
                flags,
                spec_tokenize(item_name),
                FilterV::Inside(c.id@),
                true,
            )].portable
        }),
    ensures
        ({
            let c = w.items@[spec_item_unique_index(
                w,
                locs,
                flags,
                spec_tokenize(container_name),
                FilterV::ContainerIn(cur),
                true,
            )];
            let it = w.items@[spec_item_unique_index(
                w,
                locs,
                flags,
                spec_tokenize(item_name),
                FilterV::Inside(c.id@),
                true,
            )];
            let r = spec_take_from_container_outcome(
                w,
                locs,
                flags,
                cur,
                item_name,
                container_name,
                outv,
            );
            &&& r.0 == locs@.insert(it.id@, LocV::Inventory)
            &&& r.0[it.id@] == LocV::Inventory
            &&& r.1 == spec_say(
                outv,
                "You take the "@ + it.name@ + " from the "@ + c.name@ + "."@,
            )
        }),
{
}

/// Storing an item in a container and then retrieving it round-trips its
/// location: after the store the item is located in the container, and
/// after the retrieval it is carried again, with every other item's
/// location untouched.
pub proof fn lemma_container_round_trip(
    m: Map<Seq<char>, LocV>,
    item_id: Seq<char>,
    container_id: Seq<char>,
)
    ensures
        m.insert(item_id, LocV::Item(container_id))[item_id] == LocV::Item(container_id),
        m.insert(item_id, LocV::Item(container_id)).insert(item_id, LocV::Inventory)[item_id]
            == LocV::Inventory,
        forall|g: Seq<char>|
            g != item_id && m.dom().contains(g) ==> m.insert(
                item_id,
                LocV::Item(container_id),
            ).insert(item_id, LocV::Inventory)[g] == m[g],
{
}

/// A container's completion trigger fires at most once: while the
/// completion flag is set, a completion check changes neither the flags nor
/// the output, however often the required contents become satisfied again.
pub proof fn lemma_completion_fires_at_most_once(
    w: World,
    m: Map<Seq<char>, LocV>,
    flags: Set<Seq<char>>,
    outv: Seq<BlockV>,
    cid: Seq<char>,
    i: int,
)
    requires
        0 <= i < w.items@.len(),
        w.items@[i].id@ == cid,
        forall|k: int, l: int|
            0 <= k < l < w.items@.len() ==> w.items@[k].id@ != w.items@[l].id@,
        w.items@[i].kind matches ItemKind::Container(p) && (p.complete_flag matches Some(f)
            && flags.contains(f@)),
    ensures
        spec_completion(w, m, flags, outv, cid) == (flags, outv),
{
    crate::model::lemma_item_index_unique(w.items@, i);
}

/// When a completion check fires, the completion flag is set afterwards, so
/// the next check finds it and stays silent.
pub proof fn lemma_completion_sets_flag(
    w: World,
    m: Map<Seq<char>, LocV>,
    flags: Set<Seq<char>>,
    outv: Seq<BlockV>,
    cid: Seq<char>,
    i: int,
)
    requires
        0 <= i < w.items@.len(),
        w.items@[i].id@ == cid,
        forall|k: int, l: int|
            0 <= k < l < w.items@.len() ==> w.items@[k].id@ != w.items@[l].id@,
        w.items@[i].kind matches ItemKind::Container(p) && (p.complete_flag matches Some(f)
            && !flags.contains(f@) && p.complete_when@.len() > 0 && (forall|k: int|
            0 <= k < p.complete_when@.len() ==> m.dom().contains((#[trigger] p.complete_when@[k])@)
                && m[p.complete_when@[k]@] == LocV::Item(cid))),
    ensures
        ({
            let p = spec_container_props(w.items@[i].kind);
            let f = p.complete_flag->Some_0;
            spec_completion(w, m, flags, outv, cid).0 == flags.insert(f@)
                && spec_completion(w, m, flags, outv, cid).0.contains(f@)
        }),
{
    crate::model::lemma_item_index_unique(w.items@, i);
}

/// The whole step is a function of the prior state and the input alone:
/// replaying an identical command against equal states produces identical
/// state changes and byte-identical output.
pub proof fn lemma_step_deterministic(s1: GameState, s2: GameState, input: Seq<char>, r1: StepR, r2: StepR)
    requires
        s1 == s2,
        r1 == spec_step(s1, input),
        r2 == spec_step(s2, input),
    ensures
        r1 == r2,
{
}

} // verus!
