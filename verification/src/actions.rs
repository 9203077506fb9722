//! The action resolver: scores every candidate action of a list against the
//! player's words, executes a unique best match, reports the most relevant
//! blocked attempt, reports ambiguity, or declines the input altogether.
use vstd::prelude::*;
use vstd::string::*;

use crate::conditions::{
    apply_effects, conditions_met, item_in_inventory, item_in_room, spec_apply_effects,
    spec_conditions_met, spec_item_in_inventory, spec_item_in_room,
};
use crate::flags::FlagSet;
use crate::locmap::LocMap;
use crate::matching::{
    best_phrase_score, entity_words, mentions_any, spec_best_phrase_score, spec_entity_words,
    spec_mentions,
};
use crate::model::{lemma_item_index_unique, spec_has_item, spec_item_index, Action, Item, World};
use crate::order::{join_strs, spec_join};
use crate::output::{spec_say, BlockV, Output};
use crate::text::{
    is_blank_str, lemma_tokens_from_len, spec_blank, spec_tokenize, spec_trim, tokenize, trim_str,
    views_of,
};

verus! {

/// Bound on the size of one action's phrase lists and requirement lists,
/// so that scores cannot overflow machine arithmetic.
pub const ACTION_BOUND: usize = 16384;

/// Weight of the blocked-feedback reason rank. A total score is at most
/// seven times the action bound, so it stays strictly below one weight:
/// blocked candidates are ranked by reason first, and by score only among
/// candidates blocked for the same reason.
pub const BLOCK_REASON_WEIGHT: usize = 8 * ACTION_BOUND;

/// The key of a blocked candidate: the reason rank (missing inventory 3,
/// missing scope 2, failed conditions 1) outranks any attainable score.
pub open spec fn spec_block_key(rank: nat, total: nat) -> nat {
    rank * (BLOCK_REASON_WEIGHT as nat) + total
}

/// Whether one action stays within the size bound.
pub open spec fn action_bounded(a: Action) -> bool {
    &&& a.scope_requirements@.len() <= ACTION_BOUND
    &&& a.requires_inventory@.len() <= ACTION_BOUND
    &&& forall|k: int| 0 <= k < a.verbs@.len() ==> (#[trigger] a.verbs@[k]@).len() <= ACTION_BOUND
    &&& forall|k: int| 0 <= k < a.nouns@.len() ==> (#[trigger] a.nouns@[k]@).len() <= ACTION_BOUND
}

/// Whether every action of a list stays within the size bound.
pub open spec fn actions_bounded(v: Seq<Action>) -> bool {
    forall|i: int| 0 <= i < v.len() ==> action_bounded(#[trigger] v[i])
}

/// A matching phrase never scores above its character count.
pub proof fn lemma_phrase_score_bound(p: Seq<char>, toks: Seq<Seq<char>>)
    ensures
        crate::matching::spec_phrase_score(p, toks) <= p.len(),
{
    lemma_tokens_from_len(p, 0);
}

/// The best phrase score is bounded by the longest phrase's length bound.
pub proof fn lemma_best_phrase_score_bound(phrases: Seq<String>, toks: Seq<Seq<char>>, b: nat, n: nat)
    requires
        n <= phrases.len(),
        forall|k: int| 0 <= k < phrases.len() ==> (#[trigger] phrases[k]@).len() <= b,
    ensures
        crate::matching::spec_best_phrase_score_upto(phrases, toks, n) <= b,
    decreases n,
{
    if n > 0 {
        lemma_best_phrase_score_bound(phrases, toks, b, (n - 1) as nat);
        lemma_phrase_score_bound(phrases[n - 1]@, toks);
    }
}

/// The running outcome of checking an action's scope requirements.
pub struct ScopeEval {
    /// Every required item so far is physically in the current room.
    pub ok: bool,
    /// Every required item so far is mentioned in the input.
    pub mentioned: bool,
    /// Three points for each mentioned requirement.
    pub score: nat,
    /// A required item failed its visibility conditions: the whole action is
    /// disqualified for this input.
    pub skip: bool,
    /// A required item id did not resolve: checking stopped.
    pub stopped: bool,
}

/// Checking one scope requirement.
pub open spec fn spec_scope_step(
    w: World,
    locs: LocMap,
    flags: Set<Seq<char>>,
    room: Seq<char>,
    toks: Seq<Seq<char>>,
    st: ScopeEval,
    req: Seq<char>,
) -> ScopeEval {
    if st.skip || st.stopped {
        st
    } else if !spec_has_item(w.items@, req) {
        ScopeEval { ok: false, mentioned: false, score: st.score, skip: false, stopped: true }
    } else {
        let it = w.items@[spec_item_index(w.items@, req)];
        if !spec_conditions_met(it.conditions@, flags) {
            ScopeEval { ok: st.ok, mentioned: st.mentioned, score: st.score, skip: true, stopped: false }
        } else {
            let ok2 = st.ok && spec_item_in_room(locs, req, room);
            if spec_mentions(spec_entity_words(it.name@, it.aliases@), toks) {
                ScopeEval {
                    ok: ok2,
                    mentioned: st.mentioned,
                    score: st.score + 3,
                    skip: false,
                    stopped: false,
                }
            } else {
                ScopeEval { ok: ok2, mentioned: false, score: st.score, skip: false, stopped: false }
            }
        }
    }
}

/// The scope outcome after the first `n` requirements.
pub open spec fn spec_scope_eval_upto(
    w: World,
    locs: LocMap,
    flags: Set<Seq<char>>,
    room: Seq<char>,
    toks: Seq<Seq<char>>,
    reqs: Seq<String>,
    n: nat,
) -> ScopeEval
    decreases n,
{
    if n == 0 {
        ScopeEval { ok: true, mentioned: true, score: 0, skip: false, stopped: false }
    } else {
        spec_scope_step(
            w,
            locs,
            flags,
            room,
            toks,
            spec_scope_eval_upto(w, locs, flags, room, toks, reqs, (n - 1) as nat),
            reqs[n - 1]@,
        )
    }
}

/// The scope outcome over the whole requirement list.
pub open spec fn spec_scope_eval(
    w: World,
    locs: LocMap,
    flags: Set<Seq<char>>,
    room: Seq<char>,
    toks: Seq<Seq<char>>,
    reqs: Seq<String>,
) -> ScopeEval {
    spec_scope_eval_upto(w, locs, flags, room, toks, reqs, reqs.len())
}

/// Once checking has skipped or stopped, later requirements change nothing.
pub proof fn lemma_scope_eval_frozen(
    w: World,
    locs: LocMap,
    flags: Set<Seq<char>>,
    room: Seq<char>,
    toks: Seq<Seq<char>>,
    reqs: Seq<String>,
    n: nat,
    m: nat,
)
    requires
        n <= m <= reqs.len(),
        spec_scope_eval_upto(w, locs, flags, room, toks, reqs, n).skip || spec_scope_eval_upto(
            w,
            locs,
            flags,
            room,
            toks,
            reqs,
            n,
        ).stopped,
    ensures
        spec_scope_eval_upto(w, locs, flags, room, toks, reqs, m) == spec_scope_eval_upto(
            w,
            locs,
            flags,
            room,
            toks,
            reqs,
            n,
        ),
    decreases m,
{
    if m > n {
        lemma_scope_eval_frozen(w, locs, flags, room, toks, reqs, n, (m - 1) as nat);
    }
}

/// The scope score grows by at most three per requirement.
pub proof fn lemma_scope_score_bound(
    w: World,
    locs: LocMap,
    flags: Set<Seq<char>>,
    room: Seq<char>,
    toks: Seq<Seq<char>>,
    reqs: Seq<String>,
    n: nat,
)
    requires
        n <= reqs.len(),
    ensures
        spec_scope_eval_upto(w, locs, flags, room, toks, reqs, n).score <= 3 * n,
    decreases n,
{
    if n > 0 {
        lemma_scope_score_bound(w, locs, flags, room, toks, reqs, (n - 1) as nat);
    }
}

/// The running outcome of checking an action's inventory requirements.
pub struct InvEval {
    /// Every required item so far is carried.
    pub ok: bool,
    /// Two points for each carried requirement.
    pub score: nat,
}

/// The inventory outcome after the first `n` requirements.
pub open spec fn spec_inv_eval_upto(locs: LocMap, reqs: Seq<String>, n: nat) -> InvEval
    decreases n,
{
    if n == 0 {
        InvEval { ok: true, score: 0 }
    } else {
        let prev = spec_inv_eval_upto(locs, reqs, (n - 1) as nat);
        if spec_item_in_inventory(locs, reqs[n - 1]@) {
            InvEval { ok: prev.ok, score: prev.score + 2 }
        } else {
            InvEval { ok: false, score: prev.score }
        }
    }
}

/// The inventory outcome over the whole requirement list.
pub open spec fn spec_inv_eval(locs: LocMap, reqs: Seq<String>) -> InvEval {
    spec_inv_eval_upto(locs, reqs, reqs.len())
}

/// The inventory score grows by at most two per requirement.
pub proof fn lemma_inv_score_bound(locs: LocMap, reqs: Seq<String>, n: nat)
    requires
        n <= reqs.len(),
    ensures
        spec_inv_eval_upto(locs, reqs, n).score <= 2 * n,
    decreases n,
{
    if n > 0 {
        lemma_inv_score_bound(locs, reqs, (n - 1) as nat);
    }
}

/// The display name of a required item: the item's name when the id
/// resolves, the raw id otherwise.
pub open spec fn spec_req_name(items: Seq<Item>, id: Seq<char>) -> Seq<char> {
    if spec_has_item(items, id) {
        items[spec_item_index(items, id)].name@
    } else {
        id
    }
}

/// The display names of the first `n` required items.
pub open spec fn spec_req_names_upto(items: Seq<Item>, ids: Seq<String>, n: nat) -> Seq<Seq<char>>
    decreases n,
{
    if n == 0 {
        Seq::empty()
    } else {
        spec_req_names_upto(items, ids, (n - 1) as nat).push(spec_req_name(items, ids[n - 1]@))
    }
}

/// The display names of all required items.
pub open spec fn spec_req_names(items: Seq<Item>, ids: Seq<String>) -> Seq<Seq<char>> {
    spec_req_names_upto(items, ids, ids.len())
}

/// The default text for a missing-inventory report.
pub open spec fn spec_default_inv_msg(w: World, a: Action) -> Seq<char> {
    if a.requires_inventory@.len() == 0 {
        "You don't have what you need."@
    } else {
        let names = spec_req_names(w.items@, a.requires_inventory@);
        if names.len() == 1 {
            "You need the "@ + names[0] + "."@
        } else {
            "You need: "@ + spec_join(names, ", "@) + "."@
        }
    }
}

/// The text reported when inventory requirements are unmet: the action's
/// custom text when present and non-blank, a generated default otherwise.
pub open spec fn spec_missing_inv_msg(w: World, a: Action) -> Seq<char> {
    match a.missing_inventory_text {
        Some(t) => if !spec_blank(t@) {
            spec_trim(t@)
        } else {
            spec_default_inv_msg(w, a)
        },
        None => spec_default_inv_msg(w, a),
    }
}

/// The default text for a missing-scope report.
pub open spec fn spec_default_scope_msg(w: World, a: Action) -> Seq<char> {
    if a.scope_requirements@.len() == 0 {
        "You don't see that here."@
    } else {
        let names = spec_req_names(w.items@, a.scope_requirements@);
        if names.len() == 1 {
            "You don't see the "@ + names[0] + " here."@
        } else {
            "You don't see those here: "@ + spec_join(names, ", "@) + "."@
        }
    }
}

/// The text reported when scope requirements are unmet.
pub open spec fn spec_missing_scope_msg(w: World, a: Action) -> Seq<char> {
    match a.missing_scope_text {
        Some(t) => if !spec_blank(t@) {
            spec_trim(t@)
        } else {
            spec_default_scope_msg(w, a)
        },
        None => spec_default_scope_msg(w, a),
    }
}

/// How one action relates to the input: disqualified, executable with a
/// score, or blocked with a reason-ranked key and report text.
pub enum Assess {
    /// No verb match, an unmatched noun gate, an invisible required item, or
    /// weak intent: the action neither executes nor reports.
    Skip,
    /// Executable; the total score.
    Exec(nat),
    /// Strong intent but not executable; the key ranks the reason above the
    /// score, and the text reports the most relevant failure.
    Block(nat, Seq<char>),
}

/// Assesses one action against the input tokens.
pub open spec fn spec_assess(
    w: World,
    locs: LocMap,
    flags: Set<Seq<char>>,
    room: Seq<char>,
    toks: Seq<Seq<char>>,
    a: Action,
) -> Assess {
    let verb_score = spec_best_phrase_score(a.verbs@, toks);
    if verb_score == 0 {
        Assess::Skip
    } else {
        let noun_score = if a.nouns@.len() == 0 {
            0
        } else {
            spec_best_phrase_score(a.nouns@, toks)
        };
        if a.nouns@.len() > 0 && noun_score == 0 {
            Assess::Skip
        } else {
            let se = spec_scope_eval(w, locs, flags, room, toks, a.scope_requirements@);
            if se.skip {
                Assess::Skip
            } else {
                let ie = spec_inv_eval(locs, a.requires_inventory@);
                let cond_ok = spec_conditions_met(a.conditions@, flags);
                let strong = a.scope_requirements@.len() == 0 || se.mentioned;
                let total = verb_score + noun_score + se.score + ie.score;
                if strong && se.ok && ie.ok && cond_ok {
                    Assess::Exec(total)
                } else if strong {
                    if !ie.ok {
                        Assess::Block(spec_block_key(3, total), spec_missing_inv_msg(w, a))
                    } else if !se.ok {
                        Assess::Block(spec_block_key(2, total), spec_missing_scope_msg(w, a))
                    } else if !cond_ok {
                        Assess::Block(spec_block_key(1, total), "You can't do that right now."@)
                    } else {
                        Assess::Block(spec_block_key(1, total), "You can't do that."@)
                    }
                } else {
                    Assess::Skip
                }
            }
        }
    }
}

/// A bounded action's blocked key encodes its reason rank: the score
/// component stays strictly below one reason weight, so the key ranges of
/// the three reasons do not overlap.
pub proof fn lemma_assess_block_total_bound(
    w: World,
    locs: LocMap,
    flags: Set<Seq<char>>,
    room: Seq<char>,
    toks: Seq<Seq<char>>,
    a: Action,
)
    requires
        action_bounded(a),
    ensures
        spec_assess(w, locs, flags, room, toks, a) matches Assess::Block(k, m) ==> ({
            let inv_ok = spec_inv_eval(locs, a.requires_inventory@).ok;
            let scope_ok = spec_scope_eval(w, locs, flags, room, toks, a.scope_requirements@).ok;
            &&& k < 4 * (BLOCK_REASON_WEIGHT as nat)
            &&& !inv_ok ==> k >= 3 * (BLOCK_REASON_WEIGHT as nat)
            &&& inv_ok ==> k < 3 * (BLOCK_REASON_WEIGHT as nat)
            &&& inv_ok && !scope_ok ==> k >= 2 * (BLOCK_REASON_WEIGHT as nat)
            &&& inv_ok && scope_ok ==> k < 2 * (BLOCK_REASON_WEIGHT as nat)
        }),
{
    lemma_best_phrase_score_bound(a.verbs@, toks, ACTION_BOUND as nat, a.verbs@.len());
    lemma_best_phrase_score_bound(a.nouns@, toks, ACTION_BOUND as nat, a.nouns@.len());
    lemma_scope_score_bound(
        w,
        locs,
        flags,
        room,
        toks,
        a.scope_requirements@,
        a.scope_requirements@.len(),
    );
    lemma_inv_score_bound(locs, a.requires_inventory@, a.requires_inventory@.len());
}

/// The running outcome of assessing an action list.
pub struct EvalState {
    /// The best executable score seen.
    pub best: nat,
    /// How many executable actions share the best score.
    pub count: nat,
    /// The index of the first executable action at the best score, or -1.
    pub first: int,
    /// The highest blocked key seen, or -1.
    pub block_key: int,
    /// The report text of the first blocked candidate at the highest key.
    pub block_msg: Seq<char>,
}

/// Folding one action's assessment into the running outcome.
pub open spec fn spec_eval_step(st: EvalState, a: Assess, i: int) -> EvalState {
    match a {
        Assess::Skip => st,
        Assess::Exec(s) => if s > st.best {
            EvalState {
                best: s,
                count: 1,
                first: i,
                block_key: st.block_key,
                block_msg: st.block_msg,
            }
        } else if s == st.best {
            EvalState {
                best: st.best,
                count: st.count + 1,
                first: if st.count == 0 {
                    i
                } else {
                    st.first
                },
                block_key: st.block_key,
                block_msg: st.block_msg,
            }
        } else {
            st
        },
        Assess::Block(key, msg) => if st.block_key < key {
            EvalState {
                best: st.best,
                count: st.count,
                first: st.first,
                block_key: key as int,
                block_msg: msg,
            }
        } else {
            st
        },
    }
}

/// The outcome after assessing the first `n` actions.
pub open spec fn spec_eval_upto(
    w: World,
    locs: LocMap,
    flags: Set<Seq<char>>,
    room: Seq<char>,
    toks: Seq<Seq<char>>,
    actions: Seq<Action>,
    n: nat,
) -> EvalState
    decreases n,
{
    if n == 0 {
        EvalState { best: 0, count: 0, first: -1, block_key: -1, block_msg: Seq::empty() }
    } else {
        spec_eval_step(
            spec_eval_upto(w, locs, flags, room, toks, actions, (n - 1) as nat),
            spec_assess(w, locs, flags, room, toks, actions[n - 1]),
            n - 1,
        )
    }
}

/// The outcome after assessing the whole action list in declaration order.
pub open spec fn spec_eval_actions(
    w: World,
    locs: LocMap,
    flags: Set<Seq<char>>,
    room: Seq<char>,
    toks: Seq<Seq<char>>,
    actions: Seq<Action>,
) -> EvalState {
    spec_eval_upto(w, locs, flags, room, toks, actions, actions.len())
}

/// The display names of the required items.
fn req_names(world: &World, ids: &Vec<String>) -> (r: Vec<String>)
    requires
        world.wf(),
    ensures
        r@.map_values(|s: String| s@) == spec_req_names(world.items@, ids@),
{
    let n = ids.len();
    let mut r: Vec<String> = Vec::new();
    let mut i: usize = 0;
    while i < n
        invariant
            i <= n,
            n == ids@.len(),
            world.wf(),
            r@.len() == i,
            r@.map_values(|s: String| s@) == spec_req_names_upto(world.items@, ids@, i as nat),
        decreases n - i,
    {
        let ghost r0 = r@;
        match world.item_index(ids[i].as_str()) {
            Some(ix) => {
                proof {
                    lemma_item_index_unique(world.items@, ix as int);
                }
                r.push(world.items[ix].name.clone());
            },
            None => {
                r.push(ids[i].clone());
            },
        }
        proof {
            assert(r@.map_values(|s: String| s@) =~= r0.map_values(|s: String| s@).push(
                spec_req_name(world.items@, ids@[i as int]@),
            ));
        }
        i += 1;
    }
    r
}

/// The report text for unmet inventory requirements.
pub fn missing_inventory_message(action: &Action, world: &World) -> (r: String)
    requires
        world.wf(),
    ensures
        r@ == spec_missing_inv_msg(*world, *action),
{
    match &action.missing_inventory_text {
        Some(t) => {
            if !is_blank_str(t.as_str()) {
                return String::from_str(trim_str(t.as_str()));
            }
        },
        None => {},
    }
    if action.requires_inventory.len() == 0 {
        return String::from_str("You don't have what you need.");
    }
    let names = req_names(world, &action.requires_inventory);
    if names.len() == 1 {
        let mut s = String::from_str("You need the ");
        s.append(names[0].as_str());
        s.append(".");
        proof {
            assert(names@.map_values(|x: String| x@)[0] == names@[0]@);
        }
        s
    } else {
        let list = join_strs(&names, ", ");
        let mut s = String::from_str("You need: ");
        s.append(list.as_str());
        s.append(".");
        s
    }
}

/// The report text for unmet scope requirements.
pub fn missing_scope_message(action: &Action, world: &World) -> (r: String)
    requires
        world.wf(),
    ensures
        r@ == spec_missing_scope_msg(*world, *action),
{
    match &action.missing_scope_text {
        Some(t) => {
            if !is_blank_str(t.as_str()) {
                return String::from_str(trim_str(t.as_str()));
            }
        },
        None => {},
    }
    if action.scope_requirements.len() == 0 {
        return String::from_str("You don't see that here.");
    }
    let names = req_names(world, &action.scope_requirements);
    if names.len() == 1 {
        let mut s = String::from_str("You don't see the ");
        s.append(names[0].as_str());
        s.append(" here.");
        proof {
            assert(names@.map_values(|x: String| x@)[0] == names@[0]@);
        }
        s
    } else {
        let list = join_strs(&names, ", ");
        let mut s = String::from_str("You don't see those here: ");
        s.append(list.as_str());
        s.append(".");
        s
    }
}

/// How one action relates to the input, executably.
pub enum AssessExec {
    Skip,
    Exec(usize),
    Block(usize, String),
}

/// Assesses one action against the input tokens.
fn assess_action(
    world: &World,
    locs: &LocMap,
    flags: &FlagSet,
    room_id: &str,
    toks: &Vec<Vec<char>>,
    a: &Action,
) -> (r: AssessExec)
    requires
        world.wf(),
        locs.wf(),
        action_bounded(*a),
    ensures
        ({
            let sp = spec_assess(*world, *locs, flags@, room_id@, views_of(toks@), *a);
            match r {
                AssessExec::Skip => sp is Skip,
                AssessExec::Exec(s) => sp == Assess::Exec(s as nat),
                AssessExec::Block(k, m) => sp matches Assess::Block(sk, sm) && sk == k as nat && sm
                    == m@,
            }
        }),
{
    let ghost tv = views_of(toks@);
    let verb_score = best_phrase_score(&a.verbs, toks);
    proof {
        lemma_best_phrase_score_bound(a.verbs@, tv, ACTION_BOUND as nat, a.verbs@.len());
    }
    if verb_score == 0 {
        return AssessExec::Skip;
    }
    let noun_score: usize = if a.nouns.len() == 0 {
        0
    } else {
        best_phrase_score(&a.nouns, toks)
    };
    proof {
        lemma_best_phrase_score_bound(a.nouns@, tv, ACTION_BOUND as nat, a.nouns@.len());
    }
    if a.nouns.len() > 0 && noun_score == 0 {
        return AssessExec::Skip;
    }
    // scope requirements
    let nr = a.scope_requirements.len();
    let mut scope_ok = true;
    let mut scope_mentioned = true;
    let mut scope_score: usize = 0;
    let mut stopped = false;
    let mut i: usize = 0;
    while i < nr && !stopped
        invariant
            i <= nr,
            nr == a.scope_requirements@.len(),
            nr <= ACTION_BOUND,
            world.wf(),
            locs.wf(),
            scope_score <= 3 * i,
            ({
                let se = spec_scope_eval_upto(
                    *world,
                    *locs,
                    flags@,
                    room_id@,
                    tv,
                    a.scope_requirements@,
                    i as nat,
                );
                !se.skip && se.ok == scope_ok && se.mentioned == scope_mentioned && se.score
                    == scope_score && se.stopped == stopped
            }),
        decreases nr - i,
    {
        let req = &a.scope_requirements[i];
        match world.item_index(req.as_str()) {
            None => {
                scope_ok = false;
                scope_mentioned = false;
                stopped = true;
            },
            Some(ix) => {
                proof {
                    lemma_item_index_unique(world.items@, ix as int);
                }
                let it = &world.items[ix];
                if !conditions_met(&it.conditions, flags) {
                    proof {
                        lemma_scope_eval_frozen(
                            *world,
                            *locs,
                            flags@,
                            room_id@,
                            tv,
                            a.scope_requirements@,
                            (i + 1) as nat,
                            a.scope_requirements@.len(),
                        );
                    }
                    return AssessExec::Skip;
                }
                if !item_in_room(req.as_str(), locs, room_id) {
                    scope_ok = false;
                }
                let words = entity_words(it.name.as_str(), &it.aliases);
                if mentions_any(&words, toks) {
                    scope_score += 3;
                } else {
                    scope_mentioned = false;
                }
            },
        }
        i += 1;
    }
    proof {
        if stopped {
            lemma_scope_eval_frozen(
                *world,
                *locs,
                flags@,
                room_id@,
                tv,
                a.scope_requirements@,
                i as nat,
                a.scope_requirements@.len(),
            );
        }
        lemma_scope_score_bound(
            *world,
            *locs,
            flags@,
            room_id@,
            tv,
            a.scope_requirements@,
            a.scope_requirements@.len(),
        );
    }
    // inventory requirements
    let ni = a.requires_inventory.len();
    let mut inv_ok = true;
    let mut inv_score: usize = 0;
    let mut j: usize = 0;
    while j < ni
        invariant
            j <= ni,
            ni == a.requires_inventory@.len(),
            ni <= ACTION_BOUND,
            locs.wf(),
            inv_score <= 2 * j,
            ({
                let ie = spec_inv_eval_upto(*locs, a.requires_inventory@, j as nat);
                ie.ok == inv_ok && ie.score == inv_score
            }),
        decreases ni - j,
    {
        if item_in_inventory(a.requires_inventory[j].as_str(), locs) {
            inv_score += 2;
        } else {
            inv_ok = false;
        }
        j += 1;
    }
    let cond_ok = conditions_met(&a.conditions, flags);
    let strong = a.scope_requirements.len() == 0 || scope_mentioned;
    if !strong {
        return AssessExec::Skip;
    }
    let total = verb_score + noun_score + scope_score + inv_score;
    if scope_ok && inv_ok && cond_ok {
        AssessExec::Exec(total)
    } else if !inv_ok {
        AssessExec::Block(3 * BLOCK_REASON_WEIGHT + total, missing_inventory_message(a, world))
    } else if !scope_ok {
        AssessExec::Block(2 * BLOCK_REASON_WEIGHT + total, missing_scope_message(a, world))
    } else if !cond_ok {
        AssessExec::Block(
            1 * BLOCK_REASON_WEIGHT + total,
            String::from_str("You can't do that right now."),
        )
    } else {
        AssessExec::Block(1 * BLOCK_REASON_WEIGHT + total, String::from_str("You can't do that."))
    }
}

/// Core evaluator shared by per-room, global, and NPC-scoped action lists.
///
/// Returns the index of the single best executable action, or a report text
/// for a blocked or ambiguous attempt, and whether the input counts as
/// consumed.
pub fn evaluate_actions_for_input(
    actions: &Vec<Action>,
    input: &str,
    world: &World,
    item_locations: &LocMap,
    current_room_id: &str,
    flags: &FlagSet,
) -> (r: (Option<usize>, Option<String>, bool))
    requires
        world.wf(),
        item_locations.wf(),
        actions_bounded(actions@),
    ensures
        ({
            let st = spec_eval_actions(
                *world,
                *item_locations,
                flags@,
                current_room_id@,
                spec_tokenize(input@),
                actions@,
            );
            &&& st.count == 1 ==> (r.0 matches Some(i) && i == st.first && st.first
                < actions@.len()) && r.1 is None && r.2 == true
            &&& st.count > 1 ==> r.0 is None && (r.1 matches Some(m) && m@
                == "Be more specific."@) && r.2 == true
            &&& (st.count == 0 && st.block_key >= 0) ==> r.0 is None && (r.1 matches Some(m) && m@
                == st.block_msg) && r.2 == true
            &&& (st.count == 0 && st.block_key < 0) ==> r.0 is None && r.1 is None && r.2 == false
        }),
{
    let toks = tokenize(input);
    let ghost tv = views_of(toks@);
    let n = actions.len();
    let mut best: usize = 0;
    let mut count: usize = 0;
    let mut first: usize = 0;
    let mut has_block = false;
    let mut bkey: usize = 0;
    let mut bmsg = String::new();
    let mut i: usize = 0;
    while i < n
        invariant
            i <= n,
            n == actions@.len(),
            world.wf(),
            item_locations.wf(),
            actions_bounded(actions@),
            tv == spec_tokenize(input@),
            count <= i,
            ({
                let st = spec_eval_upto(
                    *world,
                    *item_locations,
                    flags@,
                    current_room_id@,
                    tv,
                    actions@,
                    i as nat,
                );
                &&& st.best == best
                &&& st.count == count
                &&& (count > 0 ==> st.first == first && first < i)
                &&& (count == 0 ==> st.first == -1)
                &&& (has_block ==> st.block_key == bkey && st.block_msg == bmsg@)
                &&& (!has_block ==> st.block_key == -1)
            }),
        decreases n - i,
    {
        let a = &actions[i];
        match assess_action(world, item_locations, flags, current_room_id, &toks, a) {
            AssessExec::Skip => {},
            AssessExec::Exec(s) => {
                if s > best {
                    best = s;
                    count = 1;
                    first = i;
                } else if s == best {
                    if count == 0 {
                        first = i;
                    }
                    count += 1;
                }
            },
            AssessExec::Block(k, m) => {
                if !has_block || k > bkey {
                    has_block = true;
                    bkey = k;
                    bmsg = m;
                }
            },
        }
        i += 1;
    }
    if count == 1 {
        (Some(first), None, true)
    } else if count > 1 {
        (None, Some(String::from_str("Be more specific.")), true)
    } else if has_block {
        (None, Some(bmsg), true)
    } else {
        (None, None, false)
    }
}

/// The state change of resolving an action list: the new flag set, the new
/// output document, and whether the input was consumed.
pub open spec fn spec_action_outcome(
    actions: Seq<Action>,
    w: World,
    locs: LocMap,
    flags: Set<Seq<char>>,
    room: Seq<char>,
    input: Seq<char>,
    outv: Seq<BlockV>,
) -> (Set<Seq<char>>, Seq<BlockV>, bool) {
    let st = spec_eval_actions(w, locs, flags, room, spec_tokenize(input), actions);
    if st.count == 1 {
        let a = actions[st.first];
        (
            spec_apply_effects(flags, a.effects@),
            spec_say(outv, spec_trim(a.response@)),
            true,
        )
    } else if st.count > 1 {
        (flags, spec_say(outv, "Be more specific."@), true)
    } else if st.block_key >= 0 {
        (flags, spec_say(outv, st.block_msg), true)
    } else {
        (flags, outv, false)
    }
}

/// Attempts to resolve the input against a room's own actions: a unique
/// best executable action runs (response said, effects applied); ambiguity
/// and blocked attempts are reported; otherwise the input is declined.
pub fn try_handle_action(
    out: &mut Output,
    room: &crate::model::Room,
    input: &str,
    world: &World,
    item_locations: &LocMap,
    current_room_id: &str,
    flags: &mut FlagSet,
) -> (r: bool)
    requires
        old(out).wf(),
        world.wf(),
        item_locations.wf(),
        actions_bounded(room.actions@),
    ensures
        final(out).wf(),
        (final(flags)@, final(out)@, r) == spec_action_outcome(
            room.actions@,
            *world,
            *item_locations,
            old(flags)@,
            current_room_id@,
            input@,
            old(out)@,
        ),
{
    let (exec, msg, handled) = evaluate_actions_for_input(
        &room.actions,
        input,
        world,
        item_locations,
        current_room_id,
        flags,
    );
    match exec {
        Some(ix) => {
            let a = &room.actions[ix];
            out.say(trim_str(a.response.as_str()));
            apply_effects(flags, &a.effects);
            return true;
        },
        None => {},
    }
    match msg {
        Some(m) => {
            out.say(m.as_str());
            return true;
        },
        None => {},
    }
    handled
}

/// Attempts to resolve the input against the world-wide actions.
pub fn try_handle_global_action(
    out: &mut Output,
    input: &str,
    world: &World,
    item_locations: &LocMap,
    current_room_id: &str,
    flags: &mut FlagSet,
) -> (r: bool)
    requires
        old(out).wf(),
        world.wf(),
        item_locations.wf(),
        actions_bounded(world.global_actions@),
    ensures
        final(out).wf(),
        (final(flags)@, final(out)@, r) == spec_action_outcome(
            world.global_actions@,
            *world,
            *item_locations,
            old(flags)@,
            current_room_id@,
            input@,
            old(out)@,
        ),
{
    let (exec, msg, handled) = evaluate_actions_for_input(
        &world.global_actions,
        input,
        world,
        item_locations,
        current_room_id,
        flags,
    );
    match exec {
        Some(ix) => {
            let a = &world.global_actions[ix];
            out.say(trim_str(a.response.as_str()));
            apply_effects(flags, &a.effects);
            return true;
        },
        None => {},
    }
    match msg {
        Some(m) => {
            out.say(m.as_str());
            return true;
        },
        None => {},
    }
    handled
}

} // verus!
