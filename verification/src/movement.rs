//! The movement resolver: matches player tokens against a room's exits in
//! two passes (whole tokens, then single-character abbreviations), resolves
//! ambiguity, consults NPC blocking, and performs the room change.
use vstd::prelude::*;
use vstd::string::*;
use vstd::utf8::encode_utf8;

use crate::conditions::{apply_effects, conditions_met, spec_apply_effects, spec_conditions_met};
use crate::flags::FlagSet;
use crate::locmap::NpcMap;
use crate::model::{Exit, Npc, Room, World, spec_has_room};
use crate::output::{spec_say, BlockV, Output};
use crate::rand::{spec_roll_percent, stable_roll_percent};
use crate::order::{join_strs, spec_join};
use crate::text::{
    chars_eq_str_nocase, eq_ignore_case, is_blank_str, lower_char, lower_seq, spec_blank,
    spec_tokenize, spec_trim, str_eq, to_lower_char, tokenize, trim_str, views_of,
};

verus! {

/// Whether an exit is currently available and one of the input tokens names
/// its direction or one of its verb synonyms (case-insensitively).
pub open spec fn spec_exit_hit(e: Exit, toks: Seq<Seq<char>>, flags: Set<Seq<char>>) -> bool {
    spec_conditions_met(e.conditions@, flags) && ((exists|j: int|
        0 <= j < toks.len() && lower_seq(#[trigger] toks[j]) == lower_seq(e.direction@)) || (
    exists|j: int, k: int|
        0 <= j < toks.len() && 0 <= k < e.verbs@.len() && lower_seq(#[trigger] toks[j])
            == lower_seq(#[trigger] e.verbs@[k]@)))
}

/// The indices of the exits hit by whole-token matching, among the first `n`.
pub open spec fn spec_exact_matches_upto(
    exits: Seq<Exit>,
    toks: Seq<Seq<char>>,
    flags: Set<Seq<char>>,
    n: nat,
) -> Seq<int>
    decreases n,
{
    if n == 0 {
        Seq::empty()
    } else {
        let p = spec_exact_matches_upto(exits, toks, flags, (n - 1) as nat);
        if spec_exit_hit(exits[n - 1], toks, flags) {
            p.push(n - 1)
        } else {
            p
        }
    }
}

/// The indices of the exits hit by whole-token matching, in order.
pub open spec fn spec_exact_matches(exits: Seq<Exit>, toks: Seq<Seq<char>>, flags: Set<Seq<char>>) -> Seq<
    int,
> {
    spec_exact_matches_upto(exits, toks, flags, exits.len())
}

/// The abbreviation characters: the single character of each input token of
/// length exactly one (longer tokens contribute nothing), among the first `n`.
pub open spec fn spec_abbrev_upto(toks: Seq<Seq<char>>, n: nat) -> Seq<char>
    decreases n,
{
    if n == 0 {
        Seq::empty()
    } else {
        let p = spec_abbrev_upto(toks, (n - 1) as nat);
        if toks[n - 1].len() == 1 {
            p.push(toks[n - 1][0])
        } else {
            p
        }
    }
}

/// The abbreviation characters of the input tokens.
pub open spec fn spec_abbrev_chars(toks: Seq<Seq<char>>) -> Seq<char> {
    spec_abbrev_upto(toks, toks.len())
}

/// Whether an available exit's direction or a verb synonym starts with one
/// of the abbreviation characters (case-insensitively).
pub open spec fn spec_abbrev_exit_hit(e: Exit, ab: Seq<char>, flags: Set<Seq<char>>) -> bool {
    spec_conditions_met(e.conditions@, flags) && ((e.direction@.len() > 0 && exists|k: int|
        0 <= k < ab.len() && lower_char(#[trigger] ab[k]) == lower_char(e.direction@[0])) || (
    exists|j: int, k: int|
        0 <= j < e.verbs@.len() && (#[trigger] e.verbs@[j]@).len() > 0 && 0 <= k < ab.len()
            && lower_char(#[trigger] ab[k]) == lower_char(e.verbs@[j]@[0])))
}

/// The indices of the exits hit by abbreviation matching, among the first `n`.
pub open spec fn spec_abbrev_matches_upto(
    exits: Seq<Exit>,
    ab: Seq<char>,
    flags: Set<Seq<char>>,
    n: nat,
) -> Seq<int>
    decreases n,
{
    if n == 0 {
        Seq::empty()
    } else {
        let p = spec_abbrev_matches_upto(exits, ab, flags, (n - 1) as nat);
        if spec_abbrev_exit_hit(exits[n - 1], ab, flags) {
            p.push(n - 1)
        } else {
            p
        }
    }
}

/// The indices of the exits hit by abbreviation matching, in order.
pub open spec fn spec_abbrev_matches(exits: Seq<Exit>, ab: Seq<char>, flags: Set<Seq<char>>) -> Seq<
    int,
> {
    spec_abbrev_matches_upto(exits, ab, flags, exits.len())
}

/// The direction labels of the selected exits.
pub open spec fn spec_dirs(exits: Seq<Exit>, ms: Seq<int>) -> Seq<Seq<char>> {
    ms.map_values(|i: int| exits[i].direction@)
}

/// Whether the NPC's blockable-exit filter names the attempted exit's
/// direction or one of its verb synonyms.
pub open spec fn spec_block_exit_listed(bx: Seq<String>, e: Exit) -> bool {
    (exists|k: int| 0 <= k < bx.len() && lower_seq(#[trigger] bx[k]@) == lower_seq(e.direction@))
        || (exists|k: int, l: int|
        0 <= k < bx.len() && 0 <= l < e.verbs@.len() && lower_seq(#[trigger] bx[k]@) == lower_seq(
            #[trigger] e.verbs@[l]@,
        ))
}

/// Whether the NPC at index `i` blocks the attempted exit: present in the
/// current room, blocking enabled, visible, extra block conditions met, and
/// the exit not excluded by its filter.
pub open spec fn spec_npc_blocks(
    w: World,
    i: int,
    nloc: NpcMap,
    flags: Set<Seq<char>>,
    cur: Seq<char>,
    e: Exit,
) -> bool {
    let npc = w.npcs@[i];
    &&& npc.block_movement
    &&& nloc.has(npc.id@)
    &&& nloc.at(npc.id@) == cur
    &&& spec_conditions_met(npc.conditions@, flags)
    &&& (npc.block_conditions@.len() == 0 || spec_conditions_met(npc.block_conditions@, flags))
    &&& (npc.block_exits@.len() == 0 || spec_block_exit_listed(npc.block_exits@, e))
}

/// The first blocking NPC among the first `n`, in declaration order (-1 when
/// none qualifies).
pub open spec fn spec_first_blocker_upto(
    w: World,
    nloc: NpcMap,
    flags: Set<Seq<char>>,
    cur: Seq<char>,
    e: Exit,
    n: nat,
) -> int
    decreases n,
{
    if n == 0 {
        -1
    } else {
        let p = spec_first_blocker_upto(w, nloc, flags, cur, e, (n - 1) as nat);
        if p >= 0 {
            p
        } else if spec_npc_blocks(w, n - 1, nloc, flags, cur, e) {
            n - 1
        } else {
            -1
        }
    }
}

/// The first blocking NPC, in declaration order (-1 when none qualifies).
pub open spec fn spec_first_blocker(
    w: World,
    nloc: NpcMap,
    flags: Set<Seq<char>>,
    cur: Seq<char>,
    e: Exit,
) -> int {
    spec_first_blocker_upto(w, nloc, flags, cur, e, w.npcs@.len())
}

/// Once a blocker is found, later NPCs do not change the outcome.
pub proof fn lemma_first_blocker_frozen(
    w: World,
    nloc: NpcMap,
    flags: Set<Seq<char>>,
    cur: Seq<char>,
    e: Exit,
    n: nat,
    m: nat,
)
    requires
        n <= m <= w.npcs@.len(),
        spec_first_blocker_upto(w, nloc, flags, cur, e, n) >= 0,
    ensures
        spec_first_blocker_upto(w, nloc, flags, cur, e, m) == spec_first_blocker_upto(
            w,
            nloc,
            flags,
            cur,
            e,
            n,
        ),
    decreases m,
{
    if m > n {
        lemma_first_blocker_frozen(w, nloc, flags, cur, e, n, (m - 1) as nat);
    }
}

/// The block message: the NPC's custom text when non-blank, else a default.
pub open spec fn spec_block_message(npc: Npc) -> Seq<char> {
    match npc.block_text {
        Some(t) => if !spec_blank(t@) {
            spec_trim(t@)
        } else {
            npc.name@ + " blocks your way."@
        },
        None => npc.name@ + " blocks your way."@,
    }
}

/// Whether the blocking NPC's attack roll succeeds for this attempt.
pub open spec fn spec_npc_attacks(npc: Npc, seed: u64) -> bool {
    npc.foe && npc.attack_chance_percent > 0 && spec_roll_percent(seed, encode_utf8(npc.id@))
        < npc.attack_chance_percent as u64
}

/// The attack message: the NPC's custom text when non-blank, else a default.
pub open spec fn spec_attack_text(npc: Npc) -> Seq<char> {
    match npc.attack_text {
        Some(t) => if !spec_blank(t@) {
            spec_trim(t@)
        } else {
            npc.name@ + " strikes at you!"@
        },
        None => npc.name@ + " strikes at you!"@,
    }
}

/// Resolving a uniquely matched exit: a qualifying NPC blocks the move (and
/// may attack); a missing target room is reported defensively with no state
/// change; otherwise the room changes to the exit's target.
pub open spec fn spec_resolve_exit(
    w: World,
    e: Exit,
    nloc: NpcMap,
    flags: Set<Seq<char>>,
    cur: Seq<char>,
    seed: u64,
    outv: Seq<BlockV>,
) -> (Seq<BlockV>, Seq<char>, Set<Seq<char>>) {
    let b = spec_first_blocker(w, nloc, flags, cur, e);
    if b >= 0 {
        let npc = w.npcs@[b];
        let o1 = spec_say(outv, spec_block_message(npc));
        if spec_npc_attacks(npc, seed) {
            (spec_say(o1, spec_attack_text(npc)), cur, spec_apply_effects(flags, npc.attack_effects@))
        } else {
            (o1, cur, flags)
        }
    } else if !spec_has_room(w.rooms@, e.target@) {
        (
            spec_say(
                outv,
                "You try to go "@ + e.direction@ + ", but something feels wrong (room not found)."@,
            ),
            cur,
            flags,
        )
    } else {
        (spec_say(outv, "You go "@ + e.direction@ + "."@), e.target@, flags)
    }
}

/// The whole movement attempt: exact pass, then abbreviation pass; a unique
/// hit resolves, several hits are reported as ambiguous, none declines the
/// input.
pub open spec fn spec_try_movement(
    w: World,
    room: Room,
    cmd: Seq<char>,
    nloc: NpcMap,
    flags: Set<Seq<char>>,
    seed: u64,
    outv: Seq<BlockV>,
    cur: Seq<char>,
) -> (Seq<BlockV>, Seq<char>, Set<Seq<char>>, bool) {
    let toks = spec_tokenize(cmd);
    if toks.len() == 0 {
        (outv, cur, flags, false)
    } else {
        let em = spec_exact_matches(room.exits@, toks, flags);
        if em.len() == 1 {
            let (o, c, f) = spec_resolve_exit(w, room.exits@[em[0]], nloc, flags, cur, seed, outv);
            (o, c, f, true)
        } else if em.len() > 1 {
            (
                spec_say(
                    outv,
                    "That movement is ambiguous here. Did you mean: "@ + spec_join(
                        spec_dirs(room.exits@, em),
                        ", "@,
                    ) + "?"@,
                ),
                cur,
                flags,
                true,
            )
        } else {
            let ab = spec_abbrev_chars(toks);
            if ab.len() == 0 {
                (outv, cur, flags, false)
            } else {
                let am = spec_abbrev_matches(room.exits@, ab, flags);
                if am.len() == 0 {
                    (outv, cur, flags, false)
                } else if am.len() == 1 {
                    let (o, c, f) = spec_resolve_exit(
                        w,
                        room.exits@[am[0]],
                        nloc,
                        flags,
                        cur,
                        seed,
                        outv,
                    );
                    (o, c, f, true)
                } else {
                    (
                        spec_say(
                            outv,
                            "That direction is ambiguous here. Did you mean: "@ + spec_join(
                                spec_dirs(room.exits@, am),
                                ", "@,
                            ) + "?"@,
                        ),
                        cur,
                        flags,
                        true,
                    )
                }
            }
        }
    }
}

/// Whether one of the input tokens names the exit's direction or a verb
/// synonym, and the exit is available.
fn exit_hit(e: &Exit, toks: &Vec<Vec<char>>, flags: &FlagSet) -> (r: bool)
    ensures
        r == spec_exit_hit(*e, views_of(toks@), flags@),
{
    if !conditions_met(&e.conditions, flags) {
        return false;
    }
    let n = toks.len();
    let mut j: usize = 0;
    while j < n
        invariant
            j <= n,
            n == toks@.len(),
            forall|k: int|
                0 <= k < j ==> lower_seq(#[trigger] views_of(toks@)[k]) != lower_seq(e.direction@),
            forall|k: int, l: int|
                0 <= k < j && 0 <= l < e.verbs@.len() ==> lower_seq(#[trigger] views_of(toks@)[k])
                    != lower_seq(#[trigger] e.verbs@[l]@),
        decreases n - j,
    {
        if chars_eq_str_nocase(&toks[j], e.direction.as_str()) {
            assert(lower_seq(views_of(toks@)[j as int]) == lower_seq(e.direction@));
            return true;
        }
        let nv = e.verbs.len();
        let mut l: usize = 0;
        while l < nv
            invariant
                l <= nv,
                nv == e.verbs@.len(),
                j < n,
                n == toks@.len(),
                forall|k: int|
                    0 <= k < l ==> lower_seq(views_of(toks@)[j as int]) != lower_seq(
                        #[trigger] e.verbs@[k]@,
                    ),
            decreases nv - l,
        {
            if chars_eq_str_nocase(&toks[j], e.verbs[l].as_str()) {
                assert(lower_seq(views_of(toks@)[j as int]) == lower_seq(e.verbs@[l as int]@));
                return true;
            }
            l += 1;
        }
        j += 1;
    }
    false
}

/// Whether the exit is available and starts with one of the abbreviation
/// characters.
fn abbrev_exit_hit(e: &Exit, ab: &Vec<char>, flags: &FlagSet) -> (r: bool)
    ensures
        r == spec_abbrev_exit_hit(*e, ab@, flags@),
{
    if !conditions_met(&e.conditions, flags) {
        return false;
    }
    let n = ab.len();
    if e.direction.as_str().unicode_len() > 0 {
        let d0 = e.direction.as_str().get_char(0);
        let mut k: usize = 0;
        while k < n
            invariant
                k <= n,
                n == ab@.len(),
                forall|x: int| 0 <= x < k ==> lower_char(#[trigger] ab@[x]) != lower_char(d0),
                d0 == e.direction@[0],
            decreases n - k,
        {
            if to_lower_char(ab[k]) == to_lower_char(d0) {
                return true;
            }
            k += 1;
        }
    }
    let nv = e.verbs.len();
    let mut j: usize = 0;
    while j < nv
        invariant
            j <= nv,
            nv == e.verbs@.len(),
            n == ab@.len(),
            forall|x: int, y: int|
                0 <= x < j && (#[trigger] e.verbs@[x]@).len() > 0 && 0 <= y < n ==> lower_char(
                    #[trigger] ab@[y],
                ) != lower_char(e.verbs@[x]@[0]),
        decreases nv - j,
    {
        let v = e.verbs[j].as_str();
        if v.unicode_len() > 0 {
            let v0 = v.get_char(0);
            let mut k: usize = 0;
            while k < n
                invariant
                    k <= n,
                    n == ab@.len(),
                    j < nv,
                    nv == e.verbs@.len(),
                    v0 == e.verbs@[j as int]@[0],
                    e.verbs@[j as int]@.len() > 0,
                    forall|y: int| 0 <= y < k ==> lower_char(#[trigger] ab@[y]) != lower_char(v0),
                decreases n - k,
            {
                if to_lower_char(ab[k]) == to_lower_char(v0) {
                    return true;
                }
                k += 1;
            }
        }
        j += 1;
    }
    if e.direction.as_str().unicode_len() == 0 {
        assert(e.direction@.len() == 0);
    }
    false
}

/// Collects the exits hit by whole-token matching.
fn collect_exact_matches(room: &Room, toks: &Vec<Vec<char>>, flags: &FlagSet) -> (r: Vec<usize>)
    ensures
        forall|k: int| 0 <= k < r@.len() ==> #[trigger] r@[k] < room.exits@.len(),
        ({
            let sm = spec_exact_matches(room.exits@, views_of(toks@), flags@);
            r@.len() == sm.len() && (forall|k: int| 0 <= k < sm.len() ==> r@[k] == sm[k])
        }),
{
    let n = room.exits.len();
    let mut r: Vec<usize> = Vec::new();
    let mut i: usize = 0;
    while i < n
        invariant
            i <= n,
            n == room.exits@.len(),
            forall|k: int| 0 <= k < r@.len() ==> #[trigger] r@[k] < room.exits@.len(),
            ({
                let sm = spec_exact_matches_upto(room.exits@, views_of(toks@), flags@, i as nat);
                r@.len() == sm.len() && (forall|k: int| 0 <= k < sm.len() ==> r@[k] == sm[k])
            }),
        decreases n - i,
    {
        if exit_hit(&room.exits[i], toks, flags) {
            r.push(i);
        }
        i += 1;
    }
    r
}

/// Collects the exits hit by abbreviation matching.
fn collect_abbrev_matches(room: &Room, ab: &Vec<char>, flags: &FlagSet) -> (r: Vec<usize>)
    ensures
        forall|k: int| 0 <= k < r@.len() ==> #[trigger] r@[k] < room.exits@.len(),
        ({
            let sm = spec_abbrev_matches(room.exits@, ab@, flags@);
            r@.len() == sm.len() && (forall|k: int| 0 <= k < sm.len() ==> r@[k] == sm[k])
        }),
{
    let n = room.exits.len();
    let mut r: Vec<usize> = Vec::new();
    let mut i: usize = 0;
    while i < n
        invariant
            i <= n,
            n == room.exits@.len(),
            forall|k: int| 0 <= k < r@.len() ==> #[trigger] r@[k] < room.exits@.len(),
            ({
                let sm = spec_abbrev_matches_upto(room.exits@, ab@, flags@, i as nat);
                r@.len() == sm.len() && (forall|k: int| 0 <= k < sm.len() ==> r@[k] == sm[k])
            }),
        decreases n - i,
    {
        if abbrev_exit_hit(&room.exits[i], ab, flags) {
            r.push(i);
        }
        i += 1;
    }
    r
}

/// The ambiguity report: the matched exits' direction labels, joined.
fn ambiguous_message(room: &Room, ms: &Vec<usize>, prefix: &str) -> (r: String)
    requires
        forall|k: int| 0 <= k < ms@.len() ==> #[trigger] ms@[k] < room.exits@.len(),
    ensures
        r@ == prefix@ + spec_join(spec_dirs(room.exits@, ms@.map_values(|u: usize| u as int)), ", "@)
            + "?"@,
{
    let n = ms.len();
    let mut dirs: Vec<String> = Vec::new();
    let mut i: usize = 0;
    while i < n
        invariant
            i <= n,
            n == ms@.len(),
            forall|k: int| 0 <= k < n ==> #[trigger] ms@[k] < room.exits@.len(),
            dirs@.len() == i,
            forall|k: int| 0 <= k < i ==> dirs@[k]@ == room.exits@[ms@[k] as int].direction@,
        decreases n - i,
    {
        dirs.push(room.exits[ms[i]].direction.clone());
        i += 1;
    }
    let list = join_strs(&dirs, ", ");
    let mut s = String::from_str(prefix);
    s.append(list.as_str());
    s.append("?");
    proof {
        assert(dirs@.map_values(|x: String| x@) =~= spec_dirs(
            room.exits@,
            ms@.map_values(|u: usize| u as int),
        ));
    }
    s
}

/// Resolves a uniquely matched exit: NPC blocking (and a possible attack),
/// the defensive missing-room report, or the move itself.
fn resolve_exit(
    out: &mut Output,
    current_room_id: &mut String,
    world: &World,
    e: &Exit,
    npc_locations: &NpcMap,
    flags: &mut FlagSet,
    attempt_seed: u64,
)
    requires
        old(out).wf(),
        npc_locations.wf(),
    ensures
        final(out).wf(),
        (final(out)@, final(current_room_id)@, final(flags)@) == spec_resolve_exit(
            *world,
            *e,
            *npc_locations,
            old(flags)@,
            old(current_room_id)@,
            attempt_seed,
            old(out)@,
        ),
{
    let n = world.npcs.len();
    let mut i: usize = 0;
    while i < n
        invariant
            i <= n,
            n == world.npcs@.len(),
            npc_locations.wf(),
            out.wf(),
            out@ == old(out)@,
            current_room_id@ == old(current_room_id)@,
            flags@ == old(flags)@,
            spec_first_blocker_upto(
                *world,
                *npc_locations,
                flags@,
                current_room_id@,
                *e,
                i as nat,
            ) == -1,
        decreases n - i,
    {
        let npc = &world.npcs[i];
        let mut qualifies = false;
        if npc.block_movement {
            match npc_locations.get(npc.id.as_str()) {
                Some(room_id) => {
                    if str_eq(room_id.as_str(), current_room_id.as_str()) {
                        if conditions_met(&npc.conditions, flags) {
                            let extra_ok = npc.block_conditions.len() == 0 || conditions_met(
                                &npc.block_conditions,
                                flags,
                            );
                            if extra_ok {
                                if npc.block_exits.len() == 0 {
                                    qualifies = true;
                                } else {
                                    qualifies = block_exit_listed(&npc.block_exits, e);
                                }
                            }
                        }
                    }
                },
                None => {},
            }
        }
        if qualifies {
            proof {
                lemma_first_blocker_frozen(
                    *world,
                    *npc_locations,
                    flags@,
                    current_room_id@,
                    *e,
                    (i + 1) as nat,
                    n as nat,
                );
            }
            // block message
            let mut custom = false;
            match &npc.block_text {
                Some(t) => {
                    if !is_blank_str(t.as_str()) {
                        custom = true;
                        out.say(trim_str(t.as_str()));
                    }
                },
                None => {},
            }
            if !custom {
                let mut m = npc.name.clone();
                m.append(" blocks your way.");
                out.say(m.as_str());
            }
            // optional attack
            if npc.foe && npc.attack_chance_percent > 0 {
                let roll = stable_roll_percent(attempt_seed, npc.id.as_str());
                if roll < npc.attack_chance_percent as u64 {
                    let mut custom_attack = false;
                    match &npc.attack_text {
                        Some(t) => {
                            if !is_blank_str(t.as_str()) {
                                custom_attack = true;
                                out.say(trim_str(t.as_str()));
                            }
                        },
                        None => {},
                    }
                    if !custom_attack {
                        let mut m = npc.name.clone();
                        m.append(" strikes at you!");
                        out.say(m.as_str());
                    }
                    apply_effects(flags, &npc.attack_effects);
                }
            }
            return ;
        }
        i += 1;
    }
    // no blocker: move, defensively checking that the target room exists
    if !world.has_room(e.target.as_str()) {
        let mut m = String::from_str("You try to go ");
        m.append(e.direction.as_str());
        m.append(", but something feels wrong (room not found).");
        out.say(m.as_str());
        return ;
    }
    let mut m = String::from_str("You go ");
    m.append(e.direction.as_str());
    m.append(".");
    out.say(m.as_str());
    *current_room_id = e.target.clone();
}

/// Whether the blockable-exit filter names the attempted exit.
fn block_exit_listed(bx: &Vec<String>, e: &Exit) -> (r: bool)
    ensures
        r == spec_block_exit_listed(bx@, *e),
{
    let n = bx.len();
    let mut k: usize = 0;
    while k < n
        invariant
            k <= n,
            n == bx@.len(),
            forall|x: int|
                0 <= x < k ==> lower_seq(#[trigger] bx@[x]@) != lower_seq(e.direction@),
            forall|x: int, y: int|
                0 <= x < k && 0 <= y < e.verbs@.len() ==> lower_seq(#[trigger] bx@[x]@)
                    != lower_seq(#[trigger] e.verbs@[y]@),
        decreases n - k,
    {
        if eq_ignore_case(bx[k].as_str(), e.direction.as_str()) {
            assert(lower_seq(bx@[k as int]@) == lower_seq(e.direction@));
            return true;
        }
        let nv = e.verbs.len();
        let mut l: usize = 0;
        while l < nv
            invariant
                l <= nv,
                nv == e.verbs@.len(),
                k < n,
                n == bx@.len(),
                forall|y: int|
                    0 <= y < l ==> lower_seq(bx@[k as int]@) != lower_seq(#[trigger] e.verbs@[y]@),
            decreases nv - l,
        {
            if eq_ignore_case(bx[k].as_str(), e.verbs[l].as_str()) {
                assert(lower_seq(bx@[k as int]@) == lower_seq(e.verbs@[l as int]@));
                return true;
            }
            l += 1;
        }
        k += 1;
    }
    false
}

/// Attempts to handle the input as movement: exact matching against the
/// room's available exits first, then single-character abbreviations; a
/// unique hit moves (or is blocked by an NPC), several hits are reported as
/// ambiguous, none declines the input.
pub fn try_handle_movement(
    out: &mut Output,
    current_room_id: &mut String,
    world: &World,
    room: &Room,
    cmd: &str,
    npc_locations: &NpcMap,
    flags: &mut FlagSet,
    attempt_seed: u64,
) -> (r: bool)
    requires
        old(out).wf(),
        npc_locations.wf(),
    ensures
        final(out).wf(),
        (final(out)@, final(current_room_id)@, final(flags)@, r) == spec_try_movement(
            *world,
            *room,
            cmd@,
            *npc_locations,
            old(flags)@,
            attempt_seed,
            old(out)@,
            old(current_room_id)@,
        ),
{
    let toks = tokenize(cmd);
    if toks.len() == 0 {
        return false;
    }
    let em = collect_exact_matches(room, &toks, flags);
    if em.len() == 1 {
        let e = &room.exits[em[0]];
        proof {
            assert(spec_exact_matches(room.exits@, views_of(toks@), flags@)[0] == em@[0]);
        }
        resolve_exit(out, current_room_id, world, e, npc_locations, flags, attempt_seed);
        return true;
    } else if em.len() > 1 {
        let m = ambiguous_message(room, &em, "That movement is ambiguous here. Did you mean: ");
        proof {
            let sm = spec_exact_matches(room.exits@, views_of(toks@), flags@);
            assert(em@.map_values(|u: usize| u as int) =~= sm);
        }
        out.say(m.as_str());
        return true;
    }
    // abbreviation pass: only tokens of length exactly one take part
    let nt = toks.len();
    let mut ab: Vec<char> = Vec::new();
    let mut i: usize = 0;
    while i < nt
        invariant
            i <= nt,
            nt == toks@.len(),
            ab@ == spec_abbrev_upto(views_of(toks@), i as nat),
        decreases nt - i,
    {
        if toks[i].len() == 1 {
            ab.push(toks[i][0]);
        }
        i += 1;
    }
    if ab.len() == 0 {
        return false;
    }
    let am = collect_abbrev_matches(room, &ab, flags);
    if am.len() == 0 {
        false
    } else if am.len() == 1 {
        let e = &room.exits[am[0]];
        proof {
            assert(spec_abbrev_matches(room.exits@, ab@, flags@)[0] == am@[0]);
        }
        resolve_exit(out, current_room_id, world, e, npc_locations, flags, attempt_seed);
        true
    } else {
        let m = ambiguous_message(room, &am, "That direction is ambiguous here. Did you mean: ");
        proof {
            let sm = spec_abbrev_matches(room.exits@, ab@, flags@);
            assert(am@.map_values(|u: usize| u as int) =~= sm);
        }
        out.say(m.as_str());
        true
    }
}

} // verus!
