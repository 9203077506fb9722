//! The render composer: turns the current room, flags and item placement
//! into an ordered output document, and decides whether a flag change makes
//! a re-render worthwhile.
use vstd::prelude::*;
use vstd::string::*;

use crate::conditions::{conditions_met, spec_conditions_met};
use crate::flags::FlagSet;
use crate::locmap::LocMap;
use crate::model::{Exit, Item, ItemKind, ItemLocation, LocV, Room, World};
use crate::order::{
    insert_by_key, join_keys, sorted_by_keys, spec_join, spec_sort_indices, spec_sort_indices_upto,
};
use crate::output::{spec_say, spec_set_exits, spec_title, BlockV, Output};
use crate::text::{
    spec_trim, str_eq, trim_str,
};

verus! {

/// Joining description fragments: a blank fragment adds nothing; fragments
/// are separated by single spaces.
pub open spec fn spec_frag(acc: Seq<char>, t: Seq<char>) -> Seq<char> {
    let tt = spec_trim(t);
    if tt.len() == 0 {
        acc
    } else if acc.len() == 0 {
        tt
    } else {
        acc + " "@ + tt
    }
}

/// The description after the first `n` conditional state fragments.
pub open spec fn spec_desc_state_upto(
    room: Room,
    flags: Set<Seq<char>>,
    acc: Seq<char>,
    n: nat,
) -> Seq<char>
    decreases n,
{
    if n == 0 {
        acc
    } else {
        let p = spec_desc_state_upto(room, flags, acc, (n - 1) as nat);
        let sd = room.state_descs@[n - 1];
        if spec_conditions_met(sd.conditions@, flags) {
            spec_frag(p, sd.text@)
        } else {
            p
        }
    }
}

/// The description after the first `n` items' room texts.
pub open spec fn spec_desc_items_upto(
    w: World,
    room: Room,
    m: Map<Seq<char>, LocV>,
    flags: Set<Seq<char>>,
    acc: Seq<char>,
    n: nat,
) -> Seq<char>
    decreases n,
{
    if n == 0 {
        acc
    } else {
        let p = spec_desc_items_upto(w, room, m, flags, acc, (n - 1) as nat);
        let it = w.items@[n - 1];
        if m.dom().contains(it.id@) && (m[it.id@] matches LocV::Room(r) && r == room.id@)
            && spec_conditions_met(it.conditions@, flags) {
            spec_frag(p, it.room_text@)
        } else {
            p
        }
    }
}

/// The visible exits, among the first `n`, in declaration order.
pub open spec fn spec_visible_exits_upto(room: Room, flags: Set<Seq<char>>, n: nat) -> Seq<int>
    decreases n,
{
    if n == 0 {
        Seq::empty()
    } else {
        let p = spec_visible_exits_upto(room, flags, (n - 1) as nat);
        if spec_conditions_met(room.exits@[n - 1].conditions@, flags) {
            p.push(n - 1)
        } else {
            p
        }
    }
}

/// Removing adjacent duplicates (by key) from a sorted index list, among
/// the first `k` entries.
pub open spec fn spec_dedup_upto(keys: Seq<String>, ms: Seq<int>, k: nat) -> Seq<int>
    decreases k,
{
    if k == 0 {
        Seq::empty()
    } else {
        let p = spec_dedup_upto(keys, ms, (k - 1) as nat);
        if p.len() > 0 && keys[p.last()]@ == keys[ms[k - 1]]@ {
            p
        } else {
            p.push(ms[k - 1])
        }
    }
}

/// The exits summary line: the distinct visible directions, sorted, or an
/// explicit marker when none is visible.
pub open spec fn spec_exits_line(room: Room, flags: Set<Seq<char>>) -> Seq<char> {
    let vs = spec_visible_exits_upto(room, flags, room.exits@.len());
    if vs.len() == 0 {
        "Exits: (none)"@
    } else {
        let keys = room.exits@.map_values(|e: Exit| e.direction);
        let sorted = spec_sort_indices(keys, vs);
        let dd = spec_dedup_upto(keys, sorted, sorted.len());
        "Exits: "@ + spec_join(dd.map_values(|i: int| keys[i]@), ", "@)
    }
}

/// The whole room rendering: a title, one composed description block, and
/// the exits summary as the final element.
pub open spec fn spec_render_room(
    w: World,
    room: Room,
    flags: Set<Seq<char>>,
    m: Map<Seq<char>, LocV>,
    outv: Seq<BlockV>,
) -> Seq<BlockV> {
    let o1 = spec_title(outv, room.name@);
    let d0 = spec_trim(room.desc@);
    let d1 = spec_desc_state_upto(room, flags, d0, room.state_descs@.len());
    let d2 = spec_desc_items_upto(w, room, m, flags, d1, w.items@.len());
    let o2 = spec_say(o1, d2);
    spec_set_exits(o2, spec_exits_line(room, flags))
}

/// Renders the current room: a title block, one text block assembled from
/// the base description, the satisfied state fragments and the visible
/// items' room texts (joined with single spaces), and the exits summary.
pub fn render_room(
    out: &mut Output,
    room: &Room,
    flags: &FlagSet,
    world: &World,
    item_locations: &LocMap,
)
    requires
        old(out).wf(),
        item_locations.wf(),
    ensures
        final(out).wf(),
        final(out)@ == spec_render_room(*world, *room, flags@, item_locations@, old(out)@),
{
    out.title(room.name.as_str());
    let mut room_desc = String::from_str(trim_str(room.desc.as_str()));
    let ns = room.state_descs.len();
    let mut i: usize = 0;
    while i < ns
        invariant
            i <= ns,
            ns == room.state_descs@.len(),
            room_desc@ == spec_desc_state_upto(
                *room,
                flags@,
                spec_trim(room.desc@),
                i as nat,
            ),
        decreases ns - i,
    {
        let sd = &room.state_descs[i];
        if conditions_met(&sd.conditions, flags) {
            let txt = trim_str(sd.text.as_str());
            if txt.unicode_len() > 0 {
                if room_desc.as_str().unicode_len() > 0 {
                    room_desc.append(" ");
                }
                room_desc.append(txt);
            }
        }
        i += 1;
    }
    let ghost d1 = room_desc@;
    let n = world.items.len();
    let mut i: usize = 0;
    while i < n
        invariant
            i <= n,
            n == world.items@.len(),
            item_locations.wf(),
            room_desc@ == spec_desc_items_upto(
                *world,
                *room,
                item_locations@,
                flags@,
                d1,
                i as nat,
            ),
        decreases n - i,
    {
        proof {
            item_locations.lemma_view_facts();
        }
        let it = &world.items[i];
        let mut in_room = false;
        match item_locations.get(it.id.as_str()) {
            Some(loc) => match &loc {
                ItemLocation::Room(r) => {
                    in_room = str_eq(r.as_str(), room.id.as_str());
                },
                _ => {},
            },
            None => {},
        }
        if in_room && conditions_met(&it.conditions, flags) {
            let txt = trim_str(it.room_text.as_str());
            if txt.unicode_len() > 0 {
                if room_desc.as_str().unicode_len() > 0 {
                    room_desc.append(" ");
                }
                room_desc.append(txt);
            }
        }
        i += 1;
    }
    out.say(room_desc.as_str());
    // the exits summary
    let ne = room.exits.len();
    let mut visible: Vec<usize> = Vec::new();
    let mut i: usize = 0;
    while i < ne
        invariant
            i <= ne,
            ne == room.exits@.len(),
            ({
                let sv = spec_visible_exits_upto(*room, flags@, i as nat);
                visible@.len() == sv.len() && (forall|k: int|
                    0 <= k < sv.len() ==> visible@[k] == sv[k]) && (forall|k: int|
                    0 <= k < visible@.len() ==> #[trigger] visible@[k] < ne)
            }),
        decreases ne - i,
    {
        if conditions_met(&room.exits[i].conditions, flags) {
            visible.push(i);
        }
        i += 1;
    }
    let ghost vs = spec_visible_exits_upto(*room, flags@, ne as nat);
    if visible.len() == 0 {
        out.set_exits("Exits: (none)");
        return ;
    }
    let mut keys: Vec<String> = Vec::new();
    let mut i: usize = 0;
    while i < ne
        invariant
            i <= ne,
            ne == room.exits@.len(),
            keys@.len() == i,
            forall|k: int| 0 <= k < i ==> keys@[k] == room.exits@[k].direction,
        decreases ne - i,
    {
        keys.push(room.exits[i].direction.clone());
        i += 1;
    }
    proof {
        assert(keys@ =~= room.exits@.map_values(|e: Exit| e.direction));
    }
    let ghost vm = visible@.map_values(|u: usize| u as int);
    proof {
        assert(vm =~= vs);
    }
    let nv = visible.len();
    let mut order: Vec<usize> = Vec::new();
    let mut k: usize = 0;
    while k < nv
        invariant
            k <= nv,
            nv == visible@.len(),
            vm == visible@.map_values(|u: usize| u as int),
            keys@ == room.exits@.map_values(|e: Exit| e.direction),
            forall|x: int| 0 <= x < visible@.len() ==> #[trigger] visible@[x] < keys@.len(),
            forall|x: int| 0 <= x < order@.len() ==> #[trigger] order@[x] < keys@.len(),
            sorted_by_keys(keys@, order@),
            order@.map_values(|u: usize| u as int) == spec_sort_indices_upto(keys@, vm, k as nat),
        decreases nv - k,
    {
        insert_by_key(&keys, &mut order, visible[k]);
        k += 1;
    }
    let ghost sorted = spec_sort_indices(keys@, vm);
    // drop adjacent duplicate directions
    let no = order.len();
    let mut dd: Vec<usize> = Vec::new();
    let mut k: usize = 0;
    while k < no
        invariant
            k <= no,
            no == order@.len(),
            order@.map_values(|u: usize| u as int) == sorted,
            forall|x: int| 0 <= x < order@.len() ==> #[trigger] order@[x] < keys@.len(),
            ({
                let sd = spec_dedup_upto(keys@, sorted, k as nat);
                dd@.len() == sd.len() && (forall|x: int| 0 <= x < sd.len() ==> dd@[x] == sd[x])
                    && (forall|x: int| 0 <= x < dd@.len() ==> #[trigger] dd@[x] < keys@.len())
            }),
        decreases no - k,
    {
        let cur = order[k];
        let mut dup = false;
        if dd.len() > 0 {
            dup = str_eq(keys[dd[dd.len() - 1]].as_str(), keys[cur].as_str());
        }
        if !dup {
            dd.push(cur);
        }
        k += 1;
    }
    let list = join_keys(&keys, &dd, ", ");
    let mut line = String::from_str("Exits: ");
    line.append(list.as_str());
    proof {
        let sdd = spec_dedup_upto(keys@, sorted, sorted.len());
        assert(dd@.map_values(|u: usize| u as int) =~= sdd);
        assert(dd@.map_values(|u: usize| keys@[u as int]@) =~= sdd.map_values(
            |i: int| keys@[i]@,
        ));
    }
    out.set_exits(line.as_str());
}

/// The flag name referenced by a condition string: leading and trailing
/// whitespace removed, then any leading negation markers, then whitespace
/// again.
pub open spec fn strip_negations(t: Seq<char>) -> Seq<char>
    decreases t.len(),
{
    if t.len() > 0 && t[0] == '!' {
        strip_negations(t.skip(1))
    } else {
        t
    }
}

/// Whether a condition string references one of the changed flags, with or
/// without negation.
pub open spec fn spec_cond_touches(c: Seq<char>, changed: Set<Seq<char>>) -> bool {
    let t = spec_trim(c);
    if t.len() == 0 {
        false
    } else {
        let nm = spec_trim(strip_negations(t));
        nm.len() > 0 && changed.contains(nm)
    }
}

/// Whether any condition in the list references one of the changed flags.
pub open spec fn spec_conds_touch(conds: Seq<String>, changed: Set<Seq<char>>) -> bool {
    exists|i: int| 0 <= i < conds.len() && spec_cond_touches((#[trigger] conds[i])@, changed)
}

/// Tests one condition string against the changed flags.
fn cond_touches(c: &str, changed: &FlagSet) -> (r: bool)
    ensures
        r == spec_cond_touches(c@, changed@),
{
    let t = trim_str(c);
    let tn = t.unicode_len();
    if tn == 0 {
        return false;
    }
    let mut i: usize = 0;
    proof {
        assert(t@.skip(0) =~= t@);
    }
    while i < tn && t.get_char(i) == '!'
        invariant
            i <= tn,
            tn == t@.len(),
            strip_negations(t@) == strip_negations(t@.skip(i as int)),
        decreases tn - i,
    {
        proof {
            assert(t@.skip(i as int).skip(1) =~= t@.skip(i + 1));
        }
        i += 1;
    }
    let rest = t.substring_char(i, tn);
    proof {
        assert(rest@ =~= strip_negations(t@));
    }
    let nm = trim_str(rest);
    if nm.unicode_len() == 0 {
        return false;
    }
    changed.contains(nm)
}

/// Tests a condition list against the changed flags.
fn conds_touch(conds: &Vec<String>, changed: &FlagSet) -> (r: bool)
    ensures
        r == spec_conds_touch(conds@, changed@),
{
    let n = conds.len();
    let mut i: usize = 0;
    while i < n
        invariant
            i <= n,
            n == conds@.len(),
            forall|k: int| 0 <= k < i ==> !spec_cond_touches((#[trigger] conds@[k])@, changed@),
        decreases n - i,
    {
        if cond_touches(conds[i].as_str(), changed) {
            return true;
        }
        i += 1;
    }
    false
}

/// Whether a re-render is worthwhile: some condition reachable from the
/// room's state fragments, its exits, its items, their container gating, or
/// the contents of those containers references a changed flag.
pub open spec fn spec_room_depends(
    w: World,
    room: Room,
    m: Map<Seq<char>, LocV>,
    changed: Set<Seq<char>>,
) -> bool {
    ||| exists|i: int|
        0 <= i < room.state_descs@.len() && spec_conds_touch(
            (#[trigger] room.state_descs@[i]).conditions@,
            changed,
        )
    ||| exists|i: int|
        0 <= i < room.exits@.len() && spec_conds_touch(
            (#[trigger] room.exits@[i]).conditions@,
            changed,
        )
    ||| exists|i: int|
        0 <= i < w.items@.len() && {
            let it = #[trigger] w.items@[i];
            m.dom().contains(it.id@) && (m[it.id@] matches LocV::Room(r) && r == room.id@) && {
                ||| spec_conds_touch(it.conditions@, changed)
                ||| (it.kind matches ItemKind::Container(p) && {
                    ||| spec_conds_touch(p.conditions@, changed)
                    ||| exists|j: int|
                        0 <= j < w.items@.len() && {
                            let inner = #[trigger] w.items@[j];
                            m.dom().contains(inner.id@) && (m[inner.id@] matches LocV::Item(q) && q
                                == it.id@) && spec_conds_touch(inner.conditions@, changed)
                        }
                })
            }
        }
}

/// Decides whether a flag change warrants re-describing the current room.
pub fn room_depends_on_any_flag(
    room: &Room,
    world: &World,
    item_locations: &LocMap,
    flags_changed: &FlagSet,
) -> (r: bool)
    requires
        item_locations.wf(),
    ensures
        r == spec_room_depends(*world, *room, item_locations@, flags_changed@),
{
    let ns = room.state_descs.len();
    let mut i: usize = 0;
    while i < ns
        invariant
            i <= ns,
            ns == room.state_descs@.len(),
            forall|k: int|
                0 <= k < i ==> !spec_conds_touch(
                    (#[trigger] room.state_descs@[k]).conditions@,
                    flags_changed@,
                ),
        decreases ns - i,
    {
        if conds_touch(&room.state_descs[i].conditions, flags_changed) {
            return true;
        }
        i += 1;
    }
    let ne = room.exits.len();
    let mut i: usize = 0;
    while i < ne
        invariant
            i <= ne,
            ne == room.exits@.len(),
            forall|k: int|
                0 <= k < i ==> !spec_conds_touch(
                    (#[trigger] room.exits@[k]).conditions@,
                    flags_changed@,
                ),
        decreases ne - i,
    {
        if conds_touch(&room.exits[i].conditions, flags_changed) {
            return true;
        }
        i += 1;
    }
    let n = world.items.len();
    let mut i: usize = 0;
    while i < n
        invariant
            i <= n,
            n == world.items@.len(),
            item_locations.wf(),
            !(exists|k: int|
                0 <= k < i && {
                    let it = #[trigger] world.items@[k];
                    item_locations@.dom().contains(it.id@) && (item_locations@[it.id@] matches
                    LocV::Room(r) && r == room.id@) && {
                        ||| spec_conds_touch(it.conditions@, flags_changed@)
                        ||| (it.kind matches ItemKind::Container(p) && {
                            ||| spec_conds_touch(p.conditions@, flags_changed@)
                            ||| exists|j: int|
                                0 <= j < world.items@.len() && {
                                    let inner = #[trigger] world.items@[j];
                                    item_locations@.dom().contains(inner.id@) && (item_locations@[
                                        inner.id@] matches LocV::Item(q) && q == it.id@)
                                        && spec_conds_touch(
                                        inner.conditions@,
                                        flags_changed@,
                                    )
                                }
                        })
                    }
                }),
        decreases n - i,
    {
        proof {
            item_locations.lemma_view_facts();
        }
        let it = &world.items[i];
        let mut in_room = false;
        match item_locations.get(it.id.as_str()) {
            Some(loc) => match &loc {
                ItemLocation::Room(r) => {
                    in_room = str_eq(r.as_str(), room.id.as_str());
                },
                _ => {},
            },
            None => {},
        }
        if in_room {
            if conds_touch(&it.conditions, flags_changed) {
                return true;
            }
            match &it.kind {
                ItemKind::Container(p) => {
                    if conds_touch(&p.conditions, flags_changed) {
                        return true;
                    }
                    let mut j: usize = 0;
                    while j < n
                        invariant
                            j <= n,
                            n == world.items@.len(),
                            item_locations.wf(),
                            i < n,
                            it == world.items@[i as int],
                            forall|l: int|
                                0 <= l < j ==> !({
                                    let inner = #[trigger] world.items@[l];
                                    item_locations@.dom().contains(inner.id@) && (item_locations@[
                                        inner.id@] matches LocV::Item(q) && q == it.id@)
                                        && spec_conds_touch(
                                        inner.conditions@,
                                        flags_changed@,
                                    )
                                }),
                        decreases n - j,
                    {
                        proof {
                            item_locations.lemma_view_facts();
                        }
                        let inner = &world.items[j];
                        let mut inside = false;
                        match item_locations.get(inner.id.as_str()) {
                            Some(loc) => match &loc {
                                ItemLocation::Item(parent) => {
                                    inside = str_eq(parent.as_str(), it.id.as_str());
                                },
                                _ => {},
                            },
                            None => {},
                        }
                        if inside && conds_touch(&inner.conditions, flags_changed) {
                            return true;
                        }
                        j += 1;
                    }
                },
                ItemKind::Simple => {},
            }
        }
        i += 1;
    }
    false
}

} // verus!
