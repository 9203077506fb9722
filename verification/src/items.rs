//! The item handlers: inventory listing, taking, dropping, container
//! transfer with capacity and completion semantics, and examining.
use vstd::prelude::*;
use vstd::string::*;

use crate::conditions::{conditions_met, spec_conditions_met};
use crate::flags::FlagSet;
use crate::locmap::{count_inside_upto, LocMap};
use crate::matching::{
    find_item_by_words_scored, lemma_item_unique_agrees, spec_best_item_score,
    spec_item_score, spec_item_score_count_upto, spec_item_unique_index, spec_supports_verb,
    supports_verb, FilterV, ItemFilter, ItemMatch,
};
use crate::model::{
    ContainerProps, Item, ItemKind, ItemLocation, LocV, World,
};
use crate::order::{
    insert_by_key, join_keys, sorted_by_keys, spec_join, spec_sort_indices, spec_sort_indices_upto,
};
use crate::output::{spec_say, BlockV, Output};
use crate::text::{
    is_blank_str, lower_seq, lower_str, spec_blank, spec_tokenize, spec_trim, str_eq, tokenize, trim_str, views_of,
};

verus! {

/// The container behaviour of an item known to be a container.
pub open spec fn spec_container_props(k: ItemKind) -> ContainerProps {
    match k {
        ItemKind::Container(p) => p,
        ItemKind::Simple => arbitrary(),
    }
}

/// Scored item lookup that enforces the items' own visibility conditions.
pub fn find_item(
    world: &World,
    item_locations: &LocMap,
    flags: &FlagSet,
    query_tokens: &Vec<Vec<char>>,
    filter: &ItemFilter,
) -> (r: ItemMatch)
    requires
        item_locations.wf(),
    ensures
        ({
            let m = spec_best_item_score(
                *world,
                *item_locations,
                flags@,
                views_of(query_tokens@),
                filter@,
                true,
            );
            let cnt = spec_item_score_count_upto(
                *world,
                *item_locations,
                flags@,
                views_of(query_tokens@),
                filter@,
                true,
                m,
                world.items@.len(),
            );
            match r {
                ItemMatch::NoMatch => m == 0,
                ItemMatch::Unique(i) => m > 0 && cnt == 1 && i < world.items@.len()
                    && spec_item_score(
                    *world,
                    *item_locations,
                    flags@,
                    views_of(query_tokens@),
                    filter@,
                    true,
                    i as int,
                ) == m,
                ItemMatch::Ambiguous(v) => m > 0 && cnt >= 2,
            }
        }),
{
    find_item_by_words_scored(world, item_locations, flags, query_tokens, filter, true)
}

/// Scored item lookup that ignores the items' own visibility conditions,
/// for possession-based operations such as dropping.
pub fn find_item_ignore_conditions(
    world: &World,
    item_locations: &LocMap,
    flags: &FlagSet,
    query_tokens: &Vec<Vec<char>>,
    filter: &ItemFilter,
) -> (r: ItemMatch)
    requires
        item_locations.wf(),
    ensures
        ({
            let m = spec_best_item_score(
                *world,
                *item_locations,
                flags@,
                views_of(query_tokens@),
                filter@,
                false,
            );
            let cnt = spec_item_score_count_upto(
                *world,
                *item_locations,
                flags@,
                views_of(query_tokens@),
                filter@,
                false,
                m,
                world.items@.len(),
            );
            match r {
                ItemMatch::NoMatch => m == 0,
                ItemMatch::Unique(i) => m > 0 && cnt == 1 && i < world.items@.len()
                    && spec_item_score(
                    *world,
                    *item_locations,
                    flags@,
                    views_of(query_tokens@),
                    filter@,
                    false,
                    i as int,
                ) == m,
                ItemMatch::Ambiguous(v) => m > 0 && cnt >= 2,
            }
        }),
{
    find_item_by_words_scored(world, item_locations, flags, query_tokens, filter, false)
}

/// The carried items, among the first `n`, in declaration order.
pub open spec fn spec_carried_upto(items: Seq<Item>, locs: LocMap, n: nat) -> Seq<int>
    decreases n,
{
    if n == 0 {
        Seq::empty()
    } else {
        let p = spec_carried_upto(items, locs, (n - 1) as nat);
        let it = items[n - 1];
        if locs.has(it.id@) && locs.at(it.id@) is Inventory {
            p.push(n - 1)
        } else {
            p
        }
    }
}

/// One inventory listing line: the item's trimmed inventory text, or its
/// name when that text is blank, indented.
pub open spec fn spec_inv_line(it: Item) -> Seq<char> {
    if spec_blank(it.inventory_text@) {
        "  "@ + it.name@
    } else {
        "  "@ + spec_trim(it.inventory_text@)
    }
}

/// The listing lines of the first `k` selected items, appended in order.
pub open spec fn spec_inv_lines(w: World, ms: Seq<int>, outv: Seq<BlockV>, k: nat) -> Seq<BlockV>
    decreases k,
{
    if k == 0 {
        outv
    } else {
        spec_say(spec_inv_lines(w, ms, outv, (k - 1) as nat), spec_inv_line(w.items@[ms[k - 1]]))
    }
}

/// The output change of listing the inventory: carried items, ordered by
/// name, one line each.
pub open spec fn spec_inventory_outcome(w: World, locs: LocMap, outv: Seq<BlockV>) -> Seq<BlockV> {
    let carried = spec_carried_upto(w.items@, locs, w.items@.len());
    if carried.len() == 0 {
        spec_say(outv, "You are carrying nothing."@)
    } else {
        let sorted = spec_sort_indices(w.items@.map_values(|it: Item| it.name), carried);
        spec_inv_lines(w, sorted, spec_say(outv, "You are carrying:"@), sorted.len())
    }
}

/// Lists the carried items, ordered by name, one line each; an item's
/// inventory text stands in for its name when present.
pub fn handle_inventory(out: &mut Output, world: &World, item_locations: &LocMap)
    requires
        old(out).wf(),
        item_locations.wf(),
    ensures
        final(out).wf(),
        final(out)@ == spec_inventory_outcome(*world, *item_locations, old(out)@),
{
    let n = world.items.len();
    let mut carried: Vec<usize> = Vec::new();
    let mut i: usize = 0;
    while i < n
        invariant
            i <= n,
            n == world.items@.len(),
            item_locations.wf(),
            ({
                let sc = spec_carried_upto(world.items@, *item_locations, i as nat);
                carried@.len() == sc.len() && (forall|k: int|
                    0 <= k < sc.len() ==> carried@[k] == sc[k]) && (forall|k: int|
                    0 <= k < carried@.len() ==> #[trigger] carried@[k] < n)
            }),
        decreases n - i,
    {
        let it = &world.items[i];
        let mut is_carried = false;
        match item_locations.get(it.id.as_str()) {
            Some(loc) => match &loc {
                ItemLocation::Inventory => {
                    is_carried = true;
                },
                _ => {},
            },
            None => {},
        }
        if is_carried {
            carried.push(i);
        }
        i += 1;
    }
    if carried.len() == 0 {
        out.say("You are carrying nothing.");
        return ;
    }
    out.say("You are carrying:");
    let mut names: Vec<String> = Vec::new();
    let mut i: usize = 0;
    while i < n
        invariant
            i <= n,
            n == world.items@.len(),
            names@.len() == i,
            forall|k: int| 0 <= k < i ==> names@[k] == world.items@[k].name,
        decreases n - i,
    {
        names.push(world.items[i].name.clone());
        i += 1;
    }
    proof {
        assert(names@ =~= world.items@.map_values(|it: Item| it.name));
    }
    let ghost cm = carried@.map_values(|u: usize| u as int);
    proof {
        assert(cm =~= spec_carried_upto(world.items@, *item_locations, n as nat));
    }
    let nc = carried.len();
    let mut order: Vec<usize> = Vec::new();
    let mut k: usize = 0;
    while k < nc
        invariant
            k <= nc,
            nc == carried@.len(),
            cm == carried@.map_values(|u: usize| u as int),
            names@ == world.items@.map_values(|it: Item| it.name),
            forall|x: int| 0 <= x < carried@.len() ==> #[trigger] carried@[x] < names@.len(),
            forall|x: int| 0 <= x < order@.len() ==> #[trigger] order@[x] < names@.len(),
            sorted_by_keys(names@, order@),
            order@.map_values(|u: usize| u as int) == spec_sort_indices_upto(names@, cm, k as nat),
        decreases nc - k,
    {
        insert_by_key(&names, &mut order, carried[k]);
        k += 1;
    }
    let ghost sorted = spec_sort_indices(names@, cm);
    let no = order.len();
    let ghost mid = out@;
    let mut k: usize = 0;
    while k < no
        invariant
            k <= no,
            no == order@.len(),
            no == sorted.len(),
            out.wf(),
            forall|x: int| 0 <= x < order@.len() ==> #[trigger] order@[x] < world.items@.len(),
            order@.map_values(|u: usize| u as int) == sorted,
            out@ == spec_inv_lines(*world, sorted, mid, k as nat),
        decreases no - k,
    {
        let it = &world.items[order[k]];
        let mut line = String::from_str("  ");
        if is_blank_str(it.inventory_text.as_str()) {
            line.append(it.name.as_str());
        } else {
            line.append(trim_str(it.inventory_text.as_str()));
        }
        out.say(line.as_str());
        k += 1;
    }
}

/// The state change of taking an item from the current room.
pub open spec fn spec_take_outcome(
    w: World,
    locs: LocMap,
    flags: Set<Seq<char>>,
    cur: Seq<char>,
    target: Seq<char>,
    outv: Seq<BlockV>,
) -> (Map<Seq<char>, LocV>, Seq<BlockV>) {
    let q = spec_tokenize(target);
    let f = FilterV::InRoom(cur);
    let m = spec_best_item_score(w, locs, flags, q, f, true);
    let cnt = spec_item_score_count_upto(w, locs, flags, q, f, true, m, w.items@.len());
    if spec_blank(target) {
        (locs@, spec_say(outv, "Take what?"@))
    } else if m == 0 {
        (locs@, spec_say(outv, "You don't see that here."@))
    } else if cnt != 1 {
        (locs@, spec_say(outv, "Be more specific."@))
    } else {
        let it = w.items@[spec_item_unique_index(w, locs, flags, q, f, true)];
        if !it.portable {
            (locs@, spec_say(outv, "You can't take the "@ + it.name@ + "."@))
        } else {
            (
                locs@.insert(it.id@, LocV::Inventory),
                spec_say(outv, "You take the "@ + it.name@ + "."@),
            )
        }
    }
}

/// Takes a visible item from the current room into the inventory, if it is
/// portable and the query resolves it unambiguously.
pub fn handle_take(
    out: &mut Output,
    item_locations: &mut LocMap,
    world: &World,
    current_room_id: &str,
    target_name: &str,
    flags: &FlagSet,
)
    requires
        old(out).wf(),
        old(item_locations).wf(),
    ensures
        final(out).wf(),
        final(item_locations).wf(),
        (final(item_locations)@, final(out)@) == spec_take_outcome(
            *world,
            *old(item_locations),
            flags@,
            current_room_id@,
            target_name@,
            old(out)@,
        ),
{
    if is_blank_str(target_name) {
        out.say("Take what?");
        return ;
    }
    let toks = tokenize(target_name);
    let ghost q = spec_tokenize(target_name@);
    let filter = ItemFilter::InRoom(String::from_str(current_room_id));
    let result = find_item(world, item_locations, flags, &toks, &filter);
    match result {
        ItemMatch::NoMatch => {
            out.say("You don't see that here.");
        },
        ItemMatch::Ambiguous(_) => {
            out.say("Be more specific.");
        },
        ItemMatch::Unique(ix) => {
            proof {
                lemma_item_unique_agrees(
                    *world,
                    *item_locations,
                    flags@,
                    q,
                    filter@,
                    true,
                    ix as int,
                );
            }
            let it = &world.items[ix];
            if !it.portable {
                let mut m = String::from_str("You can't take the ");
                m.append(it.name.as_str());
                m.append(".");
                out.say(m.as_str());
            } else {
                item_locations.set(it.id.as_str(), ItemLocation::Inventory);
                let mut m = String::from_str("You take the ");
                m.append(it.name.as_str());
                m.append(".");
                out.say(m.as_str());
            }
        },
    }
}

/// The items that "take all" gathers, among the first `n`: in the current
/// room, visibility-passing, and portable; in declaration order.
pub open spec fn spec_room_takeable_upto(
    items: Seq<Item>,
    locs: LocMap,
    flags: Set<Seq<char>>,
    cur: Seq<char>,
    n: nat,
) -> Seq<int>
    decreases n,
{
    if n == 0 {
        Seq::empty()
    } else {
        let p = spec_room_takeable_upto(items, locs, flags, cur, (n - 1) as nat);
        let it = items[n - 1];
        if locs.has(it.id@) && (locs.at(it.id@) matches LocV::Room(r) && r == cur)
            && spec_conditions_met(it.conditions@, flags) && it.portable {
            p.push(n - 1)
        } else {
            p
        }
    }
}

/// Moving each selected item to the inventory in turn, saying a line each.
pub open spec fn spec_take_each(
    w: World,
    ms: Seq<int>,
    m: Map<Seq<char>, LocV>,
    outv: Seq<BlockV>,
    k: nat,
) -> (Map<Seq<char>, LocV>, Seq<BlockV>)
    decreases k,
{
    if k == 0 {
        (m, outv)
    } else {
        let (pm, po) = spec_take_each(w, ms, m, outv, (k - 1) as nat);
        let it = w.items@[ms[k - 1]];
        (
            pm.insert(it.id@, LocV::Inventory),
            spec_say(po, "You take the "@ + it.name@ + "."@),
        )
    }
}

/// The state change of taking everything takeable in the room.
pub open spec fn spec_take_all_outcome(
    w: World,
    locs: LocMap,
    flags: Set<Seq<char>>,
    cur: Seq<char>,
    outv: Seq<BlockV>,
) -> (Map<Seq<char>, LocV>, Seq<BlockV>) {
    let ms = spec_room_takeable_upto(w.items@, locs, flags, cur, w.items@.len());
    if ms.len() == 0 {
        (locs@, spec_say(outv, "There is nothing here you can take."@))
    } else {
        spec_take_each(w, ms, locs@, outv, ms.len())
    }
}

/// Takes every visible portable item in the current room, in declaration
/// order, saying a line for each.
pub fn handle_take_all_room(
    out: &mut Output,
    item_locations: &mut LocMap,
    world: &World,
    current_room_id: &str,
    flags: &FlagSet,
)
    requires
        old(out).wf(),
        old(item_locations).wf(),
    ensures
        final(out).wf(),
        final(item_locations).wf(),
        (final(item_locations)@, final(out)@) == spec_take_all_outcome(
            *world,
            *old(item_locations),
            flags@,
            current_room_id@,
            old(out)@,
        ),
{
    let n = world.items.len();
    let mut to_take: Vec<usize> = Vec::new();
    let mut i: usize = 0;
    while i < n
        invariant
            i <= n,
            n == world.items@.len(),
            item_locations.wf(),
            item_locations@ == old(item_locations)@,
            *item_locations == *old(item_locations),
            ({
                let sc = spec_room_takeable_upto(
                    world.items@,
                    *old(item_locations),
                    flags@,
                    current_room_id@,
                    i as nat,
                );
                to_take@.len() == sc.len() && (forall|k: int|
                    0 <= k < sc.len() ==> to_take@[k] == sc[k]) && (forall|k: int|
                    0 <= k < to_take@.len() ==> #[trigger] to_take@[k] < n)
            }),
        decreases n - i,
    {
        let it = &world.items[i];
        let mut in_room = false;
        match item_locations.get(it.id.as_str()) {
            Some(loc) => match &loc {
                ItemLocation::Room(r) => {
                    in_room = str_eq(r.as_str(), current_room_id);
                },
                _ => {},
            },
            None => {},
        }
        if in_room && conditions_met(&it.conditions, flags) && it.portable {
            to_take.push(i);
        }
        i += 1;
    }
    let ghost ms = spec_room_takeable_upto(
        world.items@,
        *old(item_locations),
        flags@,
        current_room_id@,
        n as nat,
    );
    if to_take.len() == 0 {
        out.say("There is nothing here you can take.");
        return ;
    }
    let nt = to_take.len();
    let mut k: usize = 0;
    while k < nt
        invariant
            k <= nt,
            nt == to_take@.len(),
            nt == ms.len(),
            out.wf(),
            item_locations.wf(),
            forall|x: int| 0 <= x < to_take@.len() ==> #[trigger] to_take@[x] < world.items@.len(),
            forall|x: int| 0 <= x < ms.len() ==> to_take@[x] == ms[x],
            (item_locations@, out@) == spec_take_each(
                *world,
                ms,
                old(item_locations)@,
                old(out)@,
                k as nat,
            ),
        decreases nt - k,
    {
        let it = &world.items[to_take[k]];
        item_locations.set(it.id.as_str(), ItemLocation::Inventory);
        let mut m = String::from_str("You take the ");
        m.append(it.name.as_str());
        m.append(".");
        out.say(m.as_str());
        k += 1;
    }
}

/// The state change of dropping a carried item.
pub open spec fn spec_drop_outcome(
    w: World,
    locs: LocMap,
    cur: Seq<char>,
    target: Seq<char>,
    outv: Seq<BlockV>,
) -> (Map<Seq<char>, LocV>, Seq<BlockV>) {
    let q = spec_tokenize(target);
    let f = FilterV::Carried;
    let m = spec_best_item_score(w, locs, Set::empty(), q, f, false);
    let cnt = spec_item_score_count_upto(w, locs, Set::empty(), q, f, false, m, w.items@.len());
    if spec_blank(target) {
        (locs@, spec_say(outv, "Drop what?"@))
    } else if m == 0 {
        (locs@, spec_say(outv, "You aren't carrying that."@))
    } else if cnt != 1 {
        (locs@, spec_say(outv, "Be more specific."@))
    } else {
        let it = w.items@[spec_item_unique_index(w, locs, Set::empty(), q, f, false)];
        (
            locs@.insert(it.id@, LocV::Room(cur)),
            spec_say(outv, "You drop the "@ + it.name@ + "."@),
        )
    }
}

/// Drops a carried item into the current room; an item's visibility
/// conditions do not gate dropping.
pub fn handle_drop(
    out: &mut Output,
    item_locations: &mut LocMap,
    world: &World,
    current_room_id: &str,
    target_name: &str,
)
    requires
        old(out).wf(),
        old(item_locations).wf(),
    ensures
        final(out).wf(),
        final(item_locations).wf(),
        (final(item_locations)@, final(out)@) == spec_drop_outcome(
            *world,
            *old(item_locations),
            current_room_id@,
            target_name@,
            old(out)@,
        ),
{
    if is_blank_str(target_name) {
        out.say("Drop what?");
        return ;
    }
    let toks = tokenize(target_name);
    let ghost q = spec_tokenize(target_name@);
    let dummy_flags = FlagSet::new();
    let filter = ItemFilter::Carried;
    let result = find_item_ignore_conditions(world, item_locations, &dummy_flags, &toks, &filter);
    match result {
        ItemMatch::NoMatch => {
            out.say("You aren't carrying that.");
        },
        ItemMatch::Ambiguous(_) => {
            out.say("Be more specific.");
        },
        ItemMatch::Unique(ix) => {
            proof {
                lemma_item_unique_agrees(
                    *world,
                    *item_locations,
                    Set::empty(),
                    q,
                    filter@,
                    false,
                    ix as int,
                );
            }
            let it = &world.items[ix];
            item_locations.set(
                it.id.as_str(),
                ItemLocation::Room(String::from_str(current_room_id)),
            );
            let mut m = String::from_str("You drop the ");
            m.append(it.name.as_str());
            m.append(".");
            out.say(m.as_str());
        },
    }
}

/// The carried portable items, among the first `n`, in declaration order.
pub open spec fn spec_droppable_upto(items: Seq<Item>, locs: LocMap, n: nat) -> Seq<int>
    decreases n,
{
    if n == 0 {
        Seq::empty()
    } else {
        let p = spec_droppable_upto(items, locs, (n - 1) as nat);
        let it = items[n - 1];
        if locs.has(it.id@) && locs.at(it.id@) is Inventory && it.portable {
            p.push(n - 1)
        } else {
            p
        }
    }
}

/// Dropping each selected item in turn, saying a line each.
pub open spec fn spec_drop_each(
    w: World,
    ms: Seq<int>,
    cur: Seq<char>,
    m: Map<Seq<char>, LocV>,
    outv: Seq<BlockV>,
    k: nat,
) -> (Map<Seq<char>, LocV>, Seq<BlockV>)
    decreases k,
{
    if k == 0 {
        (m, outv)
    } else {
        let (pm, po) = spec_drop_each(w, ms, cur, m, outv, (k - 1) as nat);
        let it = w.items@[ms[k - 1]];
        (
            pm.insert(it.id@, LocV::Room(cur)),
            spec_say(po, "You drop the "@ + it.name@ + "."@),
        )
    }
}

/// The state change of dropping everything droppable.
pub open spec fn spec_drop_all_outcome(
    w: World,
    locs: LocMap,
    cur: Seq<char>,
    outv: Seq<BlockV>,
) -> (Map<Seq<char>, LocV>, Seq<BlockV>) {
    let ms = spec_droppable_upto(w.items@, locs, w.items@.len());
    if ms.len() == 0 {
        (locs@, spec_say(outv, "You aren't carrying anything you can drop."@))
    } else {
        spec_drop_each(w, ms, cur, locs@, outv, ms.len())
    }
}

/// Drops every carried portable item into the current room, in declaration
/// order, saying a line for each.
pub fn handle_drop_all(
    out: &mut Output,
    item_locations: &mut LocMap,
    world: &World,
    current_room_id: &str,
)
    requires
        old(out).wf(),
        old(item_locations).wf(),
    ensures
        final(out).wf(),
        final(item_locations).wf(),
        (final(item_locations)@, final(out)@) == spec_drop_all_outcome(
            *world,
            *old(item_locations),
            current_room_id@,
            old(out)@,
        ),
{
    let n = world.items.len();
    let mut to_drop: Vec<usize> = Vec::new();
    let mut i: usize = 0;
    while i < n
        invariant
            i <= n,
            n == world.items@.len(),
            item_locations.wf(),
            *item_locations == *old(item_locations),
            ({
                let sc = spec_droppable_upto(world.items@, *old(item_locations), i as nat);
                to_drop@.len() == sc.len() && (forall|k: int|
                    0 <= k < sc.len() ==> to_drop@[k] == sc[k]) && (forall|k: int|
                    0 <= k < to_drop@.len() ==> #[trigger] to_drop@[k] < n)
            }),
        decreases n - i,
    {
        let it = &world.items[i];
        let mut is_carried = false;
        match item_locations.get(it.id.as_str()) {
            Some(loc) => match &loc {
                ItemLocation::Inventory => {
                    is_carried = true;
                },
                _ => {},
            },
            None => {},
        }
        if is_carried && it.portable {
            to_drop.push(i);
        }
        i += 1;
    }
    let ghost ms = spec_droppable_upto(world.items@, *old(item_locations), n as nat);
    if to_drop.len() == 0 {
        out.say("You aren't carrying anything you can drop.");
        return ;
    }
    let nt = to_drop.len();
    let mut k: usize = 0;
    while k < nt
        invariant
            k <= nt,
            nt == to_drop@.len(),
            nt == ms.len(),
            out.wf(),
            item_locations.wf(),
            forall|x: int| 0 <= x < to_drop@.len() ==> #[trigger] to_drop@[x] < world.items@.len(),
            forall|x: int| 0 <= x < ms.len() ==> to_drop@[x] == ms[x],
            (item_locations@, out@) == spec_drop_each(
                *world,
                ms,
                current_room_id@,
                old(item_locations)@,
                old(out)@,
                k as nat,
            ),
        decreases nt - k,
    {
        let it = &world.items[to_drop[k]];
        item_locations.set(
            it.id.as_str(),
            ItemLocation::Room(String::from_str(current_room_id)),
        );
        let mut m = String::from_str("You drop the ");
        m.append(it.name.as_str());
        m.append(".");
        out.say(m.as_str());
        k += 1;
    }
}

/// The flag and output change of checking a container's completion: when
/// the container declares a completion flag and a non-empty required set,
/// the flag is not yet set, and every required item now lies in this exact
/// container, the flag is set and the completion text (if any) is emitted.
pub open spec fn spec_completion(
    w: World,
    m: Map<Seq<char>, LocV>,
    flags: Set<Seq<char>>,
    outv: Seq<BlockV>,
    cid: Seq<char>,
) -> (Set<Seq<char>>, Seq<BlockV>) {
    if !crate::model::spec_has_item(w.items@, cid) {
        (flags, outv)
    } else {
        let it = w.items@[crate::model::spec_item_index(w.items@, cid)];
        match it.kind {
            ItemKind::Simple => (flags, outv),
            ItemKind::Container(p) => match p.complete_flag {
                None => (flags, outv),
                Some(f) => if p.complete_when@.len() == 0 {
                    (flags, outv)
                } else if flags.contains(f@) {
                    (flags, outv)
                } else if !(forall|k: int|
                    0 <= k < p.complete_when@.len() ==> m.dom().contains(
                        (#[trigger] p.complete_when@[k])@,
                    ) && m[p.complete_when@[k]@] == LocV::Item(cid)) {
                    (flags, outv)
                } else {
                    (
                        flags.insert(f@),
                        match p.complete_text {
                            Some(t) => spec_say(outv, spec_trim(t@)),
                            None => outv,
                        },
                    )
                },
            },
        }
    }
}

/// Checks a container's completion trigger: sets the completion flag and
/// emits the completion text exactly once, when the required contents are
/// all inside.
pub fn check_container_completion(
    out: &mut Output,
    world: &World,
    item_locations: &LocMap,
    flags: &mut FlagSet,
    container_id: &str,
)
    requires
        old(out).wf(),
        world.wf(),
        item_locations.wf(),
    ensures
        final(out).wf(),
        (final(flags)@, final(out)@) == spec_completion(
            *world,
            item_locations@,
            old(flags)@,
            old(out)@,
            container_id@,
        ),
{
    proof {
        item_locations.lemma_view_facts();
    }
    let cix = match world.item_index(container_id) {
        Some(ix) => ix,
        None => {
            return ;
        },
    };
    proof {
        crate::model::lemma_item_index_unique(world.items@, cix as int);
    }
    let it = &world.items[cix];
    match &it.kind {
        ItemKind::Simple => {},
        ItemKind::Container(p) => {
            match &p.complete_flag {
                None => {},
                Some(f) => {
                    let nw = p.complete_when.len();
                    if nw == 0 {
                        return ;
                    }
                    if flags.contains(f.as_str()) {
                        return ;
                    }
                    let mut k: usize = 0;
                    while k < nw
                        invariant
                            k <= nw,
                            nw == p.complete_when@.len(),
                            item_locations.wf(),
                            forall|x: int|
                                0 <= x < k ==> item_locations@.dom().contains(
                                    (#[trigger] p.complete_when@[x])@,
                                ) && item_locations@[p.complete_when@[x]@] == LocV::Item(
                                    container_id@,
                                ),
                        decreases nw - k,
                    {
                        let needed = &p.complete_when[k];
                        let mut inside = false;
                        match item_locations.get(needed.as_str()) {
                            Some(loc) => match &loc {
                                ItemLocation::Item(parent) => {
                                    inside = str_eq(parent.as_str(), container_id);
                                },
                                _ => {},
                            },
                            None => {},
                        }
                        if !inside {
                            proof {
                                item_locations.lemma_view_facts();
                                assert(!(item_locations@.dom().contains(p.complete_when@[
                                    k as int]@) && item_locations@[p.complete_when@[k as int]@]
                                    == LocV::Item(container_id@)));
                            }
                            return ;
                        }
                        proof {
                            item_locations.lemma_view_facts();
                        }
                        k += 1;
                    }
                    flags.insert(f.as_str());
                    match &p.complete_text {
                        Some(t) => {
                            out.say(trim_str(t.as_str()));
                        },
                        None => {},
                    }
                },
            }
        },
    }
}

/// Whether some visible container in the room or the inventory accepts the
/// lowercase store verb, among the first `n` items.
pub open spec fn spec_any_supports_upto(
    w: World,
    locs: LocMap,
    flags: Set<Seq<char>>,
    cur: Seq<char>,
    v: Seq<char>,
    n: nat,
) -> bool
    decreases n,
{
    if n == 0 {
        false
    } else {
        spec_any_supports_upto(w, locs, flags, cur, v, (n - 1) as nat) || ({
            let it = w.items@[n - 1];
            (crate::conditions::spec_item_in_room(locs, it.id@, cur)
                || crate::conditions::spec_item_in_inventory(locs, it.id@))
                && spec_conditions_met(it.conditions@, flags) && (it.kind matches
            ItemKind::Container(p) && spec_supports_verb(p.verbs@, v))
        })
    }
}

/// The whole state change of a store attempt ("verb item [prep] container").
pub open spec fn spec_store_outcome(
    w: World,
    locs: LocMap,
    flags: Set<Seq<char>>,
    cur: Seq<char>,
    verb: Seq<char>,
    rest: Seq<char>,
    outv: Seq<BlockV>,
) -> (Map<Seq<char>, LocV>, Set<Seq<char>>, Seq<BlockV>, bool) {
    let v = lower_seq(spec_trim(verb));
    let q = spec_tokenize(rest);
    if v.len() == 0 {
        (locs@, flags, outv, false)
    } else if !spec_any_supports_upto(w, locs, flags, cur, v, w.items@.len()) {
        (locs@, flags, outv, false)
    } else if spec_blank(rest) {
        (locs@, flags, spec_say(outv, "What do you want to "@ + v + "?"@), true)
    } else {
        let fi = FilterV::Carried;
        let mi = spec_best_item_score(w, locs, Set::empty(), q, fi, false);
        let ci = spec_item_score_count_upto(w, locs, Set::empty(), q, fi, false, mi, w.items@.len());
        if mi == 0 {
            (locs@, flags, spec_say(outv, "You aren't carrying anything like that."@), true)
        } else if ci != 1 {
            (
                locs@,
                flags,
                spec_say(outv, "Be more specific about what you want to "@ + v + "."@),
                true,
            )
        } else {
            let it = w.items@[spec_item_unique_index(w, locs, Set::empty(), q, fi, false)];
            if !it.portable {
                (
                    locs@,
                    flags,
                    spec_say(outv, "You can't "@ + v + " the "@ + it.name@ + "."@),
                    true,
                )
            } else {
                let fc = FilterV::ContainerInWithVerb(cur, v);
                let mc = spec_best_item_score(w, locs, flags, q, fc, true);
                let cc = spec_item_score_count_upto(w, locs, flags, q, fc, true, mc, w.items@.len());
                if mc == 0 {
                    (
                        locs@,
                        flags,
                        spec_say(
                            outv,
                            "Where do you want to "@ + v + " the "@ + it.name@ + "?"@,
                        ),
                        true,
                    )
                } else if cc != 1 {
                    (
                        locs@,
                        flags,
                        spec_say(
                            outv,
                            "Be more specific about where you want to "@ + v + " it."@,
                        ),
                        true,
                    )
                } else {
                    let c = w.items@[spec_item_unique_index(w, locs, flags, q, fc, true)];
                    let p = spec_container_props(c.kind);
                    if p.conditions@.len() > 0 && !spec_conditions_met(p.conditions@, flags) {
                        (locs@, flags, spec_say(outv, spec_trim(p.closed_text@)), true)
                    } else if p.capacity matches Some(cap) && count_inside_upto(
                        locs.entries@,
                        c.id@,
                        locs.entries@.len(),
                    ) >= cap {
                        (
                            locs@,
                            flags,
                            spec_say(outv, "The "@ + c.name@ + " is full."@),
                            true,
                        )
                    } else {
                        let m2 = locs@.insert(it.id@, LocV::Item(c.id@));
                        let o2 = spec_say(
                            outv,
                            "You "@ + v + " the "@ + it.name@ + " "@ + p.prep@ + " the "@ + c.name@
                                + "."@,
                        );
                        let (f2, o3) = spec_completion(w, m2, flags, o2, c.id@);
                        (m2, f2, o3, true)
                    }
                }
            }
        }
    }
}

/// Attempts to handle "verb item [prep] container": the act proceeds only
/// when some visible container accepts the verb, the named item is carried
/// and portable, the named container resolves unambiguously and accepts the
/// verb, its interaction conditions hold, and capacity is not exceeded. A
/// successful store relocates the item and runs the completion check.
pub fn try_handle_container_store(
    out: &mut Output,
    verb: &str,
    rest: &str,
    item_locations: &mut LocMap,
    world: &World,
    current_room_id: &str,
    flags: &mut FlagSet,
) -> (r: bool)
    requires
        old(out).wf(),
        world.wf(),
        old(item_locations).wf(),
    ensures
        final(out).wf(),
        final(item_locations).wf(),
        r == false ==> *final(item_locations) == *old(item_locations),
        (final(item_locations)@, final(flags)@, final(out)@, r) == spec_store_outcome(
            *world,
            *old(item_locations),
            old(flags)@,
            current_room_id@,
            verb@,
            rest@,
            old(out)@,
        ),
{
    let vt = trim_str(verb);
    let verb_l = lower_str(vt);
    let ghost v = lower_seq(spec_trim(verb@));
    if verb_l.as_str().unicode_len() == 0 {
        return false;
    }
    let vl_chars = crate::text::chars_of(verb_l.as_str());
    // is there any visible container in scope that supports this verb?
    let n = world.items.len();
    let mut any_supports = false;
    let mut i: usize = 0;
    while i < n
        invariant
            i <= n,
            n == world.items@.len(),
            item_locations.wf(),
            *item_locations == *old(item_locations),
            vl_chars@ == v,
            any_supports == spec_any_supports_upto(
                *world,
                *old(item_locations),
                flags@,
                current_room_id@,
                v,
                i as nat,
            ),
        decreases n - i,
    {
        let it = &world.items[i];
        let in_scope = crate::conditions::item_in_room(
            it.id.as_str(),
            item_locations,
            current_room_id,
        ) || crate::conditions::item_in_inventory(it.id.as_str(), item_locations);
        if in_scope && conditions_met(&it.conditions, flags) {
            match &it.kind {
                ItemKind::Container(p) => {
                    if supports_verb(&p.verbs, &vl_chars) {
                        any_supports = true;
                    }
                },
                ItemKind::Simple => {},
            }
        }
        i += 1;
    }
    if !any_supports {
        return false;
    }
    if is_blank_str(rest) {
        let mut m = String::from_str("What do you want to ");
        m.append(verb_l.as_str());
        m.append("?");
        out.say(m.as_str());
        return true;
    }
    let toks = tokenize(rest);
    let ghost q = spec_tokenize(rest@);
    // the carried item to store (visibility conditions do not gate this)
    let dummy_flags = FlagSet::new();
    let fi = ItemFilter::Carried;
    let item_result = find_item_ignore_conditions(
        world,
        item_locations,
        &dummy_flags,
        &toks,
        &fi,
    );
    let item_ix: usize;
    match item_result {
        ItemMatch::NoMatch => {
            out.say("You aren't carrying anything like that.");
            return true;
        },
        ItemMatch::Ambiguous(_) => {
            let mut m = String::from_str("Be more specific about what you want to ");
            m.append(verb_l.as_str());
            m.append(".");
            out.say(m.as_str());
            return true;
        },
        ItemMatch::Unique(ix) => {
            item_ix = ix;
        },
    }
    proof {
        lemma_item_unique_agrees(
            *world,
            *item_locations,
            Set::empty(),
            q,
            fi@,
            false,
            item_ix as int,
        );
    }
    let it = &world.items[item_ix];
    if !it.portable {
        let mut m = String::from_str("You can't ");
        m.append(verb_l.as_str());
        m.append(" the ");
        m.append(it.name.as_str());
        m.append(".");
        out.say(m.as_str());
        return true;
    }
    // the container to store into
    let fc = ItemFilter::ContainerInWithVerb(
        String::from_str(current_room_id),
        vl_chars,
    );
    let cont_result = find_item(world, item_locations, flags, &toks, &fc);
    let cont_ix: usize;
    match cont_result {
        ItemMatch::NoMatch => {
            let mut m = String::from_str("Where do you want to ");
            m.append(verb_l.as_str());
            m.append(" the ");
            m.append(it.name.as_str());
            m.append("?");
            out.say(m.as_str());
            return true;
        },
        ItemMatch::Ambiguous(_) => {
            let mut m = String::from_str("Be more specific about where you want to ");
            m.append(verb_l.as_str());
            m.append(" it.");
            out.say(m.as_str());
            return true;
        },
        ItemMatch::Unique(ix) => {
            cont_ix = ix;
        },
    }
    proof {
        lemma_item_unique_agrees(*world, *item_locations, flags@, q, fc@, true, cont_ix as int);
    }
    let c = &world.items[cont_ix];
    match &c.kind {
        ItemKind::Container(p) => {
            if p.conditions.len() > 0 && !conditions_met(&p.conditions, flags) {
                out.say(trim_str(p.closed_text.as_str()));
                return true;
            }
            match p.capacity {
                Some(cap) => {
                    let count = item_locations.count_inside(c.id.as_str());
                    if count >= cap {
                        let mut m = String::from_str("The ");
                        m.append(c.name.as_str());
                        m.append(" is full.");
                        out.say(m.as_str());
                        return true;
                    }
                },
                None => {},
            }
            item_locations.set(it.id.as_str(), ItemLocation::Item(c.id.clone()));
            let mut m = String::from_str("You ");
            m.append(verb_l.as_str());
            m.append(" the ");
            m.append(it.name.as_str());
            m.append(" ");
            m.append(p.prep.as_str());
            m.append(" the ");
            m.append(c.name.as_str());
            m.append(".");
            out.say(m.as_str());
            check_container_completion(out, world, item_locations, flags, c.id.as_str());
            true
        },
        ItemKind::Simple => {
            proof {
                assert(false);
            }
            false
        },
    }
}

/// The state change of taking one item out of a container.
pub open spec fn spec_take_from_container_outcome(
    w: World,
    locs: LocMap,
    flags: Set<Seq<char>>,
    cur: Seq<char>,
    item_name: Seq<char>,
    container_name: Seq<char>,
    outv: Seq<BlockV>,
) -> (Map<Seq<char>, LocV>, Seq<BlockV>) {
    if spec_blank(item_name) {
        (locs@, spec_say(outv, "Take what?"@))
    } else if spec_blank(container_name) {
        (locs@, spec_say(outv, "Take it from where?"@))
    } else {
        let qc = spec_tokenize(container_name);
        let fc = FilterV::ContainerIn(cur);
        let mc = spec_best_item_score(w, locs, flags, qc, fc, true);
        let cc = spec_item_score_count_upto(w, locs, flags, qc, fc, true, mc, w.items@.len());
        if mc == 0 {
            (locs@, spec_say(outv, "You don't see any container like that here."@))
        } else if cc != 1 {
            (locs@, spec_say(outv, "Be more specific about which container."@))
        } else {
            let c = w.items@[spec_item_unique_index(w, locs, flags, qc, fc, true)];
            let p = spec_container_props(c.kind);
            if p.conditions@.len() > 0 && !spec_conditions_met(p.conditions@, flags) {
                (locs@, spec_say(outv, spec_trim(p.closed_text@)))
            } else {
                let qi = spec_tokenize(item_name);
                let fi = FilterV::Inside(c.id@);
                let mi = spec_best_item_score(w, locs, flags, qi, fi, true);
                let ci = spec_item_score_count_upto(
                    w,
                    locs,
                    flags,
                    qi,
                    fi,
                    true,
                    mi,
                    w.items@.len(),
                );
                if mi == 0 {
                    (
                        locs@,
                        spec_say(
                            outv,
                            "You don't see anything like that in the "@ + c.name@ + "."@,
                        ),
                    )
                } else if ci != 1 {
                    (locs@, spec_say(outv, "Be more specific about what to take."@))
                } else {
                    let it = w.items@[spec_item_unique_index(w, locs, flags, qi, fi, true)];
                    if !it.portable {
                        (locs@, spec_say(outv, "You can't take the "@ + it.name@ + "."@))
                    } else {
                        (
                            locs@.insert(it.id@, LocV::Inventory),
                            spec_say(
                                outv,
                                "You take the "@ + it.name@ + " from the "@ + c.name@ + "."@,
                            ),
                        )
                    }
                }
            }
        }
    }
}

/// Takes one item out of a container in the room or the inventory, gated by
/// the container's interaction conditions and the item's portability.
pub fn handle_take_from_container(
    out: &mut Output,
    item_locations: &mut LocMap,
    world: &World,
    current_room_id: &str,
    item_name: &str,
    container_name: &str,
    flags: &FlagSet,
)
    requires
        old(out).wf(),
        old(item_locations).wf(),
    ensures
        final(out).wf(),
        final(item_locations).wf(),
        (final(item_locations)@, final(out)@) == spec_take_from_container_outcome(
            *world,
            *old(item_locations),
            flags@,
            current_room_id@,
            item_name@,
            container_name@,
            old(out)@,
        ),
{
    if is_blank_str(item_name) {
        out.say("Take what?");
        return ;
    }
    if is_blank_str(container_name) {
        out.say("Take it from where?");
        return ;
    }
    let ctoks = tokenize(container_name);
    let ghost qc = spec_tokenize(container_name@);
    let fc = ItemFilter::ContainerIn(String::from_str(current_room_id));
    let cont_result = find_item(world, item_locations, flags, &ctoks, &fc);
    let cont_ix: usize;
    match cont_result {
        ItemMatch::NoMatch => {
            out.say("You don't see any container like that here.");
            return ;
        },
        ItemMatch::Ambiguous(_) => {
            out.say("Be more specific about which container.");
            return ;
        },
        ItemMatch::Unique(ix) => {
            cont_ix = ix;
        },
    }
    proof {
        lemma_item_unique_agrees(*world, *item_locations, flags@, qc, fc@, true, cont_ix as int);
    }
    let c = &world.items[cont_ix];
    match &c.kind {
        ItemKind::Container(p) => {
            if p.conditions.len() > 0 && !conditions_met(&p.conditions, flags) {
                out.say(trim_str(p.closed_text.as_str()));
                return ;
            }
            let itoks = tokenize(item_name);
            let ghost qi = spec_tokenize(item_name@);
            let fi = ItemFilter::Inside(c.id.clone());
            let item_result = find_item(world, item_locations, flags, &itoks, &fi);
            let item_ix: usize;
            match item_result {
                ItemMatch::NoMatch => {
                    let mut m = String::from_str("You don't see anything like that in the ");
                    m.append(c.name.as_str());
                    m.append(".");
                    out.say(m.as_str());
                    return ;
                },
                ItemMatch::Ambiguous(_) => {
                    out.say("Be more specific about what to take.");
                    return ;
                },
                ItemMatch::Unique(ix) => {
                    item_ix = ix;
                },
            }
            proof {
                lemma_item_unique_agrees(
                    *world,
                    *item_locations,
                    flags@,
                    qi,
                    fi@,
                    true,
                    item_ix as int,
                );
            }
            let it = &world.items[item_ix];
            if !it.portable {
                let mut m = String::from_str("You can't take the ");
                m.append(it.name.as_str());
                m.append(".");
                out.say(m.as_str());
                return ;
            }
            item_locations.set(it.id.as_str(), ItemLocation::Inventory);
            let mut m = String::from_str("You take the ");
            m.append(it.name.as_str());
            m.append(" from the ");
            m.append(c.name.as_str());
            m.append(".");
            out.say(m.as_str());
        },
        ItemKind::Simple => {
            proof {
                assert(false);
            }
        },
    }
}

/// The takeable contents of a container, among the first `n` items:
/// located inside it, visibility-passing, and portable.
pub open spec fn spec_container_takeable_upto(
    items: Seq<Item>,
    locs: LocMap,
    flags: Set<Seq<char>>,
    cid: Seq<char>,
    n: nat,
) -> Seq<int>
    decreases n,
{
    if n == 0 {
        Seq::empty()
    } else {
        let p = spec_container_takeable_upto(items, locs, flags, cid, (n - 1) as nat);
        let it = items[n - 1];
        if locs.has(it.id@) && (locs.at(it.id@) matches LocV::Item(q) && q == cid)
            && spec_conditions_met(it.conditions@, flags) && it.portable {
            p.push(n - 1)
        } else {
            p
        }
    }
}

/// Moving each selected item out of the container in turn.
pub open spec fn spec_take_each_from(
    w: World,
    cname: Seq<char>,
    ms: Seq<int>,
    m: Map<Seq<char>, LocV>,
    outv: Seq<BlockV>,
    k: nat,
) -> (Map<Seq<char>, LocV>, Seq<BlockV>)
    decreases k,
{
    if k == 0 {
        (m, outv)
    } else {
        let (pm, po) = spec_take_each_from(w, cname, ms, m, outv, (k - 1) as nat);
        let it = w.items@[ms[k - 1]];
        (
            pm.insert(it.id@, LocV::Inventory),
            spec_say(po, "You take the "@ + it.name@ + " from the "@ + cname + "."@),
        )
    }
}

/// The state change of taking everything takeable out of a container.
pub open spec fn spec_take_all_from_outcome(
    w: World,
    locs: LocMap,
    flags: Set<Seq<char>>,
    cur: Seq<char>,
    container_name: Seq<char>,
    outv: Seq<BlockV>,
) -> (Map<Seq<char>, LocV>, Seq<BlockV>) {
    if spec_blank(container_name) {
        (locs@, spec_say(outv, "Take all from where?"@))
    } else {
        let qc = spec_tokenize(container_name);
        let fc = FilterV::ContainerIn(cur);
        let mc = spec_best_item_score(w, locs, flags, qc, fc, true);
        let cc = spec_item_score_count_upto(w, locs, flags, qc, fc, true, mc, w.items@.len());
        if mc == 0 {
            (locs@, spec_say(outv, "You don't see any container like that here."@))
        } else if cc != 1 {
            (locs@, spec_say(outv, "Be more specific about which container."@))
        } else {
            let c = w.items@[spec_item_unique_index(w, locs, flags, qc, fc, true)];
            let p = spec_container_props(c.kind);
            if p.conditions@.len() > 0 && !spec_conditions_met(p.conditions@, flags) {
                (locs@, spec_say(outv, spec_trim(p.closed_text@)))
            } else {
                let ms = spec_container_takeable_upto(w.items@, locs, flags, c.id@, w.items@.len());
                if ms.len() == 0 {
                    (
                        locs@,
                        spec_say(
                            outv,
                            "There is nothing in the "@ + c.name@ + " you can take."@,
                        ),
                    )
                } else {
                    spec_take_each_from(w, c.name@, ms, locs@, outv, ms.len())
                }
            }
        }
    }
}

/// Takes every visible portable item out of a container, in declaration
/// order, saying a line for each.
pub fn handle_take_all_from_container(
    out: &mut Output,
    item_locations: &mut LocMap,
    world: &World,
    current_room_id: &str,
    container_name: &str,
    flags: &FlagSet,
)
    requires
        old(out).wf(),
        old(item_locations).wf(),
    ensures
        final(out).wf(),
        final(item_locations).wf(),
        (final(item_locations)@, final(out)@) == spec_take_all_from_outcome(
            *world,
            *old(item_locations),
            flags@,
            current_room_id@,
            container_name@,
            old(out)@,
        ),
{
    if is_blank_str(container_name) {
        out.say("Take all from where?");
        return ;
    }
    let ctoks = tokenize(container_name);
    let ghost qc = spec_tokenize(container_name@);
    let fc = ItemFilter::ContainerIn(String::from_str(current_room_id));
    let cont_result = find_item(world, item_locations, flags, &ctoks, &fc);
    let cont_ix: usize;
    match cont_result {
        ItemMatch::NoMatch => {
            out.say("You don't see any container like that here.");
            return ;
        },
        ItemMatch::Ambiguous(_) => {
            out.say("Be more specific about which container.");
            return ;
        },
        ItemMatch::Unique(ix) => {
            cont_ix = ix;
        },
    }
    proof {
        lemma_item_unique_agrees(*world, *item_locations, flags@, qc, fc@, true, cont_ix as int);
    }
    let c = &world.items[cont_ix];
    match &c.kind {
        ItemKind::Container(p) => {
            if p.conditions.len() > 0 && !conditions_met(&p.conditions, flags) {
                out.say(trim_str(p.closed_text.as_str()));
                return ;
            }
            let n = world.items.len();
            let mut to_take: Vec<usize> = Vec::new();
            let mut i: usize = 0;
            while i < n
                invariant
                    i <= n,
                    n == world.items@.len(),
                    item_locations.wf(),
                    *item_locations == *old(item_locations),
                    cont_ix < n,
                    c == world.items@[cont_ix as int],
                    ({
                        let sc = spec_container_takeable_upto(
                            world.items@,
                            *old(item_locations),
                            flags@,
                            c.id@,
                            i as nat,
                        );
                        to_take@.len() == sc.len() && (forall|k: int|
                            0 <= k < sc.len() ==> to_take@[k] == sc[k]) && (forall|k: int|
                            0 <= k < to_take@.len() ==> #[trigger] to_take@[k] < n)
                    }),
                decreases n - i,
            {
                let it = &world.items[i];
                let mut inside = false;
                match item_locations.get(it.id.as_str()) {
                    Some(loc) => match &loc {
                        ItemLocation::Item(parent) => {
                            inside = str_eq(parent.as_str(), c.id.as_str());
                        },
                        _ => {},
                    },
                    None => {},
                }
                if inside && conditions_met(&it.conditions, flags) && it.portable {
                    to_take.push(i);
                }
                i += 1;
            }
            let ghost ms = spec_container_takeable_upto(
                world.items@,
                *old(item_locations),
                flags@,
                c.id@,
                n as nat,
            );
            if to_take.len() == 0 {
                let mut m = String::from_str("There is nothing in the ");
                m.append(c.name.as_str());
                m.append(" you can take.");
                out.say(m.as_str());
                return ;
            }
            let nt = to_take.len();
            let mut k: usize = 0;
            while k < nt
                invariant
                    k <= nt,
                    nt == to_take@.len(),
                    nt == ms.len(),
                    out.wf(),
                    item_locations.wf(),
                    cont_ix < world.items@.len(),
                    c == world.items@[cont_ix as int],
                    forall|x: int|
                        0 <= x < to_take@.len() ==> #[trigger] to_take@[x]
                            < world.items@.len(),
                    forall|x: int| 0 <= x < ms.len() ==> to_take@[x] == ms[x],
                    (item_locations@, out@) == spec_take_each_from(
                        *world,
                        c.name@,
                        ms,
                        old(item_locations)@,
                        old(out)@,
                        k as nat,
                    ),
                decreases nt - k,
            {
                let it = &world.items[to_take[k]];
                item_locations.set(it.id.as_str(), ItemLocation::Inventory);
                let mut m = String::from_str("You take the ");
                m.append(it.name.as_str());
                m.append(" from the ");
                m.append(c.name.as_str());
                m.append(".");
                out.say(m.as_str());
                k += 1;
            }
        },
        ItemKind::Simple => {
            proof {
                assert(false);
            }
        },
    }
}

/// The visible contents of a container, among the first `n` items.
pub open spec fn spec_contents_upto(
    items: Seq<Item>,
    locs: LocMap,
    flags: Set<Seq<char>>,
    cid: Seq<char>,
    n: nat,
) -> Seq<int>
    decreases n,
{
    if n == 0 {
        Seq::empty()
    } else {
        let p = spec_contents_upto(items, locs, flags, cid, (n - 1) as nat);
        let it = items[n - 1];
        if locs.has(it.id@) && (locs.at(it.id@) matches LocV::Item(q) && q == cid)
            && spec_conditions_met(it.conditions@, flags) {
            p.push(n - 1)
        } else {
            p
        }
    }
}

/// The output change of examining one item: its examine text (or a
/// default), and for a container its gating or its contents, ordered by
/// name.
pub open spec fn spec_examine_item(
    w: World,
    locs: LocMap,
    flags: Set<Seq<char>>,
    it: Item,
    outv: Seq<BlockV>,
) -> Seq<BlockV> {
    let o1 = if spec_blank(it.examine_text@) {
        spec_say(outv, "You see nothing special about the "@ + it.name@ + "."@)
    } else {
        spec_say(outv, spec_trim(it.examine_text@))
    };
    match it.kind {
        ItemKind::Simple => o1,
        ItemKind::Container(p) => if p.conditions@.len() > 0 && !spec_conditions_met(
            p.conditions@,
            flags,
        ) {
            spec_say(o1, spec_trim(p.closed_text@))
        } else {
            let contents = spec_contents_upto(w.items@, locs, flags, it.id@, w.items@.len());
            if contents.len() == 0 {
                spec_say(o1, "It is currently empty."@)
            } else {
                let sorted = spec_sort_indices(w.items@.map_values(|x: Item| x.name), contents);
                spec_say(
                    o1,
                    "Inside it you see: "@ + spec_join(
                        sorted.map_values(|i: int| w.items@[i].name@),
                        ", "@,
                    ) + "."@,
                )
            }
        },
    }
}

/// The output change of an examine command: carried items are preferred
/// (their visibility ignored), then visible items in the room.
pub open spec fn spec_examine_outcome(
    w: World,
    locs: LocMap,
    flags: Set<Seq<char>>,
    cur: Seq<char>,
    target: Seq<char>,
    outv: Seq<BlockV>,
) -> Seq<BlockV> {
    let q = spec_tokenize(target);
    let fi = FilterV::Carried;
    let mi = spec_best_item_score(w, locs, Set::empty(), q, fi, false);
    let ci = spec_item_score_count_upto(w, locs, Set::empty(), q, fi, false, mi, w.items@.len());
    if spec_blank(target) {
        spec_say(outv, "Examine what?"@)
    } else if mi > 0 && ci != 1 {
        spec_say(outv, "Be more specific."@)
    } else if mi > 0 {
        spec_examine_item(
            w,
            locs,
            flags,
            w.items@[spec_item_unique_index(w, locs, Set::empty(), q, fi, false)],
            outv,
        )
    } else {
        let fr = FilterV::InRoom(cur);
        let mr = spec_best_item_score(w, locs, flags, q, fr, true);
        let cr = spec_item_score_count_upto(w, locs, flags, q, fr, true, mr, w.items@.len());
        if mr == 0 {
            spec_say(outv, "You see nothing like that here."@)
        } else if cr != 1 {
            spec_say(outv, "Be more specific."@)
        } else {
            spec_examine_item(
                w,
                locs,
                flags,
                w.items@[spec_item_unique_index(w, locs, flags, q, fr, true)],
                outv,
            )
        }
    }
}

/// Shows one item's examine text and, for a container, its gating text or
/// its visible contents ordered by name.
fn examine_item(
    out: &mut Output,
    world: &World,
    item_locations: &LocMap,
    flags: &FlagSet,
    ix: usize,
)
    requires
        old(out).wf(),
        item_locations.wf(),
        ix < world.items@.len(),
    ensures
        final(out).wf(),
        final(out)@ == spec_examine_item(
            *world,
            *item_locations,
            flags@,
            world.items@[ix as int],
            old(out)@,
        ),
{
    let it = &world.items[ix];
    if is_blank_str(it.examine_text.as_str()) {
        let mut m = String::from_str("You see nothing special about the ");
        m.append(it.name.as_str());
        m.append(".");
        out.say(m.as_str());
    } else {
        out.say(trim_str(it.examine_text.as_str()));
    }
    match &it.kind {
        ItemKind::Simple => {},
        ItemKind::Container(p) => {
            if p.conditions.len() > 0 && !conditions_met(&p.conditions, flags) {
                out.say(trim_str(p.closed_text.as_str()));
                return ;
            }
            let n = world.items.len();
            let mut contents: Vec<usize> = Vec::new();
            let mut i: usize = 0;
            while i < n
                invariant
                    i <= n,
                    n == world.items@.len(),
                    item_locations.wf(),
                    ix < n,
                    it == world.items@[ix as int],
                    ({
                        let sc = spec_contents_upto(
                            world.items@,
                            *item_locations,
                            flags@,
                            it.id@,
                            i as nat,
                        );
                        contents@.len() == sc.len() && (forall|k: int|
                            0 <= k < sc.len() ==> contents@[k] == sc[k]) && (forall|k: int|
                            0 <= k < contents@.len() ==> #[trigger] contents@[k] < n)
                    }),
                decreases n - i,
            {
                let other = &world.items[i];
                let mut inside = false;
                match item_locations.get(other.id.as_str()) {
                    Some(loc) => match &loc {
                        ItemLocation::Item(parent) => {
                            inside = str_eq(parent.as_str(), it.id.as_str());
                        },
                        _ => {},
                    },
                    None => {},
                }
                if inside && conditions_met(&other.conditions, flags) {
                    contents.push(i);
                }
                i += 1;
            }
            let ghost cs = spec_contents_upto(
                world.items@,
                *item_locations,
                flags@,
                it.id@,
                n as nat,
            );
            if contents.len() == 0 {
                out.say("It is currently empty.");
                return ;
            }
            let mut names: Vec<String> = Vec::new();
            let mut i: usize = 0;
            while i < n
                invariant
                    i <= n,
                    n == world.items@.len(),
                    names@.len() == i,
                    forall|k: int| 0 <= k < i ==> names@[k] == world.items@[k].name,
                decreases n - i,
            {
                names.push(world.items[i].name.clone());
                i += 1;
            }
            proof {
                assert(names@ =~= world.items@.map_values(|x: Item| x.name));
            }
            let ghost cm = contents@.map_values(|u: usize| u as int);
            proof {
                assert(cm =~= cs);
            }
            let nc = contents.len();
            let mut order: Vec<usize> = Vec::new();
            let mut k: usize = 0;
            while k < nc
                invariant
                    k <= nc,
                    nc == contents@.len(),
                    cm == contents@.map_values(|u: usize| u as int),
                    names@ == world.items@.map_values(|x: Item| x.name),
                    forall|x: int|
                        0 <= x < contents@.len() ==> #[trigger] contents@[x] < names@.len(),
                    forall|x: int| 0 <= x < order@.len() ==> #[trigger] order@[x] < names@.len(),
                    sorted_by_keys(names@, order@),
                    order@.map_values(|u: usize| u as int) == spec_sort_indices_upto(
                        names@,
                        cm,
                        k as nat,
                    ),
                decreases nc - k,
            {
                insert_by_key(&names, &mut order, contents[k]);
                k += 1;
            }
            let list = join_keys(&names, &order, ", ");
            let mut m = String::from_str("Inside it you see: ");
            m.append(list.as_str());
            m.append(".");
            proof {
                let sorted = spec_sort_indices(names@, cm);
                assert(order@.map_values(|u: usize| u as int) == sorted);
                assert(order@.map_values(|u: usize| names@[u as int]@) =~= sorted.map_values(
                    |i: int| world.items@[i].name@,
                ));
            }
            out.say(m.as_str());
        },
    }
}

/// Examines an item: carried items are preferred (their visibility
/// ignored), then visible items in the room; containers additionally show
/// their gating text or their visible contents, ordered by name.
pub fn handle_examine(
    out: &mut Output,
    world: &World,
    item_locations: &LocMap,
    current_room_id: &str,
    target_name: &str,
    flags: &FlagSet,
)
    requires
        old(out).wf(),
        item_locations.wf(),
    ensures
        final(out).wf(),
        final(out)@ == spec_examine_outcome(
            *world,
            *item_locations,
            flags@,
            current_room_id@,
            target_name@,
            old(out)@,
        ),
{
    if is_blank_str(target_name) {
        out.say("Examine what?");
        return ;
    }
    let toks = tokenize(target_name);
    let ghost q = spec_tokenize(target_name@);
    let dummy_flags = FlagSet::new();
    let fi = ItemFilter::Carried;
    let inv_result = find_item_ignore_conditions(
        world,
        item_locations,
        &dummy_flags,
        &toks,
        &fi,
    );
    match inv_result {
        ItemMatch::Ambiguous(_) => {
            out.say("Be more specific.");
            return ;
        },
        ItemMatch::Unique(ix) => {
            proof {
                lemma_item_unique_agrees(
                    *world,
                    *item_locations,
                    Set::empty(),
                    q,
                    fi@,
                    false,
                    ix as int,
                );
            }
            examine_item(out, world, item_locations, flags, ix);
            return ;
        },
        ItemMatch::NoMatch => {},
    }
    let fr = ItemFilter::InRoom(String::from_str(current_room_id));
    let room_result = find_item(world, item_locations, flags, &toks, &fr);
    match room_result {
        ItemMatch::NoMatch => {
            out.say("You see nothing like that here.");
        },
        ItemMatch::Ambiguous(_) => {
            out.say("Be more specific.");
        },
        ItemMatch::Unique(ix) => {
            proof {
                lemma_item_unique_agrees(
                    *world,
                    *item_locations,
                    flags@,
                    q,
                    fr@,
                    true,
                    ix as int,
                );
            }
            examine_item(out, world, item_locations, flags, ix);
        },
    }
}

} // verus!
