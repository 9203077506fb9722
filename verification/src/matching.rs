//! Free-text matching: phrase scores for verbs and nouns, word-overlap
//! scores for item and NPC names, and the scored locator that resolves a
//! query to no candidate, a unique match, or an ambiguous tie.
use vstd::prelude::*;
use vstd::string::*;

use crate::conditions::{spec_conditions_met, spec_item_in_inventory, spec_item_in_room};
use crate::flags::FlagSet;
use crate::locmap::LocMap;
use crate::model::{Item, ItemKind, LocV, World};
use crate::order::{insert_by_key, sorted_by_keys};
use crate::text::{
    contains_token, eq_chars, lower_seq, spec_tokenize, tokenize, views_of,
};

verus! {

/// A phrase matches when it has at least one word and each of its lowercase
/// words occurs among the input tokens (order-independent, whole tokens).
pub open spec fn spec_phrase_matches(p: Seq<char>, toks: Seq<Seq<char>>) -> bool {
    let ws = spec_tokenize(p);
    ws.len() > 0 && forall|k: int| 0 <= k < ws.len() ==> toks.contains(#[trigger] ws[k])
}

/// The score of a matching phrase is its word count; zero otherwise.
pub open spec fn spec_phrase_score(p: Seq<char>, toks: Seq<Seq<char>>) -> nat {
    if spec_phrase_matches(p, toks) {
        spec_tokenize(p).len()
    } else {
        0
    }
}

/// The best phrase score among the first `n` phrases.
pub open spec fn spec_best_phrase_score_upto(
    phrases: Seq<String>,
    toks: Seq<Seq<char>>,
    n: nat,
) -> nat
    decreases n,
{
    if n == 0 {
        0
    } else {
        let prev = spec_best_phrase_score_upto(phrases, toks, (n - 1) as nat);
        let cur = spec_phrase_score(phrases[n - 1]@, toks);
        if cur > prev {
            cur
        } else {
            prev
        }
    }
}

/// The best phrase score among all phrases (the maximum, or zero when no
/// phrase matches).
pub open spec fn spec_best_phrase_score(phrases: Seq<String>, toks: Seq<Seq<char>>) -> nat {
    spec_best_phrase_score_upto(phrases, toks, phrases.len())
}

/// The lowercase words of an entity's primary name and its first `n` aliases.
pub open spec fn spec_entity_words_upto(name: Seq<char>, aliases: Seq<String>, n: nat) -> Seq<
    Seq<char>,
>
    decreases n,
{
    if n == 0 {
        spec_tokenize(name)
    } else {
        spec_entity_words_upto(name, aliases, (n - 1) as nat) + spec_tokenize(aliases[n - 1]@)
    }
}

/// The lowercase words of an entity's primary name and all its aliases.
pub open spec fn spec_entity_words(name: Seq<char>, aliases: Seq<String>) -> Seq<Seq<char>> {
    spec_entity_words_upto(name, aliases, aliases.len())
}

/// How many of the first `n` query tokens occur among the entity's words.
pub open spec fn spec_overlap_upto(q: Seq<Seq<char>>, words: Seq<Seq<char>>, n: nat) -> nat
    decreases n,
{
    if n == 0 {
        0
    } else {
        spec_overlap_upto(q, words, (n - 1) as nat) + (if words.contains(q[n - 1]) {
            1 as nat
        } else {
            0 as nat
        })
    }
}

/// How many query tokens occur among the entity's words.
pub open spec fn spec_overlap(q: Seq<Seq<char>>, words: Seq<Seq<char>>) -> nat {
    spec_overlap_upto(q, words, q.len())
}

/// Whether at least one of the entity's words occurs among the tokens.
pub open spec fn spec_mentions(words: Seq<Seq<char>>, toks: Seq<Seq<char>>) -> bool {
    exists|k: int| 0 <= k < words.len() && toks.contains(#[trigger] words[k])
}

/// Scores one phrase against the tokens: all of the phrase's words must
/// occur as whole tokens; the score is the phrase's word count.
pub fn phrase_match_score(phrase: &str, toks: &Vec<Vec<char>>) -> (r: usize)
    ensures
        r == spec_phrase_score(phrase@, views_of(toks@)),
{
    let ws = tokenize(phrase);
    let n = ws.len();
    if n == 0 {
        return 0;
    }
    let mut k: usize = 0;
    while k < n
        invariant
            k <= n,
            n == ws@.len(),
            views_of(ws@) == spec_tokenize(phrase@),
            forall|j: int| 0 <= j < k ==> views_of(toks@).contains(#[trigger] views_of(ws@)[j]),
        decreases n - k,
    {
        if !contains_token(toks, &ws[k]) {
            assert(!views_of(toks@).contains(views_of(ws@)[k as int]));
            return 0;
        }
        k += 1;
    }
    n
}

/// Whether the phrase fully matches the tokens.
pub fn phrase_matches_tokens(phrase: &str, toks: &Vec<Vec<char>>) -> (r: bool)
    ensures
        r == spec_phrase_matches(phrase@, views_of(toks@)),
{
    phrase_match_score(phrase, toks) > 0
}

/// The best score any of the phrases reaches against the tokens.
pub fn best_phrase_score(phrases: &Vec<String>, toks: &Vec<Vec<char>>) -> (r: usize)
    ensures
        r == spec_best_phrase_score(phrases@, views_of(toks@)),
{
    let n = phrases.len();
    let mut best: usize = 0;
    let mut i: usize = 0;
    while i < n
        invariant
            i <= n,
            n == phrases@.len(),
            best == spec_best_phrase_score_upto(phrases@, views_of(toks@), i as nat),
        decreases n - i,
    {
        let cur = phrase_match_score(phrases[i].as_str(), toks);
        if cur > best {
            best = cur;
        }
        i += 1;
    }
    best
}

/// The lowercase words of a primary name and its aliases, concatenated.
pub fn entity_words(name: &str, aliases: &Vec<String>) -> (r: Vec<Vec<char>>)
    ensures
        views_of(r@) == spec_entity_words(name@, aliases@),
{
    let mut r = tokenize(name);
    let n = aliases.len();
    let mut i: usize = 0;
    while i < n
        invariant
            i <= n,
            n == aliases@.len(),
            views_of(r@) == spec_entity_words_upto(name@, aliases@, i as nat),
        decreases n - i,
    {
        let mut t = tokenize(aliases[i].as_str());
        let ghost r0 = r@;
        let ghost t0 = t@;
        r.append(&mut t);
        proof {
            assert(views_of(r0 + t0) =~= views_of(r0) + views_of(t0));
        }
        i += 1;
    }
    r
}

/// Counts the query tokens that occur among the entity's words.
pub fn overlap_count(q: &Vec<Vec<char>>, words: &Vec<Vec<char>>) -> (r: usize)
    ensures
        r == spec_overlap(views_of(q@), views_of(words@)),
{
    let n = q.len();
    let mut c: usize = 0;
    let mut i: usize = 0;
    while i < n
        invariant
            i <= n,
            c <= i,
            n == q@.len(),
            c == spec_overlap_upto(views_of(q@), views_of(words@), i as nat),
        decreases n - i,
    {
        if contains_token(words, &q[i]) {
            c += 1;
        }
        i += 1;
    }
    c
}

/// Whether the input mentions the item: at least one word of its name or
/// aliases occurs among the input tokens.
pub fn input_mentions_item_name(item: &Item, toks: &Vec<Vec<char>>) -> (r: bool)
    ensures
        r == spec_mentions(spec_entity_words(item.name@, item.aliases@), views_of(toks@)),
{
    let words = entity_words(item.name.as_str(), &item.aliases);
    mentions_any(&words, toks)
}

/// Whether the input tokens mention at least one of the entity's words.
pub fn mentions_any(words: &Vec<Vec<char>>, toks: &Vec<Vec<char>>) -> (r: bool)
    ensures
        r == spec_mentions(views_of(words@), views_of(toks@)),
{
    let n = words.len();
    let mut i: usize = 0;
    while i < n
        invariant
            i <= n,
            n == words@.len(),
            forall|k: int|
                0 <= k < i ==> !views_of(toks@).contains(#[trigger] views_of(words@)[k]),
        decreases n - i,
    {
        if contains_token(toks, &words[i]) {
            assert(views_of(toks@).contains(views_of(words@)[i as int]));
            return true;
        }
        i += 1;
    }
    false
}

/// The scope an item must stand in to be a candidate of the locator.
pub enum ItemFilter {
    /// Located in the given room.
    InRoom(String),
    /// Carried in the inventory.
    Carried,
    /// Located inside the given container item.
    Inside(String),
    /// A container, located in the given room or carried.
    ContainerIn(String),
    /// A container in the given room or carried whose accepted store verbs
    /// hold the given lowercase verb.
    ContainerInWithVerb(String, Vec<char>),
}

/// The abstract value of a scope filter.
pub enum FilterV {
    InRoom(Seq<char>),
    Carried,
    Inside(Seq<char>),
    ContainerIn(Seq<char>),
    ContainerInWithVerb(Seq<char>, Seq<char>),
}

impl View for ItemFilter {
    type V = FilterV;

    open spec fn view(&self) -> FilterV {
        match self {
            ItemFilter::InRoom(r) => FilterV::InRoom(r@),
            ItemFilter::Carried => FilterV::Carried,
            ItemFilter::Inside(c) => FilterV::Inside(c@),
            ItemFilter::ContainerIn(r) => FilterV::ContainerIn(r@),
            ItemFilter::ContainerInWithVerb(r, v) => FilterV::ContainerInWithVerb(r@, v@),
        }
    }
}

/// Whether a container's accepted verb list holds the lowercase verb.
pub open spec fn spec_supports_verb(verbs: Seq<String>, v: Seq<char>) -> bool {
    exists|k: int| 0 <= k < verbs.len() && lower_seq(#[trigger] verbs[k]@) == v
}

/// Whether the item passes the scope filter given the current locations.
pub open spec fn spec_filter_ok(f: FilterV, item: Item, locs: LocMap) -> bool {
    match f {
        FilterV::InRoom(r) => spec_item_in_room(locs, item.id@, r),
        FilterV::Carried => spec_item_in_inventory(locs, item.id@),
        FilterV::Inside(cid) => locs.has(item.id@) && (locs.at(item.id@) matches LocV::Item(p)
            && p == cid),
        FilterV::ContainerIn(r) => (item.kind is Container) && (spec_item_in_room(
            locs,
            item.id@,
            r,
        ) || spec_item_in_inventory(locs, item.id@)),
        FilterV::ContainerInWithVerb(r, v) => (item.kind matches ItemKind::Container(props)
            && spec_supports_verb(props.verbs@, v)) && (spec_item_in_room(locs, item.id@, r)
            || spec_item_in_inventory(locs, item.id@)),
    }
}

/// Whether a container's accepted verb list holds the lowercase verb.
pub fn supports_verb(verbs: &Vec<String>, v: &Vec<char>) -> (r: bool)
    ensures
        r == spec_supports_verb(verbs@, v@),
{
    let n = verbs.len();
    let mut i: usize = 0;
    while i < n
        invariant
            i <= n,
            n == verbs@.len(),
            forall|k: int| 0 <= k < i ==> lower_seq(#[trigger] verbs@[k]@) != v@,
        decreases n - i,
    {
        let cs = crate::text::chars_of(verbs[i].as_str());
        let mut low: Vec<char> = Vec::new();
        let m = cs.len();
        let mut j: usize = 0;
        while j < m
            invariant
                j <= m,
                m == cs@.len(),
                low@ == lower_seq(cs@.take(j as int)),
            decreases m - j,
        {
            low.push(crate::text::to_lower_char(cs[j]));
            assert(low@ =~= lower_seq(cs@.take(j + 1)));
            j += 1;
        }
        proof {
            assert(cs@.take(m as int) =~= cs@);
        }
        if eq_chars(&low, v) {
            assert(lower_seq(verbs@[i as int]@) == v@);
            return true;
        }
        i += 1;
    }
    false
}

/// Whether the item passes the scope filter.
pub fn filter_ok(f: &ItemFilter, item: &Item, locs: &LocMap) -> (r: bool)
    requires
        locs.wf(),
    ensures
        r == spec_filter_ok(f@, *item, *locs),
{
    match f {
        ItemFilter::InRoom(r) => crate::conditions::item_in_room(item.id.as_str(), locs, r.as_str()),
        ItemFilter::Carried => crate::conditions::item_in_inventory(item.id.as_str(), locs),
        ItemFilter::Inside(cid) => {
            match locs.get(item.id.as_str()) {
                Some(loc) => match &loc {
                    crate::model::ItemLocation::Item(p) => crate::text::str_eq(
                        p.as_str(),
                        cid.as_str(),
                    ),
                    _ => false,
                },
                None => false,
            }
        },
        ItemFilter::ContainerIn(r) => {
            let is_container = match &item.kind {
                ItemKind::Container(_) => true,
                ItemKind::Simple => false,
            };
            is_container && (crate::conditions::item_in_room(item.id.as_str(), locs, r.as_str())
                || crate::conditions::item_in_inventory(item.id.as_str(), locs))
        },
        ItemFilter::ContainerInWithVerb(r, v) => {
            let kind_ok = match &item.kind {
                ItemKind::Container(props) => supports_verb(&props.verbs, v),
                ItemKind::Simple => false,
            };
            kind_ok && (crate::conditions::item_in_room(item.id.as_str(), locs, r.as_str())
                || crate::conditions::item_in_inventory(item.id.as_str(), locs))
        },
    }
}

/// The locator score of the item at index `i`: zero when it is out of scope,
/// filtered by visibility, or shares no word with the query; otherwise the
/// word-overlap count.
pub open spec fn spec_item_score(
    w: World,
    locs: LocMap,
    flags: Set<Seq<char>>,
    q: Seq<Seq<char>>,
    f: FilterV,
    respect_conditions: bool,
    i: int,
) -> nat {
    let it = w.items@[i];
    if !spec_filter_ok(f, it, locs) {
        0
    } else if respect_conditions && !spec_conditions_met(it.conditions@, flags) {
        0
    } else {
        spec_overlap(q, spec_entity_words(it.name@, it.aliases@))
    }
}

/// The best item score among the first `n` items.
pub open spec fn spec_best_item_score_upto(
    w: World,
    locs: LocMap,
    flags: Set<Seq<char>>,
    q: Seq<Seq<char>>,
    f: FilterV,
    respect_conditions: bool,
    n: nat,
) -> nat
    decreases n,
{
    if n == 0 {
        0
    } else {
        let prev = spec_best_item_score_upto(w, locs, flags, q, f, respect_conditions, (n - 1) as nat);
        let cur = spec_item_score(w, locs, flags, q, f, respect_conditions, n - 1);
        if cur > prev {
            cur
        } else {
            prev
        }
    }
}

/// The best item score among all items.
pub open spec fn spec_best_item_score(
    w: World,
    locs: LocMap,
    flags: Set<Seq<char>>,
    q: Seq<Seq<char>>,
    f: FilterV,
    respect_conditions: bool,
) -> nat {
    spec_best_item_score_upto(w, locs, flags, q, f, respect_conditions, w.items@.len())
}

/// How many of the first `n` items reach score `m`.
pub open spec fn spec_item_score_count_upto(
    w: World,
    locs: LocMap,
    flags: Set<Seq<char>>,
    q: Seq<Seq<char>>,
    f: FilterV,
    respect_conditions: bool,
    m: nat,
    n: nat,
) -> nat
    decreases n,
{
    if n == 0 {
        0
    } else {
        spec_item_score_count_upto(w, locs, flags, q, f, respect_conditions, m, (n - 1) as nat) + (
        if spec_item_score(w, locs, flags, q, f, respect_conditions, n - 1) == m {
            1 as nat
        } else {
            0 as nat
        })
    }
}

/// A positive best score is attained by some item.
pub proof fn lemma_best_item_attained(
    w: World,
    locs: LocMap,
    flags: Set<Seq<char>>,
    q: Seq<Seq<char>>,
    f: FilterV,
    respect_conditions: bool,
    n: nat,
)
    requires
        spec_best_item_score_upto(w, locs, flags, q, f, respect_conditions, n) > 0,
    ensures
        exists|i: int|
            0 <= i < n && spec_item_score(w, locs, flags, q, f, respect_conditions, i)
                == spec_best_item_score_upto(w, locs, flags, q, f, respect_conditions, n),
    decreases n,
{
    let m = spec_best_item_score_upto(w, locs, flags, q, f, respect_conditions, n);
    let prev = spec_best_item_score_upto(w, locs, flags, q, f, respect_conditions, (n - 1) as nat);
    let cur = spec_item_score(w, locs, flags, q, f, respect_conditions, n - 1);
    if cur > prev {
        assert(spec_item_score(w, locs, flags, q, f, respect_conditions, n - 1) == m);
    } else {
        lemma_best_item_attained(w, locs, flags, q, f, respect_conditions, (n - 1) as nat);
    }
}

/// The outcome of the scored item locator.
pub enum ItemMatch {
    /// No in-scope, visibility-passing item shares a word with the query.
    NoMatch,
    /// A single item scores strictly highest: its index.
    Unique(usize),
    /// Two or more items tie for the highest score: their indices, ordered
    /// by item name.
    Ambiguous(Vec<usize>),
}

/// Scored free-text item matching: each in-scope, visibility-passing item is
/// scored by counting the query words that occur among its name and alias
/// words; zero-overlap items are excluded; a unique top scorer is a match
/// and a tie is ambiguous.
pub fn find_item_by_words_scored(
    world: &World,
    locs: &LocMap,
    flags: &FlagSet,
    q: &Vec<Vec<char>>,
    f: &ItemFilter,
    respect_conditions: bool,
) -> (r: ItemMatch)
    requires
        locs.wf(),
    ensures
        ({
            let m = spec_best_item_score(*world, *locs, flags@, views_of(q@), f@, respect_conditions);
            let cnt = spec_item_score_count_upto(
                *world,
                *locs,
                flags@,
                views_of(q@),
                f@,
                respect_conditions,
                m,
                world.items@.len(),
            );
            match r {
                ItemMatch::NoMatch => m == 0,
                ItemMatch::Unique(i) => m > 0 && cnt == 1 && i < world.items@.len()
                    && spec_item_score(
                    *world,
                    *locs,
                    flags@,
                    views_of(q@),
                    f@,
                    respect_conditions,
                    i as int,
                ) == m,
                ItemMatch::Ambiguous(v) => m > 0 && cnt >= 2 && sorted_by_keys(
                    world.items@.map_values(|it: Item| it.name),
                    v@,
                ) && v@.len() == cnt && (forall|x: usize|
                    v@.contains(x) == (x < world.items@.len() && spec_item_score(
                        *world,
                        *locs,
                        flags@,
                        views_of(q@),
                        f@,
                        respect_conditions,
                        x as int,
                    ) == m)),
            }
        }),
{
    let ghost qv = views_of(q@);
    let n = world.items.len();
    let mut scores: Vec<usize> = Vec::new();
    let mut best: usize = 0;
    let mut i: usize = 0;
    while i < n
        invariant
            i <= n,
            n == world.items@.len(),
            locs.wf(),
            scores@.len() == i,
            forall|k: int|
                0 <= k < i ==> scores@[k] == spec_item_score(
                    *world,
                    *locs,
                    flags@,
                    qv,
                    f@,
                    respect_conditions,
                    k,
                ),
            best == spec_best_item_score_upto(
                *world,
                *locs,
                flags@,
                qv,
                f@,
                respect_conditions,
                i as nat,
            ),
        decreases n - i,
    {
        let it = &world.items[i];
        let mut sc: usize = 0;
        if filter_ok(f, it, locs) {
            let visible_ok = if respect_conditions {
                crate::conditions::conditions_met(&it.conditions, flags)
            } else {
                true
            };
            if visible_ok {
                let words = entity_words(it.name.as_str(), &it.aliases);
                sc = overlap_count(q, &words);
            }
        }
        if sc > best {
            best = sc;
        }
        scores.push(sc);
        i += 1;
    }
    let ghost m = spec_best_item_score(*world, *locs, flags@, qv, f@, respect_conditions);
    if best == 0 {
        return ItemMatch::NoMatch;
    }
    // collect the indices reaching the maximum, ordered by item name
    let mut names: Vec<String> = Vec::new();
    let mut i: usize = 0;
    while i < n
        invariant
            i <= n,
            n == world.items@.len(),
            names@.len() == i,
            forall|k: int| 0 <= k < i ==> names@[k] == world.items@[k].name,
        decreases n - i,
    {
        names.push(world.items[i].name.clone());
        i += 1;
    }
    proof {
        assert(names@ =~= world.items@.map_values(|it: Item| it.name));
    }
    let mut picked: Vec<usize> = Vec::new();
    let mut i: usize = 0;
    while i < n
        invariant
            i <= n,
            n == world.items@.len(),
            names@ == world.items@.map_values(|it: Item| it.name),
            scores@.len() == n,
            best == m,
            forall|k: int|
                0 <= k < n ==> scores@[k] == spec_item_score(
                    *world,
                    *locs,
                    flags@,
                    qv,
                    f@,
                    respect_conditions,
                    k,
                ),
            forall|k: int| 0 <= k < picked@.len() ==> #[trigger] picked@[k] < n,
            sorted_by_keys(names@, picked@),
            picked@.len() == spec_item_score_count_upto(
                *world,
                *locs,
                flags@,
                qv,
                f@,
                respect_conditions,
                m,
                i as nat,
            ),
            forall|x: usize|
                picked@.contains(x) == (x < i && spec_item_score(
                    *world,
                    *locs,
                    flags@,
                    qv,
                    f@,
                    respect_conditions,
                    x as int,
                ) == m),
        decreases n - i,
    {
        let ghost picked0 = picked@;
        if scores[i] == best {
            insert_by_key(&names, &mut picked, i);
            proof {
                assert forall|x: usize|
                    picked@.contains(x) == (x < i + 1 && spec_item_score(
                        *world,
                        *locs,
                        flags@,
                        qv,
                        f@,
                        respect_conditions,
                        x as int,
                    ) == m) by {
                    assert(picked@.contains(x) == (picked0.contains(x) || x == i));
                }
            }
        } else {
            proof {
                assert forall|x: usize|
                    picked@.contains(x) == (x < i + 1 && spec_item_score(
                        *world,
                        *locs,
                        flags@,
                        qv,
                        f@,
                        respect_conditions,
                        x as int,
                    ) == m) by {
                    if x == i {
                        assert(!picked0.contains(x));
                    }
                }
            }
        }
        i += 1;
    }
    if picked.len() == 1 {
        let idx = picked[0];
        proof {
            assert(picked@.contains(picked@[0]));
        }
        ItemMatch::Unique(idx)
    } else {
        proof {
            lemma_best_item_attained(*world, *locs, flags@, qv, f@, respect_conditions, n as nat);
            let wit = choose|i: int|
                0 <= i < n && spec_item_score(*world, *locs, flags@, qv, f@, respect_conditions, i)
                    == m;
            assert(picked@.contains(wit as usize));
            assert(picked@.len() >= 1);
        }
        ItemMatch::Ambiguous(picked)
    }
}

/// An item at score `m` makes the count at least one.
pub proof fn lemma_item_count_one(
    w: World,
    locs: LocMap,
    flags: Set<Seq<char>>,
    q: Seq<Seq<char>>,
    f: FilterV,
    respect_conditions: bool,
    m: nat,
    i: int,
    n: nat,
)
    requires
        0 <= i < n,
        spec_item_score(w, locs, flags, q, f, respect_conditions, i) == m,
    ensures
        spec_item_score_count_upto(w, locs, flags, q, f, respect_conditions, m, n) >= 1,
    decreases n,
{
    if i < n - 1 {
        lemma_item_count_one(w, locs, flags, q, f, respect_conditions, m, i, (n - 1) as nat);
    }
}

/// Two distinct items at score `m` make the count at least two.
pub proof fn lemma_item_count_two(
    w: World,
    locs: LocMap,
    flags: Set<Seq<char>>,
    q: Seq<Seq<char>>,
    f: FilterV,
    respect_conditions: bool,
    m: nat,
    i: int,
    j: int,
    n: nat,
)
    requires
        0 <= i < j < n,
        spec_item_score(w, locs, flags, q, f, respect_conditions, i) == m,
        spec_item_score(w, locs, flags, q, f, respect_conditions, j) == m,
    ensures
        spec_item_score_count_upto(w, locs, flags, q, f, respect_conditions, m, n) >= 2,
    decreases n,
{
    if j < n - 1 {
        lemma_item_count_two(w, locs, flags, q, f, respect_conditions, m, i, j, (n - 1) as nat);
    } else {
        lemma_item_count_one(w, locs, flags, q, f, respect_conditions, m, i, (n - 1) as nat);
    }
}

/// The index of the item reaching the best score, when there is exactly one.
pub open spec fn spec_item_unique_index(
    w: World,
    locs: LocMap,
    flags: Set<Seq<char>>,
    q: Seq<Seq<char>>,
    f: FilterV,
    respect_conditions: bool,
) -> int {
    choose|i: int|
        0 <= i < w.items@.len() && spec_item_score(w, locs, flags, q, f, respect_conditions, i)
            == spec_best_item_score(w, locs, flags, q, f, respect_conditions)
}

/// When the count at the best score is one, any index at the best score is
/// the unique index.
pub proof fn lemma_item_unique_agrees(
    w: World,
    locs: LocMap,
    flags: Set<Seq<char>>,
    q: Seq<Seq<char>>,
    f: FilterV,
    respect_conditions: bool,
    idx: int,
)
    requires
        0 <= idx < w.items@.len(),
        spec_item_score(w, locs, flags, q, f, respect_conditions, idx) == spec_best_item_score(
            w,
            locs,
            flags,
            q,
            f,
            respect_conditions,
        ),
        spec_item_score_count_upto(
            w,
            locs,
            flags,
            q,
            f,
            respect_conditions,
            spec_best_item_score(w, locs, flags, q, f, respect_conditions),
            w.items@.len(),
        ) == 1,
    ensures
        spec_item_unique_index(w, locs, flags, q, f, respect_conditions) == idx,
{
    let m = spec_best_item_score(w, locs, flags, q, f, respect_conditions);
    let ci = spec_item_unique_index(w, locs, flags, q, f, respect_conditions);
    assert(0 <= ci < w.items@.len() && spec_item_score(w, locs, flags, q, f, respect_conditions, ci)
        == m);
    if ci < idx {
        lemma_item_count_two(w, locs, flags, q, f, respect_conditions, m, ci, idx, w.items@.len());
    } else if idx < ci {
        lemma_item_count_two(w, locs, flags, q, f, respect_conditions, m, idx, ci, w.items@.len());
    }
}

} // verus!
