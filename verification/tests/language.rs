// Unit tests for the condition evaluator, the text utilities, the output
// document, and the loader helpers.
use domus_engine::conditions::{apply_effects, conditions_met, item_in_inventory, item_in_room};
use domus_engine::flags::FlagSet;
use domus_engine::locmap::LocMap;
use domus_engine::model::ItemLocation;
use domus_engine::output::{Output, OutputBlock};
use domus_engine::parse::{normalize_multiline_desc, parse_item_location, parse_name_and_aliases};
use domus_engine::text::{tokenize, trim_str};

fn s(x: &str) -> String {
    String::from(x)
}

fn ss(xs: &[&str]) -> Vec<String> {
    xs.iter().map(|x| String::from(*x)).collect()
}

#[test]
fn empty_condition_list_is_vacuously_true() {
    let flags = FlagSet::new();
    assert!(conditions_met(&Vec::new(), &flags));
    let mut flags2 = FlagSet::new();
    flags2.insert("anything");
    assert!(conditions_met(&Vec::new(), &flags2));
}

#[test]
fn negated_condition_tracks_absence() {
    let conds = ss(&["!x"]);
    let mut flags = FlagSet::new();
    assert!(conditions_met(&conds, &flags));
    flags.insert("x");
    assert!(!conditions_met(&conds, &flags));
    flags.remove("x");
    assert!(conditions_met(&conds, &flags));
}

#[test]
fn positive_condition_tracks_presence() {
    let conds = ss(&["torch_lit"]);
    let mut flags = FlagSet::new();
    assert!(!conditions_met(&conds, &flags));
    flags.insert("torch_lit");
    assert!(conditions_met(&conds, &flags));
}

#[test]
fn effects_apply_in_order_and_later_wins() {
    let mut flags = FlagSet::new();
    apply_effects(&mut flags, &ss(&["a", "b", "!a"]));
    assert!(!flags.contains("a"));
    assert!(flags.contains("b"));
    let mut flags2 = FlagSet::new();
    apply_effects(&mut flags2, &ss(&["!a", "a"]));
    assert!(flags2.contains("a"));
}

#[test]
fn tokenizer_lowercases_and_splits() {
    let toks = tokenize("  Take  the Brass KEY ");
    let words: Vec<String> = toks.iter().map(|t| t.iter().collect()).collect();
    assert_eq!(words, vec![s("take"), s("the"), s("brass"), s("key")]);
    assert_eq!(tokenize("   ").len(), 0);
    assert_eq!(tokenize("").len(), 0);
}

#[test]
fn trim_removes_surrounding_whitespace() {
    assert_eq!(trim_str("  hello world \n"), "hello world");
    assert_eq!(trim_str("   "), "");
    assert_eq!(trim_str("x"), "x");
}

#[test]
fn output_keeps_exits_last() {
    let mut out = Output::new();
    out.say("first");
    out.set_exits("Exits: north");
    out.say("second");
    out.event("third");
    out.title("Hall");
    assert!(matches!(out.blocks.last().unwrap(), OutputBlock::Exits(_)));
    assert_eq!(out.blocks.len(), 5);
    out.set_exits("Exits: south");
    assert_eq!(out.blocks.len(), 5);
    match out.blocks.last().unwrap() {
        OutputBlock::Exits(t) => assert_eq!(t, "Exits: south"),
        _ => panic!("exits must stand last"),
    }
}

#[test]
fn output_drops_blank_segments() {
    let mut out = Output::new();
    out.say("   ");
    out.title("");
    out.event(" \t ");
    out.set_exits("  ");
    assert_eq!(out.blocks.len(), 0);
}

#[test]
fn location_map_updates_and_consumes() {
    let mut locs = LocMap::new();
    locs.set("key", ItemLocation::Room(s("hall")));
    assert!(item_in_room("key", &locs, "hall"));
    assert!(!item_in_room("key", &locs, "yard"));
    locs.set("key", ItemLocation::Inventory);
    assert!(item_in_inventory("key", &locs));
    assert!(!item_in_room("key", &locs, "hall"));
    locs.remove("key");
    assert!(!item_in_inventory("key", &locs));
    assert!(locs.get("key").is_none());
}

#[test]
fn parse_locations_accept_the_four_forms() {
    assert!(matches!(parse_item_location("inventory"), Ok(ItemLocation::Inventory)));
    assert!(matches!(parse_item_location(" INVENTORY "), Ok(ItemLocation::Inventory)));
    match parse_item_location("room: hall ") {
        Ok(ItemLocation::Room(r)) => assert_eq!(r, "hall"),
        _ => panic!("expected a room location"),
    }
    match parse_item_location("item:chest") {
        Ok(ItemLocation::Item(p)) => assert_eq!(p, "chest"),
        _ => panic!("expected an item location"),
    }
    match parse_item_location("npc:guard") {
        Ok(ItemLocation::Npc(n)) => assert_eq!(n, "guard"),
        _ => panic!("expected an npc location"),
    }
}

#[test]
fn parse_locations_reject_bad_forms() {
    match parse_item_location("room: ") {
        Err(m) => assert_eq!(m, "Invalid start_location 'room:': empty room id"),
        _ => panic!("expected an error"),
    }
    match parse_item_location("nowhere") {
        Err(m) => assert_eq!(
            m,
            "Invalid start_location 'nowhere': expected 'room:<id>', 'item:<id>', 'npc:<id>', or 'inventory'",
        ),
        _ => panic!("expected an error"),
    }
}

#[test]
fn names_split_on_pipes() {
    let (primary, aliases) = parse_name_and_aliases("brass key | key |  | shiny key");
    assert_eq!(primary, "brass key");
    assert_eq!(aliases, ss(&["key", "shiny key"]));
    let (primary2, aliases2) = parse_name_and_aliases("  |  ");
    assert_eq!(primary2, "");
    assert!(aliases2.is_empty());
    let (primary3, aliases3) = parse_name_and_aliases("lamp");
    assert_eq!(primary3, "lamp");
    assert!(aliases3.is_empty());
}

#[test]
fn descriptions_normalize_line_breaks() {
    assert_eq!(normalize_multiline_desc("a\nb"), "a b");
    assert_eq!(normalize_multiline_desc("a\n\nb"), "a\nb");
    assert_eq!(normalize_multiline_desc("a\n\n\nb"), "a\n\nb");
    assert_eq!(normalize_multiline_desc("  indented \n  lines "), "indented lines");
    assert_eq!(normalize_multiline_desc(""), "");
    assert_eq!(normalize_multiline_desc("\n\n"), "");
}

#[test]
fn flag_set_membership() {
    let mut flags = FlagSet::new();
    assert!(!flags.contains("a"));
    flags.insert("a");
    flags.insert("a");
    assert!(flags.contains("a"));
    flags.remove("missing");
    assert!(flags.contains("a"));
    let copy = flags.duplicate();
    assert!(copy.contains("a"));
    let diff = flags.sym_diff(&FlagSet::new());
    assert!(diff.contains("a"));
    assert!(!diff.is_empty());
}

#[test]
fn location_views_match_variants() {
    let l = ItemLocation::Item(s("chest"));
    match l {
        ItemLocation::Item(ref p) => assert_eq!(p, "chest"),
        _ => panic!("wrong variant"),
    }
}
