// Tests of the world validator and the scored free-text locators.
use domus_engine::flags::FlagSet;
use domus_engine::locmap::NpcMap;
use domus_engine::model::{
    Action, Exit, Item, ItemKind, ItemLocation, Npc, Room, World,
};
use domus_engine::npcs::{find_npc_by_words_scored, NpcMatch};
use domus_engine::validate::validate_world;

fn s(x: &str) -> String {
    String::from(x)
}

fn plain_room(id: &str, exits: Vec<Exit>) -> Room {
    Room {
        id: s(id),
        name: s(id),
        desc: String::new(),
        exits,
        actions: Vec::new(),
        state_descs: Vec::new(),
    }
}

fn plain_item(id: &str, start: ItemLocation) -> Item {
    Item {
        id: s(id),
        name: s(id),
        aliases: Vec::new(),
        room_text: String::new(),
        inventory_text: String::new(),
        examine_text: String::new(),
        conditions: Vec::new(),
        portable: true,
        kind: ItemKind::Simple,
        start_location: start,
    }
}

fn plain_npc(id: &str, name: &str, start_room: &str) -> Npc {
    Npc {
        id: s(id),
        name: s(name),
        aliases: Vec::new(),
        start_room: s(start_room),
        room_text: String::new(),
        examine_text: String::new(),
        conditions: Vec::new(),
        actions: Vec::new(),
        roam: None,
        block_movement: false,
        block_conditions: Vec::new(),
        block_text: None,
        block_exits: Vec::new(),
        foe: false,
        attack_chance_percent: 0,
        attack_text: None,
        attack_effects: Vec::new(),
        dialogue: Vec::new(),
    }
}

fn base_world() -> World {
    World {
        id: s("w"),
        name: s("w"),
        desc: String::new(),
        start_room: s("hall"),
        rooms: vec![plain_room("hall", Vec::new())],
        items: Vec::new(),
        npcs: Vec::new(),
        global_conditions: Vec::new(),
        global_actions: Vec::new(),
    }
}

#[test]
fn sound_world_has_no_findings() {
    let w = base_world();
    assert!(validate_world(&w).is_empty());
}

#[test]
fn missing_start_room_is_reported() {
    let mut w = base_world();
    w.start_room = s("nowhere");
    let errors = validate_world(&w);
    assert!(!errors.is_empty());
    assert!(errors.iter().any(|e| e.message == "start_room 'nowhere' not found among rooms"));
}

#[test]
fn dangling_exit_target_is_reported() {
    let mut w = base_world();
    w.rooms[0].exits.push(Exit {
        direction: s("north"),
        target: s("void"),
        verbs: Vec::new(),
        conditions: Vec::new(),
    });
    let errors = validate_world(&w);
    assert!(errors.iter().any(|e| e.message
        == "room 'hall' exit 'north' targets missing room 'void'"));
}

#[test]
fn item_inside_itself_is_reported() {
    let mut w = base_world();
    w.items.push(plain_item("box", ItemLocation::Item(s("box"))));
    let errors = validate_world(&w);
    assert!(errors.iter().any(|e| e.message == "item 'box' cannot start inside itself"));
}

#[test]
fn action_with_missing_requirement_is_reported() {
    let mut w = base_world();
    w.global_actions.push(Action {
        id: s("use"),
        verbs: vec![s("use")],
        nouns: Vec::new(),
        response: s("ok"),
        effects: Vec::new(),
        conditions: Vec::new(),
        scope_requirements: Vec::new(),
        requires_inventory: vec![s("ghost_item")],
        missing_inventory_text: None,
        missing_scope_text: None,
    });
    let errors = validate_world(&w);
    assert!(errors.iter().any(|e| e.message
        == "global actions action 'use' requires missing item 'ghost_item'"));
}

#[test]
fn npc_locator_resolves_and_reports_ties() {
    let mut w = base_world();
    w.npcs.push(plain_npc("g1", "tall guard", "hall"));
    w.npcs.push(plain_npc("g2", "short guard", "hall"));
    let mut nlocs = NpcMap::new();
    nlocs.set("g1", s("hall"));
    nlocs.set("g2", s("hall"));
    let flags = FlagSet::new();
    match find_npc_by_words_scored(&w, &nlocs, &flags, "hall", "guard") {
        NpcMatch::Ambiguous(v) => assert_eq!(v.len(), 2),
        _ => panic!("a bare 'guard' must be ambiguous"),
    }
    match find_npc_by_words_scored(&w, &nlocs, &flags, "hall", "tall guard") {
        NpcMatch::Unique(i) => assert_eq!(w.npcs[i].id, "g1"),
        _ => panic!("'tall guard' must resolve uniquely"),
    }
    match find_npc_by_words_scored(&w, &nlocs, &flags, "hall", "dragon") {
        NpcMatch::NoMatch => {},
        _ => panic!("an unknown name must not match"),
    }
}
