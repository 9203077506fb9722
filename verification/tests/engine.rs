// Scenario tests: whole commands against small worlds, checked through the
// public step pipeline.
use domus_engine::model::{
    Action, ContainerProps, Exit, GlobalCondition, Item, ItemKind, ItemLocation, Npc, Room, World,
};
use domus_engine::output::{Output, OutputBlock};
use domus_engine::rand::{deterministic_index, stable_roll_percent};
use domus_engine::state::GameState;

fn s(x: &str) -> String {
    String::from(x)
}

fn ss(xs: &[&str]) -> Vec<String> {
    xs.iter().map(|x| String::from(*x)).collect()
}

fn action(id: &str, verbs: &[&str], response: &str, effects: &[&str]) -> Action {
    Action {
        id: s(id),
        verbs: ss(verbs),
        nouns: Vec::new(),
        response: s(response),
        effects: ss(effects),
        conditions: Vec::new(),
        scope_requirements: Vec::new(),
        requires_inventory: Vec::new(),
        missing_inventory_text: None,
        missing_scope_text: None,
    }
}

fn room(id: &str, name: &str, desc: &str, exits: Vec<Exit>, actions: Vec<Action>) -> Room {
    Room {
        id: s(id),
        name: s(name),
        desc: s(desc),
        exits,
        actions,
        state_descs: Vec::new(),
    }
}

fn exit(direction: &str, target: &str) -> Exit {
    Exit {
        direction: s(direction),
        target: s(target),
        verbs: Vec::new(),
        conditions: Vec::new(),
    }
}

fn item(id: &str, name: &str, portable: bool, start: ItemLocation) -> Item {
    Item {
        id: s(id),
        name: s(name),
        aliases: Vec::new(),
        room_text: String::new(),
        inventory_text: String::new(),
        examine_text: String::new(),
        conditions: Vec::new(),
        portable,
        kind: ItemKind::Simple,
        start_location: start,
    }
}

fn container(
    id: &str,
    name: &str,
    capacity: Option<usize>,
    complete_when: &[&str],
    complete_flag: Option<&str>,
    complete_text: Option<&str>,
    start: ItemLocation,
) -> Item {
    Item {
        id: s(id),
        name: s(name),
        aliases: Vec::new(),
        room_text: String::new(),
        inventory_text: String::new(),
        examine_text: String::new(),
        conditions: Vec::new(),
        portable: false,
        kind: ItemKind::Container(ContainerProps {
            capacity,
            conditions: Vec::new(),
            complete_when: ss(complete_when),
            complete_flag: complete_flag.map(s),
            closed_text: s("It is currently closed."),
            complete_text: complete_text.map(s),
            verbs: ss(&["put"]),
            prep: s("in"),
        }),
        start_location: start,
    }
}

fn passive_npc(id: &str, name: &str, start_room: &str) -> Npc {
    Npc {
        id: s(id),
        name: s(name),
        aliases: Vec::new(),
        start_room: s(start_room),
        room_text: String::new(),
        examine_text: String::new(),
        conditions: Vec::new(),
        actions: Vec::new(),
        roam: None,
        block_movement: false,
        block_conditions: Vec::new(),
        block_text: None,
        block_exits: Vec::new(),
        foe: false,
        attack_chance_percent: 0,
        attack_text: None,
        attack_effects: Vec::new(),
        dialogue: Vec::new(),
    }
}

fn world(rooms: Vec<Room>, items: Vec<Item>, npcs: Vec<Npc>) -> World {
    World {
        id: s("w"),
        name: s("Test World"),
        desc: String::new(),
        start_room: s("hall"),
        rooms,
        items,
        npcs,
        global_conditions: Vec::new(),
        global_actions: Vec::new(),
    }
}

fn texts(out: &Output) -> Vec<String> {
    out.blocks
        .iter()
        .map(|b| match b {
            OutputBlock::Title(t) => format!("T:{}", t),
            OutputBlock::Text(t) => format!("S:{}", t),
            OutputBlock::Event(t) => format!("E:{}", t),
            OutputBlock::Exits(t) => format!("X:{}", t),
        })
        .collect()
}

fn has_text(out: &Output, wanted: &str) -> bool {
    out.blocks.iter().any(|b| match b {
        OutputBlock::Text(t) => t == wanted,
        _ => false,
    })
}

fn has_title(out: &Output, wanted: &str) -> bool {
    out.blocks.iter().any(|b| match b {
        OutputBlock::Title(t) => t == wanted,
        _ => false,
    })
}

#[test]
fn guard_blocks_until_condition_cleared() {
    let mut guard = passive_npc("guard", "Guard", "hall");
    guard.block_movement = true;
    guard.block_conditions = ss(&["!bribed"]);
    let w = world(
        vec![
            room(
                "hall",
                "Hall",
                "A hall.",
                vec![exit("north", "yard")],
                vec![action("bribe", &["bribe"], "The guard pockets the coin.", &["bribed"])],
            ),
            room("yard", "Yard", "A yard.", vec![], vec![]),
        ],
        vec![],
        vec![guard],
    );
    let mut g = GameState::new(w);
    g.initialize();
    let (out, quit) = g.step("go north");
    assert!(!quit);
    assert!(has_text(&out, "Guard blocks your way."));
    assert_eq!(g.current_room_id, s("hall"));
    let (out2, _) = g.step("bribe guard");
    assert!(has_text(&out2, "The guard pockets the coin."));
    let (out3, _) = g.step("go north");
    assert!(has_text(&out3, "You go north."));
    assert!(has_title(&out3, "Yard"));
    assert_eq!(g.current_room_id, s("yard"));
}

#[test]
fn take_key_then_take_again() {
    let w = world(
        vec![room("hall", "Hall", "A hall.", vec![], vec![])],
        vec![item("key", "brass key", true, ItemLocation::Room(s("hall")))],
        vec![],
    );
    let mut g = GameState::new(w);
    g.initialize();
    let (out, _) = g.step("take key");
    assert!(has_text(&out, "You take the brass key."));
    let (out2, _) = g.step("take key");
    assert!(has_text(&out2, "You don't see that here."));
    let (inv, _) = g.step("inventory");
    assert!(has_text(&inv, "You are carrying:"));
    assert!(has_text(&inv, "  brass key"));
}

#[test]
fn full_chest_refuses_store() {
    let w = world(
        vec![room("hall", "Hall", "A hall.", vec![], vec![])],
        vec![
            container("chest", "chest", Some(1), &[], None, None, ItemLocation::Room(s("hall"))),
            item("stone", "stone", true, ItemLocation::Item(s("chest"))),
            item("gem", "gem", true, ItemLocation::Inventory),
        ],
        vec![],
    );
    let mut g = GameState::new(w);
    g.initialize();
    let (out, _) = g.step("put gem in chest");
    assert!(has_text(&out, "The chest is full."));
    let (inv, _) = g.step("inventory");
    assert!(has_text(&inv, "  gem"));
}

#[test]
fn store_then_retrieve_round_trips() {
    let w = world(
        vec![room("hall", "Hall", "A hall.", vec![], vec![])],
        vec![
            container("box", "box", None, &[], None, None, ItemLocation::Room(s("hall"))),
            item("key", "key", true, ItemLocation::Inventory),
        ],
        vec![],
    );
    let mut g = GameState::new(w);
    g.initialize();
    let (out, _) = g.step("put key in box");
    assert!(has_text(&out, "You put the key in the box."));
    let (inv, _) = g.step("inventory");
    assert!(has_text(&inv, "You are carrying nothing."));
    let (out2, _) = g.step("take key from box");
    assert!(has_text(&out2, "You take the key from the box."));
    let (inv2, _) = g.step("inventory");
    assert!(has_text(&inv2, "  key"));
}

#[test]
fn completion_fires_exactly_once() {
    let w = world(
        vec![room("hall", "Hall", "A hall.", vec![], vec![])],
        vec![
            container(
                "altar",
                "altar",
                None,
                &["gem"],
                Some("offering_made"),
                Some("A chime sounds."),
                ItemLocation::Room(s("hall")),
            ),
            item("gem", "gem", true, ItemLocation::Inventory),
        ],
        vec![],
    );
    let mut g = GameState::new(w);
    g.initialize();
    let (out, _) = g.step("put gem in altar");
    assert!(has_text(&out, "A chime sounds."));
    let (_, _) = g.step("take gem from altar");
    let (out2, _) = g.step("put gem in altar");
    assert!(has_text(&out2, "You put the gem in the altar."));
    assert!(!has_text(&out2, "A chime sounds."));
}

#[test]
fn rolls_are_deterministic() {
    assert_eq!(stable_roll_percent(7, "guard"), stable_roll_percent(7, "guard"));
    assert_eq!(deterministic_index(3, "rat", 5), deterministic_index(3, "rat", 5));
    assert!(stable_roll_percent(7, "guard") < 100);
    assert!(deterministic_index(3, "rat", 5) < 5);
    assert_eq!(deterministic_index(3, "rat", 0), 0);
}

fn replay_world() -> World {
    let mut rat = passive_npc("rat", "rat", "hall");
    rat.roam = Some(domus_engine::model::NpcRoam {
        enabled: true,
        allowed_rooms: ss(&["hall", "yard"]),
        chance_percent: 60,
    });
    let mut guard = passive_npc("guard", "Guard", "yard");
    guard.block_movement = true;
    guard.foe = true;
    guard.attack_chance_percent = 50;
    guard.attack_effects = ss(&["hurt"]);
    world(
        vec![
            room(
                "hall",
                "Hall",
                "A hall.",
                vec![exit("north", "yard"), exit("south", "cellar")],
                vec![action("wave", &["wave"], "You wave.", &[])],
            ),
            room("yard", "Yard", "A yard.", vec![exit("south", "hall")], vec![]),
            room("cellar", "Cellar", "A cellar.", vec![exit("north", "hall")], vec![]),
        ],
        vec![item("key", "key", true, ItemLocation::Room(s("hall")))],
        vec![rat, guard],
    )
}

#[test]
fn replay_is_byte_identical() {
    let commands = ["look", "take key", "south", "wave", "north", "north", "inventory"];
    let mut g1 = GameState::new(replay_world());
    g1.initialize();
    let mut g2 = GameState::new(replay_world());
    g2.initialize();
    for cmd in commands.iter() {
        let (o1, q1) = g1.step(cmd);
        let (o2, q2) = g2.step(cmd);
        assert_eq!(q1, q2);
        assert_eq!(format!("{:?}", o1.blocks), format!("{:?}", o2.blocks));
    }
    assert_eq!(g1.current_room_id, g2.current_room_id);
    assert_eq!(g1.turn_index, g2.turn_index);
    assert_eq!(g1.action_index, g2.action_index);
}

#[test]
fn tied_actions_report_ambiguity() {
    let w = world(
        vec![room(
            "hall",
            "Hall",
            "A hall.",
            vec![],
            vec![
                action("wave1", &["wave"], "You wave left.", &[]),
                action("wave2", &["wave"], "You wave right.", &[]),
            ],
        )],
        vec![],
        vec![],
    );
    let mut g = GameState::new(w);
    g.initialize();
    let (out, _) = g.step("wave");
    assert!(has_text(&out, "Be more specific."));
    assert!(!has_text(&out, "You wave left."));
    assert!(!has_text(&out, "You wave right."));
}

#[test]
fn two_letter_token_never_abbreviates() {
    let w = world(
        vec![
            room("hall", "Hall", "A hall.", vec![exit("south", "cellar")], vec![]),
            room("cellar", "Cellar", "A cellar.", vec![exit("north", "hall")], vec![]),
        ],
        vec![],
        vec![],
    );
    let mut g = GameState::new(w);
    g.initialize();
    let (out, _) = g.step("so");
    assert!(has_text(&out, "I don't understand that command."));
    assert_eq!(g.current_room_id, s("hall"));
    let (out2, _) = g.step("s");
    assert!(has_text(&out2, "You go south."));
    assert_eq!(g.current_room_id, s("cellar"));
}

#[test]
fn movement_ambiguity_lists_directions() {
    let w = world(
        vec![
            room(
                "hall",
                "Hall",
                "A hall.",
                vec![exit("north", "yard"), exit("nave", "cellar")],
                vec![],
            ),
            room("yard", "Yard", "A yard.", vec![], vec![]),
            room("cellar", "Cellar", "A cellar.", vec![], vec![]),
        ],
        vec![],
        vec![],
    );
    let mut g = GameState::new(w);
    g.initialize();
    let (out, _) = g.step("n");
    assert!(has_text(&out, "That direction is ambiguous here. Did you mean: north, nave?"));
    assert_eq!(g.current_room_id, s("hall"));
}

#[test]
fn quit_ends_session() {
    let w = world(vec![room("hall", "Hall", "A hall.", vec![], vec![])], vec![], vec![]);
    let mut g = GameState::new(w);
    g.initialize();
    let (out, quit) = g.step("quit");
    assert!(quit);
    assert!(has_text(&out, "Goodbye."));
}

#[test]
fn unknown_command_is_reported() {
    let w = world(vec![room("hall", "Hall", "A hall.", vec![], vec![])], vec![], vec![]);
    let mut g = GameState::new(w);
    g.initialize();
    let (out, quit) = g.step("xyzzy plugh");
    assert!(!quit);
    assert!(has_text(&out, "I don't understand that command."));
}

#[test]
fn exits_block_is_sorted_and_last() {
    let w = world(
        vec![
            room(
                "hall",
                "Hall",
                "A hall.",
                vec![exit("west", "yard"), exit("east", "yard"), exit("east", "yard")],
                vec![],
            ),
            room("yard", "Yard", "A yard.", vec![], vec![]),
        ],
        vec![],
        vec![],
    );
    let mut g = GameState::new(w);
    let out = g.initialize().expect("start room exists");
    let ts = texts(&out);
    assert_eq!(ts.last().unwrap(), "X:Exits: east, west");
}

#[test]
fn global_condition_fires_once_per_flag() {
    let mut w = world(
        vec![room(
            "hall",
            "Hall",
            "A hall.",
            vec![],
            vec![action("pull", &["pull"], "You pull the lever.", &["lever_pulled"])],
        )],
        vec![],
        vec![],
    );
    w.global_conditions.push(GlobalCondition {
        id: s("rumble"),
        conditions: ss(&["lever_pulled"]),
        allowed_rooms: Vec::new(),
        disallowed_rooms: Vec::new(),
        response: s("The ground rumbles."),
        effects: Vec::new(),
        one_shot: true,
    });
    let mut g = GameState::new(w);
    g.initialize();
    let (out, _) = g.step("pull lever");
    assert!(out.blocks.iter().any(|b| matches!(b, OutputBlock::Event(t) if t == "The ground rumbles.")));
    let (out2, _) = g.step("pull lever");
    assert!(!out2.blocks.iter().any(|b| matches!(b, OutputBlock::Event(t) if t == "The ground rumbles.")));
}

#[test]
fn talk_fires_first_ready_dialogue_once() {
    let mut sage = passive_npc("sage", "Sage", "hall");
    sage.dialogue.push(domus_engine::model::NpcDialogue {
        id: s("hello"),
        conditions: Vec::new(),
        response: s("Welcome, traveler."),
        effects: ss(&["greeted"]),
        one_shot: true,
    });
    sage.dialogue.push(domus_engine::model::NpcDialogue {
        id: s("more"),
        conditions: Vec::new(),
        response: s("Go on, then."),
        effects: Vec::new(),
        one_shot: false,
    });
    let w = world(vec![room("hall", "Hall", "A hall.", vec![], vec![])], vec![], vec![sage]);
    let mut g = GameState::new(w);
    g.initialize();
    let (out, _) = g.step("talk to sage");
    assert!(has_text(&out, "Welcome, traveler."));
    let (out2, _) = g.step("talk to sage");
    assert!(has_text(&out2, "Go on, then."));
    let (out3, _) = g.step("talk to nobody");
    assert!(!has_text(&out3, "Go on, then."));
}

#[test]
fn drop_and_take_all() {
    let w = world(
        vec![room("hall", "Hall", "A hall.", vec![], vec![])],
        vec![
            item("key", "key", true, ItemLocation::Inventory),
            item("coin", "coin", true, ItemLocation::Inventory),
            item("rock", "rock", false, ItemLocation::Room(s("hall"))),
        ],
        vec![],
    );
    let mut g = GameState::new(w);
    g.initialize();
    let (out, _) = g.step("drop all");
    assert!(has_text(&out, "You drop the key."));
    assert!(has_text(&out, "You drop the coin."));
    let (out2, _) = g.step("take all");
    assert!(has_text(&out2, "You take the key."));
    assert!(has_text(&out2, "You take the coin."));
    assert!(!has_text(&out2, "You take the rock."));
}

#[test]
fn examine_container_lists_contents() {
    let w = world(
        vec![room("hall", "Hall", "A hall.", vec![], vec![])],
        vec![
            container("box", "box", None, &[], None, None, ItemLocation::Room(s("hall"))),
            item("pearl", "pearl", true, ItemLocation::Item(s("box"))),
            item("coin", "coin", true, ItemLocation::Item(s("box"))),
        ],
        vec![],
    );
    let mut g = GameState::new(w);
    g.initialize();
    let (out, _) = g.step("examine box");
    assert!(has_text(&out, "You see nothing special about the box."));
    assert!(has_text(&out, "Inside it you see: coin, pearl."));
}

#[test]
fn missing_inventory_report_outranks_condition_report() {
    // a condition-blocked action with the higher score must not steal the
    // report from a missing-inventory candidate: reason priority comes
    // before score
    let mut a_inv = action("rub_lamp", &["rub"], "The genie appears.", &[]);
    a_inv.requires_inventory = ss(&["lamp"]);
    let mut a_cond = action("rub_ring", &["rub"], "The ring glows.", &[]);
    a_cond.nouns = ss(&["lamp"]);
    a_cond.conditions = ss(&["ring_charged"]);
    let w = world(
        vec![room("hall", "Hall", "A hall.", vec![], vec![a_inv, a_cond])],
        vec![item("lamp", "lamp", true, ItemLocation::Room(s("hall")))],
        vec![],
    );
    let mut g = GameState::new(w);
    g.initialize();
    let (out, _) = g.step("rub lamp");
    assert!(has_text(&out, "You need the lamp."));
    assert!(!has_text(&out, "You can't do that right now."));
}

#[test]
fn missing_scope_report_outranks_condition_report() {
    // with inventory satisfied on both sides, a missing-scope candidate
    // outranks a higher-scoring condition-blocked candidate
    let mut a_scope = action("polish", &["polish"], "The statue gleams.", &[]);
    a_scope.scope_requirements = ss(&["statue"]);
    let mut a_cond = action("chant", &["polish"], "The air hums.", &[]);
    a_cond.nouns = ss(&["statue"]);
    a_cond.conditions = ss(&["moon_up"]);
    let w = world(
        vec![room("hall", "Hall", "A hall.", vec![], vec![a_scope, a_cond])],
        vec![item("statue", "statue", false, ItemLocation::Room(s("yard")))],
        vec![],
    );
    let mut g = GameState::new(w);
    g.initialize();
    let (out, _) = g.step("polish statue");
    assert!(has_text(&out, "You don't see the statue here."));
    assert!(!has_text(&out, "You can't do that right now."));
}

#[test]
fn npc_action_consumes_payment() {
    let mut merchant = passive_npc("merchant", "Merchant", "hall");
    let mut buy = action("buy", &["buy"], "The merchant hands you a map.", &["has_map"]);
    buy.requires_inventory = ss(&["coin"]);
    merchant.actions.push(buy);
    let w = world(
        vec![room("hall", "Hall", "A hall.", vec![], vec![])],
        vec![item("coin", "coin", true, ItemLocation::Inventory)],
        vec![merchant],
    );
    let mut g = GameState::new(w);
    g.initialize();
    let (out, _) = g.step("buy from merchant");
    assert!(has_text(&out, "The merchant hands you a map."));
    let (inv, _) = g.step("inventory");
    assert!(has_text(&inv, "You are carrying nothing."));
    let (out2, _) = g.step("buy from merchant");
    assert!(has_text(&out2, "You need the coin."));
}
