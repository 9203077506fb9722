// Tests of room rendering, conditional fragments, container gating, foe
// attacks, and the flag-change re-render decision.
use domus_engine::model::{
    Action, ContainerProps, Exit, GlobalCondition, Item, ItemKind, ItemLocation, Npc, Room,
    StateDesc, World,
};
use domus_engine::output::{Output, OutputBlock};
use domus_engine::state::GameState;

fn s(x: &str) -> String {
    String::from(x)
}

fn ss(xs: &[&str]) -> Vec<String> {
    xs.iter().map(|x| String::from(*x)).collect()
}

fn has_text(out: &Output, wanted: &str) -> bool {
    out.blocks.iter().any(|b| match b {
        OutputBlock::Text(t) => t == wanted,
        _ => false,
    })
}

fn base_room(id: &str, name: &str, desc: &str) -> Room {
    Room {
        id: s(id),
        name: s(name),
        desc: s(desc),
        exits: Vec::new(),
        actions: Vec::new(),
        state_descs: Vec::new(),
    }
}

fn base_world(rooms: Vec<Room>, items: Vec<Item>, npcs: Vec<Npc>) -> World {
    World {
        id: s("w"),
        name: s("w"),
        desc: String::new(),
        start_room: s("hall"),
        rooms,
        items,
        npcs,
        global_conditions: Vec::new(),
        global_actions: Vec::new(),
    }
}

fn act(id: &str, verbs: &[&str], response: &str, effects: &[&str]) -> Action {
    Action {
        id: s(id),
        verbs: ss(verbs),
        nouns: Vec::new(),
        response: s(response),
        effects: ss(effects),
        conditions: Vec::new(),
        scope_requirements: Vec::new(),
        requires_inventory: Vec::new(),
        missing_inventory_text: None,
        missing_scope_text: None,
    }
}

#[test]
fn render_joins_description_fragments() {
    let mut hall = base_room("hall", "Hall", "A dusty hall.");
    hall.state_descs.push(StateDesc {
        conditions: ss(&["lamp_lit"]),
        text: s("Warm light fills the corners."),
    });
    hall.state_descs.push(StateDesc {
        conditions: ss(&["!lamp_lit"]),
        text: s("Shadows crowd the walls."),
    });
    hall.actions.push(act("light", &["light"], "You light the lamp.", &["lamp_lit"]));
    let sword = Item {
        id: s("sword"),
        name: s("sword"),
        aliases: Vec::new(),
        room_text: s("A sword leans here."),
        inventory_text: String::new(),
        examine_text: String::new(),
        conditions: Vec::new(),
        portable: true,
        kind: ItemKind::Simple,
        start_location: ItemLocation::Room(s("hall")),
    };
    let w = base_world(vec![hall], vec![sword], vec![]);
    let mut g = GameState::new(w);
    let out = g.initialize().expect("start room exists");
    assert!(has_text(&out, "A dusty hall. Shadows crowd the walls. A sword leans here."));
    let (out2, _) = g.step("look");
    assert!(has_text(&out2, "A dusty hall. Shadows crowd the walls. A sword leans here."));
    let (_, _) = g.step("light lamp");
    let (out3, _) = g.step("look");
    assert!(has_text(&out3, "A dusty hall. Warm light fills the corners. A sword leans here."));
}

#[test]
fn flag_change_triggers_rerender_only_when_relevant() {
    let mut hall = base_room("hall", "Hall", "A hall.");
    hall.state_descs.push(StateDesc {
        conditions: ss(&["door_open"]),
        text: s("The secret door stands open."),
    });
    hall.actions.push(act("press", &["press"], "Click.", &["lever_pressed"]));
    hall.actions.push(act("hum", &["hum"], "You hum a tune.", &["humming"]));
    let mut w = base_world(vec![hall], vec![], vec![]);
    w.global_conditions.push(GlobalCondition {
        id: s("open_door"),
        conditions: ss(&["lever_pressed", "!door_open"]),
        allowed_rooms: Vec::new(),
        disallowed_rooms: Vec::new(),
        response: String::new(),
        effects: ss(&["door_open"]),
        one_shot: true,
    });
    let mut g = GameState::new(w);
    g.initialize();
    // the global condition fires after the command and changes a flag the
    // room's description depends on: the room is re-described
    let (out, _) = g.step("press lever");
    assert!(has_text(&out, "Click."));
    assert!(has_text(&out, "A hall. The secret door stands open."));
    // a flag change the room does not reference triggers no re-render
    let (out2, _) = g.step("hum");
    assert!(has_text(&out2, "You hum a tune."));
    assert!(!has_text(&out2, "A hall. The secret door stands open."));
}

#[test]
fn closed_container_refuses_interaction() {
    let chest = Item {
        id: s("chest"),
        name: s("chest"),
        aliases: Vec::new(),
        room_text: String::new(),
        inventory_text: String::new(),
        examine_text: String::new(),
        conditions: Vec::new(),
        portable: false,
        kind: ItemKind::Container(ContainerProps {
            capacity: None,
            conditions: ss(&["chest_open"]),
            complete_when: Vec::new(),
            complete_flag: None,
            closed_text: s("The lid will not budge."),
            complete_text: None,
            verbs: ss(&["put"]),
            prep: s("in"),
        }),
        start_location: ItemLocation::Room(s("hall")),
    };
    let pearl = Item {
        id: s("pearl"),
        name: s("pearl"),
        aliases: Vec::new(),
        room_text: String::new(),
        inventory_text: String::new(),
        examine_text: String::new(),
        conditions: Vec::new(),
        portable: true,
        kind: ItemKind::Simple,
        start_location: ItemLocation::Item(s("chest")),
    };
    let w = base_world(vec![base_room("hall", "Hall", "A hall.")], vec![chest, pearl], vec![]);
    let mut g = GameState::new(w);
    g.initialize();
    let (out, _) = g.step("take pearl from chest");
    assert!(has_text(&out, "The lid will not budge."));
    let (out2, _) = g.step("examine chest");
    assert!(has_text(&out2, "The lid will not budge."));
    assert!(!has_text(&out2, "Inside it you see: pearl."));
}

#[test]
fn certain_foe_always_attacks_when_blocking() {
    let guard = Npc {
        id: s("guard"),
        name: s("Guard"),
        aliases: Vec::new(),
        start_room: s("hall"),
        room_text: String::new(),
        examine_text: String::new(),
        conditions: Vec::new(),
        actions: Vec::new(),
        roam: None,
        block_movement: true,
        block_conditions: Vec::new(),
        block_text: Some(s("The guard bars the door.")),
        block_exits: Vec::new(),
        foe: true,
        attack_chance_percent: 100,
        attack_text: Some(s("The guard swings at you!")),
        attack_effects: ss(&["wounded"]),
        dialogue: Vec::new(),
    };
    let mut hall = base_room("hall", "Hall", "A hall.");
    hall.exits.push(Exit {
        direction: s("north"),
        target: s("yard"),
        verbs: Vec::new(),
        conditions: Vec::new(),
    });
    let yard = base_room("yard", "Yard", "A yard.");
    let w = base_world(vec![hall, yard], vec![], vec![guard]);
    let mut g = GameState::new(w);
    g.initialize();
    let (out, _) = g.step("north");
    assert!(has_text(&out, "The guard bars the door."));
    assert!(has_text(&out, "The guard swings at you!"));
    assert!(g.flags.contains("wounded"));
    assert_eq!(g.current_room_id, s("hall"));
}

#[test]
fn examine_prefers_carried_items() {
    let coin_carried = Item {
        id: s("coin"),
        name: s("coin"),
        aliases: Vec::new(),
        room_text: String::new(),
        inventory_text: String::new(),
        examine_text: s("A worn copper coin."),
        conditions: Vec::new(),
        portable: true,
        kind: ItemKind::Simple,
        start_location: ItemLocation::Inventory,
    };
    let w = base_world(vec![base_room("hall", "Hall", "A hall.")], vec![coin_carried], vec![]);
    let mut g = GameState::new(w);
    g.initialize();
    let (out, _) = g.step("examine coin");
    assert!(has_text(&out, "A worn copper coin."));
    let (out2, _) = g.step("look at coin");
    assert!(has_text(&out2, "A worn copper coin."));
}

#[test]
fn ambiguous_take_is_not_resolved_silently() {
    let mk = |id: &str, name: &str| Item {
        id: s(id),
        name: s(name),
        aliases: Vec::new(),
        room_text: String::new(),
        inventory_text: String::new(),
        examine_text: String::new(),
        conditions: Vec::new(),
        portable: true,
        kind: ItemKind::Simple,
        start_location: ItemLocation::Room(s("hall")),
    };
    let w = base_world(
        vec![base_room("hall", "Hall", "A hall.")],
        vec![mk("k1", "rusty key"), mk("k2", "shiny key")],
        vec![],
    );
    let mut g = GameState::new(w);
    g.initialize();
    let (out, _) = g.step("take key");
    assert!(has_text(&out, "Be more specific."));
    let (out2, _) = g.step("take rusty key");
    assert!(has_text(&out2, "You take the rusty key."));
}
