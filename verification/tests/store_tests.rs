use shooting_range::models::Game;
use shooting_range::models::GameTarget;
use shooting_range::models::GameTargetInput;
use shooting_range::models::Target;
use shooting_range::models::game_is_valid;
use shooting_range::models::inputs_are_valid;
use shooting_range::store::GameStore;
use shooting_range::store::TargetTable;
use shooting_range::store::get_game_targets;

fn window(target_id: i32, start_time: i32, end_time: i32) -> GameTargetInput {
    GameTargetInput { target_id, start_time, end_time }
}

#[test]
fn target_crud_round_trip() {
    let mut table = TargetTable::new();
    let a = table.create_target(3, 1500, 1);
    let b = table.create_target(7, 2500, 2);
    assert_ne!(a.id, b.id);
    assert_eq!(table.get_all_targets().len(), 2);

    let updated = table.update_target(b.id.unwrap(), 7, 3000, 4);
    assert!(updated.is_some());
    assert_eq!(updated.unwrap().image_num, 4);
    assert!(table.update_target(9999, 1, 1, 1).is_none());

    assert!(table.delete_target(a.id.unwrap()));
    assert!(!table.delete_target(a.id.unwrap()));
    let rest = table.get_all_targets();
    assert_eq!(rest.len(), 1);
    assert_eq!(rest[0].node_id, 7);
}

#[test]
fn game_create_get_update_delete() {
    let mut store = GameStore::new();
    let created = store.create_game(
        String::from("warmup"),
        60,
        vec![window(1, 0, 10), window(2, 5, 20)],
    );
    assert_eq!(created.name, "warmup");
    assert_eq!(created.windows.len(), 2);

    let fetched = store.get_game(created.id).expect("game stored");
    assert_eq!(fetched.name, "warmup");
    assert_eq!(fetched.total_time, 60);
    assert_eq!(fetched.windows.len(), 2);
    assert!(store.get_game(created.id + 1).is_none());

    // Updating replaces the windows wholesale.
    let updated = store
        .update_game(created.id, String::from("drill"), 90, vec![window(3, 0, 90)])
        .expect("game found");
    assert_eq!(updated.name, "drill");
    assert_eq!(updated.windows.len(), 1);
    let refetched = store.get_game(created.id).expect("still stored");
    assert_eq!(refetched.name, "drill");
    assert_eq!(refetched.windows.len(), 1);
    assert_eq!(refetched.windows[0].target_id, 3);

    // Deleting the game deletes its windows with it.
    assert!(store.delete_game(created.id));
    assert!(store.get_game(created.id).is_none());
    assert!(!store.delete_game(created.id));
    assert_eq!(store.get_all_games().len(), 0);
}

#[test]
fn games_listed_in_name_order() {
    let mut store = GameStore::new();
    let b = store.create_game(String::from("b"), 10, vec![window(1, 0, 5)]);
    let a = store.create_game(String::from("a"), 20, vec![]);
    assert!(b.id < a.id);
    let all = store.get_all_games();
    assert_eq!(all.len(), 2);
    assert_eq!(all[0].name, "a");
    assert_eq!(all[1].name, "b");
}

#[test]
fn targets_listed_in_node_id_order() {
    let mut table = TargetTable::new();
    table.create_target(7, 100, 1);
    table.create_target(3, 200, 2);
    table.create_target(5, 300, 3);
    let all = table.get_all_targets();
    let nodes: Vec<i32> = all.iter().map(|t| t.node_id).collect();
    assert_eq!(nodes, vec![3, 5, 7]);
}

#[test]
fn game_windows_kept_in_start_time_order() {
    let mut store = GameStore::new();
    let created = store.create_game(
        String::from("scramble"),
        60,
        vec![window(1, 20, 30), window(2, 0, 10), window(3, 5, 25)],
    );
    let starts: Vec<i32> = created.windows.iter().map(|w| w.start_time).collect();
    assert_eq!(starts, vec![0, 5, 20]);
    let fetched = store.get_game(created.id).expect("game stored");
    let fetched_starts: Vec<i32> = fetched.windows.iter().map(|w| w.start_time).collect();
    assert_eq!(fetched_starts, vec![0, 5, 20]);

    let updated = store
        .update_game(
            created.id,
            String::from("scramble"),
            60,
            vec![window(4, 50, 60), window(5, 0, 40)],
        )
        .expect("game found");
    let updated_starts: Vec<i32> = updated.windows.iter().map(|w| w.start_time).collect();
    assert_eq!(updated_starts, vec![0, 50]);
}

#[test]
fn game_validity_checks_windows_and_total_time() {
    let target = Target { id: Some(1), node_id: 3, distance: 1500, image_num: 1 };
    let good = Game {
        id: None,
        name: String::from("ok"),
        total_time: 30,
        targets: vec![
            GameTarget { id: None, target, start_time: 0, end_time: 10 },
            GameTarget { id: None, target, start_time: 5, end_time: 30 },
        ],
    };
    assert!(game_is_valid(&good));

    let unordered = Game {
        id: None,
        name: String::from("unordered"),
        total_time: 30,
        targets: vec![
            GameTarget { id: None, target, start_time: 5, end_time: 10 },
            GameTarget { id: None, target, start_time: 0, end_time: 30 },
        ],
    };
    assert!(!game_is_valid(&unordered));

    let too_long = Game {
        id: None,
        name: String::from("late"),
        total_time: 20,
        targets: vec![GameTarget { id: None, target, start_time: 0, end_time: 30 }],
    };
    assert!(!game_is_valid(&too_long));

    let empty_window = Game {
        id: None,
        name: String::from("empty"),
        total_time: 20,
        targets: vec![GameTarget { id: None, target, start_time: 10, end_time: 10 }],
    };
    assert!(!game_is_valid(&empty_window));
}

#[test]
fn game_targets_join_resolves_targets_and_drops_missing() {
    let mut targets = TargetTable::new();
    let a = targets.create_target(3, 100, 1);
    let mut store = GameStore::new();
    let g = store.create_game(
        String::from("joined"),
        60,
        vec![window(a.id.unwrap(), 10, 20), window(9999, 0, 5)],
    );
    let joined = get_game_targets(&store, &targets, g.id).expect("game exists");
    // The window referencing no stored target is dropped; the other is
    // paired with its target, in window (start-offset) order.
    assert_eq!(joined.len(), 1);
    assert_eq!(joined[0].target.node_id, 3);
    assert_eq!(joined[0].start_time, 10);
    assert_eq!(joined[0].end_time, 20);
    assert!(get_game_targets(&store, &targets, g.id + 1).is_none());
}

#[test]
fn image_path_names_the_selected_asset() {
    let t = Target { id: None, node_id: 1, distance: 0, image_num: 12 };
    assert_eq!(t.image_path(), "assets/ShootingTarget_graphics12.png");
    let zero = Target { id: None, node_id: 1, distance: 0, image_num: 0 };
    assert_eq!(zero.image_path(), "assets/ShootingTarget_graphics0.png");
}

#[test]
fn input_validity_checks_each_window() {
    assert!(inputs_are_valid(&vec![window(1, 0, 10), window(2, 5, 20)], 20));
    assert!(!inputs_are_valid(&vec![window(1, -1, 10)], 20));
    assert!(!inputs_are_valid(&vec![window(1, 10, 5)], 20));
    assert!(!inputs_are_valid(&vec![window(1, 0, 25)], 20));
    assert!(inputs_are_valid(&vec![], 0));
}
