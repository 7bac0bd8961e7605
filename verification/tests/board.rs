use evolvim::board::{Board, Phase, SelectedCreature, TIME_UNITS_PER_YEAR};
use evolvim::softbody::SoftBody;
use evolvim::terrain::tile::Tile;
use evolvim::terrain::Terrain;

/// Land all over, with half a unit of food on every tile.
fn ground(width: usize, height: usize) -> Terrain {
    let tiles = (0..width).map(|_| (0..height).map(|_| Tile::new(500_000, 0)).collect()).collect();
    Terrain::new(tiles, (width, height)).unwrap()
}

/// A board with the given creatures on land all over.
fn board_with(width: usize, height: usize, creatures: Vec<SoftBody>, year: u64) -> Option<Board> {
    Board::new(width, height, ground(width, height), 0, creatures, 10, year, SelectedCreature(None))
}

/// Runs one whole tick: nobody dies, nobody is born, everybody stays.
fn quiet_tick(board: &mut Board, time_step: u64) {
    board.update(time_step, 0, 0);
    board.update_creatures(&vec![0; board.get_population_size()]);
    let dead = vec![false; board.get_population_size()];
    let biomass = vec![0; board.get_population_size()];
    board.remove_dead_creatures(&dead, &biomass);
    let eligible = vec![false; board.get_population_size()];
    board.creatures_reproduce(&eligible);
    board.maintain_creature_minimum();
    let targets: Vec<(usize, usize)> =
        board.get_creatures().iter().map(|c| c.position).collect();
    board.move_creatures(&targets);
}

/// Checks that every creature is held by the index under its own cell and
/// under no other, and that the index holds nobody else.
fn assert_index_agrees(board: &Board) {
    let (width, height) = board.get_board_size();
    let index = board.get_soft_bodies_in_positions();
    let mut held = 0;
    for x in 0..width {
        for y in 0..height {
            for id in index.get_soft_bodies_at(x, y) {
                held += 1;
                let creature = board
                    .get_creatures()
                    .iter()
                    .find(|c| c.id == *id)
                    .expect("the index holds a creature that is not alive");
                assert_eq!(creature.position, (x, y));
            }
        }
    }
    assert_eq!(held, board.get_population_size());
    for creature in board.get_creatures() {
        let (x, y) = creature.position;
        assert!(index.get_soft_bodies_at(x, y).contains(&creature.id));
        assert_eq!(creature.previous_cell, Some(creature.position));
    }
}

#[test]
fn selection_starts_empty() {
    assert_eq!(SelectedCreature::default().0, None);
}

#[test]
fn select_then_deselect() {
    let mut selection = SelectedCreature::default();
    selection.select(4);
    assert_eq!(selection.0, Some(4));
    selection.select(9);
    assert_eq!(selection.0, Some(9));
    selection.deselect();
    assert_eq!(selection.0, None);
}

#[test]
fn unselect_if_dead_clears_only_the_dead_one() {
    let mut selection = SelectedCreature(Some(3));
    selection.unselect_if_dead(5);
    assert_eq!(selection.0, Some(3));
    selection.unselect_if_dead(3);
    assert_eq!(selection.0, None);
    selection.unselect_if_dead(3);
    assert_eq!(selection.0, None);
}

#[test]
fn new_random_fills_the_board_to_its_minimum() {
    let board = Board::new_random(ground(50, 50), 10);
    assert_eq!(board.get_population_size(), 10);
    assert_eq!(board.get_creature_minimum(), 10);
    assert_eq!(board.get_creature_id_up_to(), 10);
    assert_eq!(board.get_board_size(), (50, 50));
    assert_eq!(board.get_board_width(), 50);
    assert_eq!(board.get_board_height(), 50);
    assert_eq!(board.get_time(), 0);
    assert_eq!(board.get_phase(), Phase::Idle);
    assert_eq!(board.selected_creature.0, None);
    for (k, creature) in board.get_creatures().iter().enumerate() {
        assert_eq!(creature.id, k);
        assert_eq!(creature.birth_time, 0);
        assert!(creature.position.0 < 50 && creature.position.1 < 50);
    }
    assert_index_agrees(&board);
}

#[test]
fn new_random_on_an_empty_board_without_creatures() {
    let board = Board::new_random(ground(0, 0), 0);
    assert_eq!(board.get_board_size(), (0, 0));
    assert_eq!(board.get_population_size(), 0);
    assert_eq!(board.get_creature_id_up_to(), 0);
}

#[test]
fn new_random_spreads_the_creatures() {
    let board = Board::new_random(ground(1000, 1000), 64);
    let first = board.get_creatures()[0].position;
    assert!(board.get_creatures().iter().any(|c| c.position != first));
}

#[test]
fn update_moves_the_clock() {
    let mut board = Board::new_random(ground(5, 5), 2);
    board.update(10_000, 0, 0);
    assert_eq!(board.get_time(), 10_000);
    assert_eq!(board.get_phase(), Phase::Acting);
    assert_eq!(board.get_population_size(), 2);
}

#[test]
fn a_tick_runs_through_all_phases() {
    let mut board = Board::new_random(ground(5, 5), 2);
    assert_eq!(board.get_phase(), Phase::Idle);
    board.update(1, 0, 0);
    assert_eq!(board.get_phase(), Phase::Acting);
    board.update_creatures(&vec![0, 0]);
    assert_eq!(board.get_phase(), Phase::Culling);
    board.remove_dead_creatures(&vec![false, false], &vec![0; 2]);
    assert_eq!(board.get_phase(), Phase::Reproducing);
    board.creatures_reproduce(&vec![false; 2]);
    assert_eq!(board.get_phase(), Phase::Refilling);
    board.maintain_creature_minimum();
    assert_eq!(board.get_phase(), Phase::Moving);
    board.move_creatures(&vec![(0, 0), (4, 4)]);
    assert_eq!(board.get_phase(), Phase::Idle);
}

#[test]
fn remove_dead_creatures_keeps_the_survivors_in_order() {
    let mut board = Board::new_random(ground(8, 8), 5);
    let before: Vec<SoftBody> = board.get_creatures().clone();
    board.update(1, 0, 0);
    board.update_creatures(&vec![0; board.get_population_size()]);
    let removed = board.remove_dead_creatures(&vec![false, true, false, true, true], &vec![0; 5]);
    let removed_ids: Vec<usize> = removed.iter().map(|c| c.id).collect();
    let kept_ids: Vec<usize> = board.get_creatures().iter().map(|c| c.id).collect();
    assert_eq!(removed_ids, vec![1, 3, 4]);
    assert_eq!(kept_ids, vec![0, 2]);
    assert_eq!(removed[0].position, before[1].position);
    assert_eq!(board.get_creature_id_up_to(), 5);
    assert_index_agrees(&board);
}

#[test]
fn remove_dead_creatures_clears_a_dead_selection() {
    let mut board = Board::new_random(ground(8, 8), 3);
    board.selected_creature.select(1);
    board.update(1, 0, 0);
    board.update_creatures(&vec![0; board.get_population_size()]);
    board.remove_dead_creatures(&vec![false, true, false], &vec![0; 3]);
    assert_eq!(board.selected_creature.0, None);
}

#[test]
fn remove_dead_creatures_keeps_a_living_selection() {
    let mut board = Board::new_random(ground(8, 8), 3);
    board.selected_creature.select(2);
    board.update(1, 0, 0);
    board.update_creatures(&vec![0; board.get_population_size()]);
    board.remove_dead_creatures(&vec![true, true, false], &vec![0; 3]);
    assert_eq!(board.selected_creature.0, Some(2));
}

#[test]
fn creatures_reproduce_appends_the_children() {
    let creatures = vec![
        SoftBody::new(3, 0, (1, 2)),
        SoftBody::new(8, 0, (7, 0)),
        SoftBody::new(5, 0, (2, 3)),
        SoftBody::new(1, 0, (1, 2)),
        SoftBody::new(0, 0, (5, 5)),
    ];
    let mut board = board_with(8, 8, creatures, 0).unwrap();
    board.update(250, 0, 0);
    board.update_creatures(&vec![0; board.get_population_size()]);
    board.remove_dead_creatures(&vec![false; 5], &vec![0; 5]);
    let born = board.creatures_reproduce(&vec![true, true, true, false, true]);
    // The first has the third as its only eligible neighbour, and the third
    // the first; the others stand alone.
    assert_eq!(born.len(), 2);
    assert_eq!(born[0].baby.id, 10);
    assert_eq!(born[0].baby.position, (1, 2));
    assert_eq!(born[0].baby.birth_time, 250);
    assert_eq!((born[0].parent, born[0].mate), (3, 5));
    assert_eq!(born[1].baby.id, 11);
    assert_eq!(born[1].baby.position, (2, 3));
    assert_eq!((born[1].parent, born[1].mate), (5, 3));
    assert_eq!(board.get_population_size(), 7);
    assert_eq!(board.get_creature_id_up_to(), 12);
    let ids: Vec<usize> = board.get_creatures().iter().map(|c| c.id).collect();
    assert_eq!(ids, vec![3, 8, 5, 1, 0, 10, 11]);
    assert_index_agrees(&board);
}

#[test]
fn creatures_reproduce_needs_an_eligible_parent_and_an_eligible_mate() {
    let creatures = vec![
        SoftBody::new(0, 0, (1, 1)),
        SoftBody::new(1, 0, (1, 1)),
        SoftBody::new(2, 0, (1, 2)),
    ];
    let born_with = |eligible: Vec<bool>| {
        let mut board = board_with(4, 4, creatures.clone(), 0).unwrap();
        board.update(1, 0, 0);
        board.update_creatures(&vec![0; board.get_population_size()]);
        board.remove_dead_creatures(&vec![false; 3], &vec![0; 3]);
        let born = board.creatures_reproduce(&eligible);
        born.iter().map(|b| (b.parent, b.mate)).collect::<Vec<(usize, usize)>>()
    };
    assert_eq!(born_with(vec![false, false, false]), vec![]);
    assert_eq!(born_with(vec![true, false, false]), vec![]);
    assert_eq!(born_with(vec![true, false, true]), vec![(0, 2), (2, 0)]);
    assert_eq!(born_with(vec![true, true, true]), vec![(0, 1), (1, 0), (2, 0)]);
    assert_eq!(born_with(vec![false, true, true]), vec![(1, 2), (2, 1)]);
}

#[test]
fn maintain_creature_minimum_tops_up_and_removes_nobody() {
    let mut board = Board::new_random(ground(8, 8), 4);
    board.update(77, 0, 0);
    board.update_creatures(&vec![0; board.get_population_size()]);
    board.remove_dead_creatures(&vec![true, false, true, true], &vec![0; 4]);
    board.creatures_reproduce(&vec![false; 1]);
    let spawned = board.maintain_creature_minimum();
    assert_eq!(spawned.len(), 3);
    assert_eq!(board.get_population_size(), 4);
    let ids: Vec<usize> = board.get_creatures().iter().map(|c| c.id).collect();
    assert_eq!(ids, vec![1, 4, 5, 6]);
    for creature in &spawned {
        assert_eq!(creature.birth_time, 77);
    }
    assert_eq!(board.get_creature_id_up_to(), 7);
    assert_index_agrees(&board);
}

#[test]
fn maintain_creature_minimum_leaves_a_large_population_alone() {
    let creatures = vec![SoftBody::new(0, 0, (1, 1)), SoftBody::new(1, 0, (1, 1))];
    let mut board =
        Board::new(4, 4, ground(4, 4), 2, creatures, 2, 0, SelectedCreature(None)).unwrap();
    board.update(1, 0, 0);
    board.update_creatures(&vec![0; board.get_population_size()]);
    board.remove_dead_creatures(&vec![false, false], &vec![0; 2]);
    assert_eq!(board.creatures_reproduce(&vec![true, true]).len(), 2);
    let spawned = board.maintain_creature_minimum();
    assert!(spawned.is_empty());
    assert_eq!(board.get_population_size(), 4);
}

#[test]
fn move_creatures_brings_the_index_up_to_date() {
    let mut board = Board::new_random(ground(8, 8), 3);
    board.update(1, 0, 0);
    board.update_creatures(&vec![0; board.get_population_size()]);
    board.remove_dead_creatures(&vec![false, false, false], &vec![0; 3]);
    board.creatures_reproduce(&vec![false; 3]);
    board.maintain_creature_minimum();
    board.move_creatures(&vec![(0, 0), (0, 0), (7, 7)]);
    let positions: Vec<(usize, usize)> =
        board.get_creatures().iter().map(|c| c.position).collect();
    assert_eq!(positions, vec![(0, 0), (0, 0), (7, 7)]);
    let index = board.get_soft_bodies_in_positions();
    let mut corner = index.get_soft_bodies_at(0, 0).clone();
    corner.sort();
    assert_eq!(corner, vec![0, 1]);
    assert_eq!(index.get_soft_bodies_at(7, 7), &vec![2]);
    assert_index_agrees(&board);
}

#[test]
fn select_oldest_takes_the_first_of_the_earliest() {
    let creatures = vec![
        SoftBody::new(7, 30, (0, 0)),
        SoftBody::new(2, 10, (1, 1)),
        SoftBody::new(5, 10, (2, 2)),
        SoftBody::new(1, 20, (0, 0)),
    ];
    let mut board = board_with(3, 3, creatures, 40).unwrap();
    board.select_oldest();
    assert_eq!(board.selected_creature.0, Some(2));
}

#[test]
fn select_biggest_takes_the_first_of_the_largest() {
    let creatures = vec![
        SoftBody::new(7, 30, (0, 0)),
        SoftBody::new(2, 10, (1, 1)),
        SoftBody::new(5, 10, (2, 2)),
    ];
    let mut board = board_with(3, 3, creatures, 40).unwrap();
    board.select_biggest(&vec![5, 9, 9]);
    assert_eq!(board.selected_creature.0, Some(2));
    board.select_biggest(&vec![10, 9, 9]);
    assert_eq!(board.selected_creature.0, Some(7));
}

#[test]
fn selecting_from_an_empty_population_changes_nothing() {
    let mut board = Board::new_random(ground(4, 4), 0);
    board.selected_creature.select(12);
    board.select_oldest();
    assert_eq!(board.selected_creature.0, Some(12));
    board.select_biggest(&vec![]);
    assert_eq!(board.selected_creature.0, Some(12));
}

#[test]
fn get_season_follows_the_quarters() {
    let at = |year: u64| {
        board_with(1, 1, vec![], year).unwrap().get_season()
    };
    assert_eq!(at(0), "Winter");
    assert_eq!(at(260_000), "Spring");
    assert_eq!(at(500_000), "Summer");
    assert_eq!(at(760_000), "Autumn");
    assert_eq!(at(1_000_000), "Winter");
}

#[test]
fn get_season_at_the_edges_of_the_quarters() {
    let at = |year: u64| {
        board_with(1, 1, vec![], year).unwrap().get_season()
    };
    assert_eq!(at(249_999), "Winter");
    assert_eq!(at(250_000), "Spring");
    assert_eq!(at(499_999), "Spring");
    assert_eq!(at(749_999), "Summer");
    assert_eq!(at(750_000), "Autumn");
    assert_eq!(at(999_999), "Autumn");
    assert_eq!(at(7 * TIME_UNITS_PER_YEAR + 500_000), "Summer");
}

#[test]
fn new_restores_a_board_and_builds_its_index() {
    let creatures = vec![SoftBody::new(4, 3, (1, 0)), SoftBody::new(0, 9, (1, 0))];
    let board =
        Board::new(2, 2, ground(2, 2), 5, creatures, 6, 9, SelectedCreature(Some(4))).unwrap();
    assert_eq!(board.get_population_size(), 2);
    assert_eq!(board.get_creature_minimum(), 5);
    assert_eq!(board.get_creature_id_up_to(), 6);
    assert_eq!(board.get_time(), 9);
    assert_eq!(board.selected_creature.0, Some(4));
    assert_eq!(board.get_phase(), Phase::Idle);
    assert_index_agrees(&board);
}

#[test]
fn new_refuses_a_creature_off_the_board() {
    let creatures = vec![SoftBody::new(0, 0, (2, 0))];
    assert!(board_with(2, 2, creatures, 0).is_none());
    let creatures = vec![SoftBody::new(0, 0, (0, 2))];
    assert!(board_with(2, 2, creatures, 0).is_none());
}

#[test]
fn new_refuses_an_id_that_is_used_twice() {
    let creatures = vec![SoftBody::new(1, 0, (0, 0)), SoftBody::new(1, 0, (1, 1))];
    assert!(Board::new(2, 2, ground(2, 2), 0, creatures, 5, 0, SelectedCreature(None))
        .is_none());
}

#[test]
fn new_refuses_an_id_beyond_the_counter() {
    let creatures = vec![SoftBody::new(5, 0, (0, 0))];
    assert!(Board::new(2, 2, ground(2, 2), 0, creatures, 5, 0, SelectedCreature(None))
        .is_none());
}

#[test]
fn new_refuses_a_birth_in_the_future() {
    let creatures = vec![SoftBody::new(0, 11, (0, 0))];
    assert!(board_with(2, 2, creatures, 10).is_none());
}

#[test]
fn find_mate_prefers_the_same_cell_then_the_lower_id() {
    let creatures = vec![
        SoftBody::new(9, 0, (2, 2)),
        SoftBody::new(1, 0, (3, 3)),
        SoftBody::new(8, 0, (2, 2)),
        SoftBody::new(4, 0, (2, 2)),
        SoftBody::new(0, 0, (5, 5)),
    ];
    let board = board_with(6, 6, creatures, 0).unwrap();
    let all = vec![true; 5];
    assert_eq!(board.find_mate(0, &all), Some(3));
    assert_eq!(board.find_mate(0, &vec![true, true, true, false, true]), Some(2));
    assert_eq!(board.find_mate(0, &vec![true, true, false, false, true]), Some(1));
    assert_eq!(board.find_mate(0, &vec![true, false, false, false, true]), None);
    assert_eq!(board.find_mate(4, &all), None);
    assert_eq!(board.find_mate(1, &all), Some(3));
}

#[test]
fn holds_knows_the_population() {
    let board = Board::new_random(ground(3, 3), 2);
    assert!(board.holds(0));
    assert!(board.holds(1));
    assert!(!board.holds(2));
}

#[test]
fn population_never_below_minimum_over_many_ticks() {
    let mut board = Board::new_random(ground(50, 50), 10);
    let mut children = 0;
    for tick in 0..100u64 {
        board.update(10_000, 0, 0);
        board.update_creatures(&vec![0; board.get_population_size()]);
        let dead: Vec<bool> = board
            .get_creatures()
            .iter()
            .map(|c| (c.id as u64 + tick) % 3 == 0)
            .collect();
        let survivors = dead.iter().filter(|d| !**d).count();
        board.remove_dead_creatures(&dead, &vec![1_000; dead.len()]);
        assert_eq!(board.get_population_size(), survivors);
        let eligible: Vec<bool> =
            board.get_creatures().iter().map(|c| (c.id as u64 + tick) % 2 == 0).collect();
        let offspring = board.creatures_reproduce(&eligible).len();
        children += offspring;
        board.maintain_creature_minimum();
        assert_eq!(board.get_population_size(), std::cmp::max(10, survivors + offspring));
        let targets: Vec<(usize, usize)> = board
            .get_creatures()
            .iter()
            .map(|c| ((c.position.0 + c.id + 1) % 4, (c.position.1 + tick as usize) % 4))
            .collect();
        board.move_creatures(&targets);
        assert!(board.get_population_size() >= 10);
        assert_index_agrees(&board);
    }
    assert!(children > 0);
    assert_eq!(board.get_time(), TIME_UNITS_PER_YEAR);
    assert_eq!(board.get_season(), "Winter");
}

#[test]
fn a_hundred_quiet_ticks_make_a_year() {
    let mut board = Board::new_random(ground(50, 50), 10);
    for _ in 0..100 {
        quiet_tick(&mut board, 10_000);
        assert!(board.get_population_size() > 0);
    }
    assert_eq!(board.get_time(), 1_000_000);
    assert_eq!(board.get_population_size(), 10);
}

#[test]
fn new_refuses_a_terrain_of_another_size() {
    assert!(Board::new(2, 2, ground(2, 3), 0, vec![], 0, 0, SelectedCreature(None)).is_none());
    assert!(Board::new(2, 2, ground(3, 2), 0, vec![], 0, 0, SelectedCreature(None)).is_none());
    assert!(Board::new(2, 2, ground(2, 2), 0, vec![], 0, 0, SelectedCreature(None)).is_some());
}

#[test]
fn update_tells_when_the_trend_of_the_temperature_turns() {
    let turns = |into: i64, out_of: i64| {
        let mut board = Board::new_random(ground(2, 2), 0);
        board.update(1, into, out_of)
    };
    assert!(turns(5, -3));
    assert!(turns(-1, 1));
    assert!(!turns(5, 3));
    assert!(!turns(-5, -3));
    assert!(!turns(0, -3));
    assert!(!turns(4, 0));
    assert!(!turns(0, 0));
    assert!(turns(i64::MAX, i64::MIN));
    assert!(!turns(i64::MIN, i64::MIN));
}

#[test]
fn the_dead_return_to_the_ground_on_which_they_stood() {
    let creatures = vec![
        SoftBody::new(0, 0, (0, 0)),
        SoftBody::new(1, 0, (1, 1)),
        SoftBody::new(2, 0, (1, 1)),
        SoftBody::new(3, 0, (0, 1)),
    ];
    let mut board = board_with(2, 2, creatures, 0).unwrap();
    board.update(1, 0, 0);
    board.update_creatures(&vec![0; board.get_population_size()]);
    let removed =
        board.remove_dead_creatures(&vec![false, true, true, false], &vec![9, 200, 30, 4_000]);
    assert_eq!(removed.len(), 2);
    let terrain = board.get_terrain();
    assert_eq!(terrain.get_tile_at((1, 1)).get_food_level(), 500_230);
    assert_eq!(terrain.get_tile_at((0, 0)).get_food_level(), 500_000);
    assert_eq!(terrain.get_tile_at((0, 1)).get_food_level(), 500_000);
    assert_eq!(terrain.get_tile_at((1, 0)).get_food_level(), 500_000);
    assert_index_agrees(&board);
}

#[test]
fn the_board_brings_a_tile_up_to_date() {
    let mut board = Board::new_random(ground(3, 3), 2);
    board.update(100, 0, 0);
    board.update_tile_at((1, 1), -1, 500_000);
    let tile = board.get_terrain().get_tile_at((1, 1));
    assert_eq!(tile.get_food_level(), 250_000);
    assert_eq!(tile.get_last_update_time(), 100);
    assert_eq!(board.get_terrain().get_tile_at((2, 1)).get_food_level(), 500_000);
    assert_eq!(board.get_terrain().get_tile_at((2, 1)).get_last_update_time(), 0);
    assert_eq!(board.get_population_size(), 2);
    assert_index_agrees(&board);
}

#[test]
fn the_creatures_eat_in_turn_what_is_left() {
    let creatures = vec![
        SoftBody::new(0, 0, (0, 0)),
        SoftBody::new(1, 0, (1, 1)),
        SoftBody::new(2, 0, (0, 0)),
        SoftBody::new(3, 0, (0, 0)),
        SoftBody::new(4, 0, (1, 0)),
        SoftBody::new(5, 0, (0, 1)),
    ];
    let mut board = board_with(2, 2, creatures, 0).unwrap();
    board.update(1, 0, 0);
    let meals = board.update_creatures(&vec![300_000, 0, 300_000, 300_000, -5, 500_001]);
    assert_eq!(meals, vec![300_000, 0, 200_000, 0, 0, 500_000]);
    let terrain = board.get_terrain();
    assert_eq!(terrain.get_tile_at((0, 0)).get_food_level(), 0);
    assert_eq!(terrain.get_tile_at((1, 1)).get_food_level(), 500_000);
    assert_eq!(terrain.get_tile_at((1, 0)).get_food_level(), 500_000);
    assert_eq!(terrain.get_tile_at((0, 1)).get_food_level(), 0);
    assert_eq!(board.get_phase(), Phase::Culling);
    assert_eq!(board.get_population_size(), 6);
}

#[test]
fn nothing_is_eaten_from_water() {
    let tiles = vec![vec![Tile::Water, Tile::new(100, 0)]];
    let terrain = Terrain::new(tiles, (1, 2)).unwrap();
    let creatures = vec![SoftBody::new(0, 0, (0, 0)), SoftBody::new(1, 0, (0, 1))];
    let mut board = Board::new(1, 2, terrain, 0, creatures, 2, 0, SelectedCreature(None)).unwrap();
    board.update(1, 0, 0);
    assert_eq!(board.update_creatures(&vec![50, 50]), vec![0, 50]);
    assert!(board.get_terrain().get_tile_at((0, 0)).is_water());
    assert_eq!(board.get_terrain().get_tile_at((0, 1)).get_food_level(), 50);
}

/// The growth rate of a climate between the two temperatures at a time, in
/// years: lowest at the turn of the year, highest in the middle of it.
fn growth_rate(min_temp: f64, max_temp: f64, time: f64) -> f64 {
    let range = max_temp - min_temp;
    min_temp + range * 0.5 - range * 0.5 * (time * 2.0 * std::f64::consts::PI).cos()
}

#[test]
fn a_year_of_ticks_under_a_climate() {
    let (min_temp, max_temp) = (-1.0, 1.0);
    let time_step = 0.01;
    let mut board = Board::new_random(ground(50, 50), 10);
    let mut year: f64 = 0.0;
    let mut turns = Vec::new();
    for tick in 1..=100 {
        year += time_step;
        let now = growth_rate(min_temp, max_temp, year);
        let into = now - growth_rate(min_temp, max_temp, year - time_step);
        let out_of = growth_rate(min_temp, max_temp, year + time_step) - now;
        let refresh = board.update(
            (time_step * 1e6_f64).round() as u64,
            (into * 1e6_f64).round() as i64,
            (out_of * 1e6_f64).round() as i64,
        );
        if refresh {
            turns.push(tick);
            for x in 0..50 {
                for y in 0..50 {
                    board.update_tile_at((x, y), 1, 900_000);
                }
            }
        }
        let size = board.get_population_size();
        board.update_creatures(&vec![1_000; size]);
        let dead: Vec<bool> = board.get_creatures().iter().map(|c| c.id % 4 == 0).collect();
        board.remove_dead_creatures(&dead, &vec![250_000; size]);
        let size = board.get_population_size();
        assert_eq!(board.creatures_reproduce(&vec![false; size]).len(), 0);
        board.maintain_creature_minimum();
        let targets: Vec<(usize, usize)> =
            board.get_creatures().iter().map(|c| c.position).collect();
        board.move_creatures(&targets);
        assert!(board.get_population_size() > 0);
        assert_eq!(board.get_population_size(), 10);
        assert_index_agrees(&board);
    }
    assert_eq!(turns, vec![50, 100]);
    assert!((board.get_time() as f64 / 1e6 - 1.0).abs() < 1e-9);
    assert!((year - 1.0).abs() < 1e-9);
    assert_eq!(board.get_time(), TIME_UNITS_PER_YEAR);
    assert_eq!(board.get_season(), "Winter");
}
