use evolvim::terrain::tile::{LandTile, Tile, MAX_GROWTH_LEVEL, QUANTITY_UNIT};
use evolvim::terrain::Terrain;

#[test]
fn tile_new_is_water_above_a_fertility_of_one() {
    assert!(Tile::new(QUANTITY_UNIT + 1, 0).is_water());
    assert!(!Tile::new(QUANTITY_UNIT, 0).is_water());
    assert!(!Tile::new(-5, 0).is_water());
}

#[test]
fn tile_new_starts_with_food_equal_to_fertility() {
    let tile = Tile::new(400_000, 250_000);
    assert_eq!(tile.get_fertility(), 400_000);
    assert_eq!(tile.get_food_level(), 400_000);
    assert_eq!(tile.get_food_type(), 250_000);
    assert_eq!(tile.get_last_update_time(), 0);
    let barren = Tile::new(-300, 1);
    assert_eq!(barren.get_fertility(), 0);
    assert_eq!(barren.get_food_level(), 0);
}

#[test]
fn water_has_nothing() {
    let mut water = Tile::new(2_000_000, 700_000);
    assert_eq!(water.get_food_level(), 0);
    assert_eq!(water.get_fertility(), 0);
    assert_eq!(water.get_food_type(), 0);
    assert_eq!(water.get_food_multiplier(5), None);
    water.add_food_or_nothing(500);
    assert_eq!(water.get_food_level(), 0);
    water.remove_food(0);
    water.remove_food(-3);
    water.update(100, 5, 500_000);
    assert!(water.is_water());
    assert_eq!(water.get_food_level(), 0);
}

#[test]
fn remove_food_never_goes_below_zero() {
    let mut tile = Tile::new(400_000, 0);
    tile.remove_food(100_000);
    assert_eq!(tile.get_food_level(), 300_000);
    tile.remove_food(300_001);
    assert_eq!(tile.get_food_level(), 0);
    tile.remove_food(i64::MAX);
    assert_eq!(tile.get_food_level(), 0);
    tile.remove_food(-7);
    assert_eq!(tile.get_food_level(), 7);
    tile.remove_food(i64::MIN);
    assert_eq!(tile.get_food_level(), i64::MAX);
}

#[test]
fn add_food_never_goes_below_zero_and_has_no_ceiling() {
    let mut tile = Tile::new(400_000, 0);
    tile.add_food_or_nothing(10 * MAX_GROWTH_LEVEL);
    assert_eq!(tile.get_food_level(), 30_400_000);
    tile.add_food_or_nothing(-40_000_000);
    assert_eq!(tile.get_food_level(), 0);
    tile.add_food_or_nothing(i64::MIN);
    assert_eq!(tile.get_food_level(), 0);
    tile.add_food_or_nothing(i64::MAX);
    tile.add_food_or_nothing(i64::MAX);
    assert_eq!(tile.get_food_level(), i64::MAX);
}

#[test]
fn land_tile_add_and_remove() {
    let mut tile = LandTile::new(500_000, 100_000);
    tile.add_food(250_000);
    tile.remove_food(50_000);
    assert_eq!(Tile::Land(tile).get_food_level(), 700_000);
    assert_eq!(Tile::Land(tile).get_fertility(), 500_000);
}

#[test]
fn food_multiplier_falls_with_the_distance_of_the_hues() {
    let tile = LandTile::new(500_000, 400_000);
    assert_eq!(tile.get_food_multiplier(400_000), 1_000_000);
    assert_eq!(tile.get_food_multiplier(430_000), 900_000);
    assert_eq!(tile.get_food_multiplier(370_000), 900_000);
    assert_eq!(tile.get_food_multiplier(100_000), 0);
    assert_eq!(tile.get_food_multiplier(1_000_000), -1_000_000);
    assert_eq!(Tile::Land(tile).get_food_multiplier(430_000), Some(900_000));
    assert_eq!(tile.get_food_multiplier(400_001), 999_997);
}

#[test]
fn update_waits_until_the_tile_is_due() {
    let mut tile = Tile::new(400_000, 0);
    tile.update(10, 1, 0);
    assert_eq!(tile.get_food_level(), 400_000);
    assert_eq!(tile.get_last_update_time(), 0);
    tile.update(11, 1, 0);
    assert_eq!(tile.get_food_level(), MAX_GROWTH_LEVEL);
    assert_eq!(tile.get_last_update_time(), 11);
    tile.update(5, -1, 0);
    assert_eq!(tile.get_food_level(), MAX_GROWTH_LEVEL);
    assert_eq!(tile.get_last_update_time(), 11);
}

#[test]
fn update_lets_food_decay_to_its_part() {
    let mut tile = Tile::new(400_000, 0);
    tile.update(100, -1, 750_000);
    assert_eq!(tile.get_food_level(), 300_000);
    assert_eq!(tile.get_last_update_time(), 100);
    tile.update(200, 0, 500_000);
    assert_eq!(tile.get_food_level(), 150_000);
    tile.update(300, -9, 1_000_000);
    assert_eq!(tile.get_food_level(), 150_000);
    tile.update(400, -9, 0);
    assert_eq!(tile.get_food_level(), 0);
}

#[test]
fn update_lets_food_grow_towards_the_full_level() {
    let mut tile = Tile::new(1_000_000, 0);
    tile.update(100, 1, 500_000);
    assert_eq!(tile.get_food_level(), 2_000_000);
    tile.update(200, 1, 500_000);
    assert_eq!(tile.get_food_level(), 2_500_000);
    tile.update(300, 1, 1_000_000);
    assert_eq!(tile.get_food_level(), 2_500_000);
    tile.add_food_or_nothing(2_000_000);
    tile.update(400, 1, 0);
    assert_eq!(tile.get_food_level(), 4_500_000);
    assert_eq!(tile.get_last_update_time(), 400);
}

#[test]
fn restore_refuses_negative_food() {
    assert!(LandTile::restore(1, -1, 0, 0).is_none());
    let tile = Tile::Land(LandTile::restore(300_000, 2_000_000, 9, 77).unwrap());
    assert_eq!(tile.get_fertility(), 300_000);
    assert_eq!(tile.get_food_level(), 2_000_000);
    assert_eq!(tile.get_food_type(), 9);
    assert_eq!(tile.get_last_update_time(), 77);
}

fn columns(width: usize, height: usize) -> Vec<Vec<Tile>> {
    (0..width)
        .map(|x| (0..height).map(|y| Tile::new((x * 10 + y) as i64, 0)).collect())
        .collect()
}

#[test]
fn terrain_new_takes_a_grid_of_the_right_size() {
    let terrain = Terrain::new(columns(3, 2), (3, 2)).unwrap();
    assert_eq!(terrain.get_board_size(), (3, 2));
    assert_eq!(terrain.get_tile_at((2, 1)).get_food_level(), 21);
    assert_eq!(terrain.get_tile_at((0, 1)).get_food_level(), 1);
    assert!(Terrain::new(vec![], (0, 0)).is_some());
    assert!(Terrain::new(vec![], (0, 5)).is_some());
}

#[test]
fn terrain_new_refuses_a_grid_of_another_shape() {
    assert!(Terrain::new(columns(3, 2), (2, 3)).is_none());
    assert!(Terrain::new(columns(3, 2), (3, 3)).is_none());
    assert!(Terrain::new(columns(3, 2), (4, 2)).is_none());
    let mut ragged = columns(3, 2);
    ragged[1].pop();
    assert!(Terrain::new(ragged, (3, 2)).is_none());
}

#[test]
fn terrain_changes_one_tile_and_no_other() {
    let mut terrain = Terrain::new(columns(2, 2), (2, 2)).unwrap();
    terrain.add_food_or_nothing_at((1, 0), 100);
    terrain.remove_food_at((0, 1), 50);
    terrain.update_at((1, 1), 20, 1, 0);
    assert_eq!(terrain.get_tile_at((0, 0)).get_food_level(), 0);
    assert_eq!(terrain.get_tile_at((1, 0)).get_food_level(), 110);
    assert_eq!(terrain.get_tile_at((0, 1)).get_food_level(), 0);
    assert_eq!(terrain.get_tile_at((1, 1)).get_food_level(), MAX_GROWTH_LEVEL);
    assert_eq!(terrain.get_tile_at((1, 1)).get_last_update_time(), 20);
    assert_eq!(terrain.get_tile_at((1, 0)).get_last_update_time(), 0);
}
