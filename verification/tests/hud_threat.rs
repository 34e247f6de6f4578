use timeline_tactics::hud::threat::{threatened_cells, tile_cells, THREAT_TILE_POOL};
use timeline_tactics::units::{Cell, Faction};

fn painted(tiles: &[Option<Cell>]) -> usize {
    tiles.iter().filter(|tile| tile.is_some()).count()
}

#[test]
fn a_hostile_pending_action_paints_its_threatened_cells() {
    let sweep = vec![Cell::new(1, 0), Cell::new(1, 1), Cell::new(1, -1)];
    let cells = threatened_cells(&[(Some(Faction::Enemy), sweep)], &[]);
    let tiles = tile_cells(&cells);
    assert_eq!(painted(&tiles), 3, "敌方横扫威胁的 3 格都该画出来");
    assert_eq!(cells, vec![Cell::new(1, -1), Cell::new(1, 0), Cell::new(1, 1)]);
}

#[test]
fn the_players_own_action_paints_nothing() {
    let cells = threatened_cells(
        &[(Some(Faction::Player), vec![Cell::new(5, 5)])],
        &[(Cell::new(6, 6), Faction::Player)],
    );
    assert!(
        tile_cells(&cells).iter().all(|tile| tile.is_none()),
        "玩家自己威胁的格不该亮起（那是「我打到哪」，不是「哪里会挨打」）"
    );
}

#[test]
fn the_pool_hides_when_idle_and_clamps_when_overflowing() {
    let idle = tile_cells(&threatened_cells(&[], &[]));
    assert_eq!(idle.len(), THREAT_TILE_POOL);
    assert!(idle.iter().all(|tile| tile.is_none()), "没有威胁时整池该藏着");

    let many: Vec<Cell> = (0..THREAT_TILE_POOL as i32 + 5).map(|x| Cell::new(x, 0)).collect();
    let cells = threatened_cells(&[(Some(Faction::Enemy), many)], &[]);
    let tiles = tile_cells(&cells);
    assert_eq!(painted(&tiles), THREAT_TILE_POOL, "超出的威胁格按顺序裁掉，不是随机丢");
    assert_eq!(tiles[0], Some(Cell::new(0, 0)));
    assert_eq!(tiles[THREAT_TILE_POOL - 1], Some(Cell::new(THREAT_TILE_POOL as i32 - 1, 0)));
}

#[test]
fn projectiles_and_ownerless_threats_count_once_each() {
    let cells = threatened_cells(
        &[(None, vec![Cell::new(2, 2)]), (Some(Faction::Enemy), vec![Cell::new(2, 2)])],
        &[(Cell::new(0, 3), Faction::Enemy), (Cell::new(2, 2), Faction::Enemy)],
    );
    assert_eq!(cells, vec![Cell::new(0, 3), Cell::new(2, 2)]);
}

#[test]
fn the_pool_is_built_hidden_and_marked() {
    let tiles = tile_cells(&[]);
    assert_eq!(tiles.len(), THREAT_TILE_POOL, "池子大小应当正好一池");
    assert!(tiles.iter().all(|tile| tile.is_none()), "开局整池都该藏着");
}
