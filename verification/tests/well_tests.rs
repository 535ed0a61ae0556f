use edrefis::well::{Block, BlockDirections, Tile, Well, WELL_COLS, WELL_ROWS};

fn tile(color: Block) -> Option<Tile> {
    Some(Tile { color, directions: BlockDirections::none() })
}

fn fill_row(well: &mut Well, r: usize, color: Block) {
    for c in 0..WELL_COLS {
        well.blocks[r][c] = tile(color);
    }
}

#[test]
fn directions_round_trip() {
    for bits in 0u8..16 {
        let (u, d, l, r) = (bits & 8 != 0, bits & 4 != 0, bits & 2 != 0, bits & 1 != 0);
        let dirs = BlockDirections::new(u, d, l, r);
        assert_eq!(dirs.up(), u);
        assert_eq!(dirs.down(), d);
        assert_eq!(dirs.left(), l);
        assert_eq!(dirs.right(), r);
        assert_eq!(dirs.bits(), bits);
    }
}

#[test]
fn directions_weights() {
    assert_eq!(BlockDirections::new(true, false, false, false).bits(), 8);
    assert_eq!(BlockDirections::new(false, true, false, false).bits(), 4);
    assert_eq!(BlockDirections::new(false, false, true, false).bits(), 2);
    assert_eq!(BlockDirections::new(false, false, false, true).bits(), 1);
    assert_eq!(BlockDirections::none().bits(), 0);
}

#[test]
fn match_with_keeps_only_mutual_joins() {
    let all = BlockDirections::new(true, true, true, true);
    let up_neighbour = BlockDirections::new(false, true, false, false);
    let left_neighbour = BlockDirections::new(false, false, false, false);
    let m = all.match_with(Some(up_neighbour), None, Some(left_neighbour), Some(all));
    assert!(m.up());
    assert!(!m.down());
    assert!(!m.left());
    assert!(m.right());
    assert_eq!(m.bits(), 9);
    let none = BlockDirections::none().match_with(Some(all), Some(all), Some(all), Some(all));
    assert_eq!(none.bits(), 0);
}

#[test]
fn new_well_is_empty() {
    let well = Well::new();
    for r in 0..WELL_ROWS {
        for c in 0..WELL_COLS {
            assert!(well.blocks[r][c].is_none());
        }
    }
}

#[test]
fn do_clear_returns_full_rows_top_to_bottom() {
    let mut well = Well::new();
    fill_row(&mut well, 20, Block::Red);
    fill_row(&mut well, 18, Block::Blue);
    well.blocks[19][0] = tile(Block::Green);
    let cleared = well.do_clear();
    assert_eq!(cleared.len(), 2);
    assert_eq!(cleared[0].0, 18);
    assert_eq!(cleared[1].0, 20);
    assert_eq!(cleared[0].1[3], tile(Block::Blue));
    assert_eq!(cleared[1].1[9], tile(Block::Red));
    for c in 0..WELL_COLS {
        assert!(well.blocks[18][c].is_none());
        assert!(well.blocks[20][c].is_none());
    }
    assert_eq!(well.blocks[19][0], tile(Block::Green));
}

#[test]
fn do_clear_without_full_rows_changes_nothing() {
    let mut well = Well::new();
    for c in 0..WELL_COLS - 1 {
        well.blocks[20][c] = tile(Block::Cyan);
    }
    let cleared = well.do_clear();
    assert!(cleared.is_empty());
    assert_eq!(well.blocks[20][0], tile(Block::Cyan));
    assert!(well.blocks[20][9].is_none());
}

#[test]
fn commit_clear_moves_the_row_to_the_top() {
    let mut well = Well::new();
    well.blocks[0][0] = tile(Block::Red);
    well.blocks[1][1] = tile(Block::Orange);
    well.blocks[2][2] = tile(Block::Yellow);
    well.blocks[3][3] = tile(Block::Green);
    well.commit_clear(&vec![2]);
    assert_eq!(well.blocks[0][2], tile(Block::Yellow));
    assert_eq!(well.blocks[1][0], tile(Block::Red));
    assert_eq!(well.blocks[2][1], tile(Block::Orange));
    assert_eq!(well.blocks[3][3], tile(Block::Green));
}

#[test]
fn line_clear_collapses_the_stack() {
    let mut well = Well::new();
    fill_row(&mut well, 20, Block::Red);
    fill_row(&mut well, 18, Block::Blue);
    well.blocks[19][4] = tile(Block::Green);
    well.blocks[17][7] = tile(Block::Purple);
    let cleared = well.do_clear();
    let rows: Vec<i32> = cleared.iter().map(|x| x.0).collect();
    well.commit_clear(&rows);
    assert_eq!(well.blocks[20][4], tile(Block::Green));
    assert_eq!(well.blocks[19][7], tile(Block::Purple));
    for r in 0..19 {
        for c in 0..WELL_COLS {
            assert!(well.blocks[r][c].is_none(), "row {} col {}", r, c);
        }
    }
    for c in 0..WELL_COLS {
        if c != 4 {
            assert!(well.blocks[20][c].is_none());
        }
        if c != 7 {
            assert!(well.blocks[19][c].is_none());
        }
    }
}
