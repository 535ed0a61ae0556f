use edrefis::piece::Rotations;
use edrefis::randomizer::Randomizer;
use edrefis::well::Block;

fn state(r: &Randomizer) -> (u32, [u8; 4]) {
    match r {
        Randomizer::TTATGM2P { seed, history } => (*seed, *history),
    }
}

#[test]
fn fresh_generator_state() {
    let r = Randomizer::new();
    assert_eq!(state(&r), (10, [1, 1, 2, 2]));
    assert!(r.can_draw());
}

#[test]
fn first_pieces_of_a_fresh_generator() {
    let mut r = Randomizer::new();
    let a = r.next_piece();
    assert_eq!(a.color, Block::Orange);
    assert_eq!(a.rotations, Rotations::LPiece);
    assert_eq!(state(&r), (1106733399, [4, 1, 1, 2]));
    let b = r.next_piece();
    assert_eq!(b.color, Block::Cyan);
    assert_eq!(state(&r), (3955787362, [6, 4, 1, 1]));
    let c = r.next_piece();
    assert_eq!(c.color, Block::Purple);
    assert_eq!(state(&r).1, [2, 6, 4, 1]);
}

#[test]
fn same_start_same_sequence() {
    let mut a = Randomizer::new();
    let mut b = Randomizer::new();
    for _ in 0..50 {
        assert_eq!(a.next_piece().color, b.next_piece().color);
    }
}

#[test]
fn history_records_the_deal() {
    let mut r = Randomizer::new();
    for _ in 0..30 {
        let (_, before) = state(&r);
        let p = r.next_piece();
        let (_, after) = state(&r);
        assert_eq!(&after[1..], &before[..3]);
        let expected = match after[0] {
            0 => Block::Red,
            1 => Block::Green,
            2 => Block::Purple,
            3 => Block::Blue,
            4 => Block::Orange,
            5 => Block::Yellow,
            6 => Block::Cyan,
            _ => panic!("roll out of range"),
        };
        assert_eq!(p.color, expected);
    }
}

#[test]
fn overflowing_seed_is_reported() {
    let r = Randomizer::TTATGM2P { seed: 289805467, history: [0, 0, 0, 0] };
    assert!(!r.can_draw());
}
