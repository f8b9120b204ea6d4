use dominoes::boneyard::Boneyard;
use dominoes::debug_utils::{is_board_valid, is_hand_playable};
use dominoes::hand::Hand;
use dominoes::possible_hand::PossibleHand;
use dominoes::print_utils::{tile_to_char_horizontal, tile_to_char_vertical};
use dominoes::snake::Snake;
use dominoes::tile::Tile;
use dominoes::tile_play::{Direction, TilePlay};
use rand::SeedableRng;

#[test]
fn test_possible_hand() {
    let tiles = [
        Tile::new(0, 0),
        Tile::new(0, 1),
        Tile::new(0, 2),
        Tile::new(0, 3),
        Tile::new(0, 4),
        Tile::new(0, 5),
        Tile::new(0, 6),
        Tile::new(1, 1),
        Tile::new(1, 2),
        Tile::new(1, 3),
        Tile::new(1, 4),
        Tile::new(1, 5),
        Tile::new(1, 6),
        Tile::new(2, 2),
        Tile::new(2, 3),
        Tile::new(2, 4),
        Tile::new(2, 5),
        Tile::new(2, 6),
        Tile::new(3, 3),
        Tile::new(3, 4),
        Tile::new(3, 5),
        Tile::new(3, 6),
        Tile::new(4, 4),
        Tile::new(4, 5),
        Tile::new(4, 6),
        Tile::new(5, 5),
        Tile::new(5, 6),
        Tile::new(6, 6),
    ];

    assert!(tiles.len() == 28);
}

#[test]
fn tile_flip_and_score() {
    let t = Tile::new(2, 5);
    assert_eq!(t.flip(), Tile::new(5, 2));
    assert_eq!(t.flip().flip(), t);
    assert_eq!(t.score(), 7);
    assert_eq!(Tile::new(0, 0).score(), 0);
    assert_eq!(Tile::new(6, 6).score(), 12);
    // orientation matters for equality
    assert_ne!(Tile::new(2, 5), Tile::new(5, 2));
}

#[test]
fn snake_playability() {
    let empty = Snake::new();
    // an empty layout accepts anything
    assert!(empty.is_playable(Tile::new(4, 6)));
    assert!(empty.left().is_none());
    assert!(empty.right().is_none());

    // layout [2|3]-[3|5]: open ends 2 and 5
    let snake = Snake { tiles: vec![Tile::new(2, 3), Tile::new(3, 5)] };
    assert_eq!(snake.left(), Some(2));
    assert_eq!(snake.right(), Some(5));
    assert!(snake.is_playable(Tile::new(2, 6))); // left pip matches left end
    assert!(snake.is_playable(Tile::new(6, 2))); // right pip matches left end
    assert!(snake.is_playable(Tile::new(5, 1))); // left pip matches right end
    assert!(snake.is_playable(Tile::new(1, 5))); // right pip matches right end
    assert!(!snake.is_playable(Tile::new(0, 1)));
    assert!(!snake.is_playable(Tile::new(4, 6)));
}

#[test]
fn snake_add_orients_and_keeps_chain() {
    let mut snake = Snake::new();
    snake.add(Tile::new(2, 5));
    assert_eq!(snake.tiles, vec![Tile::new(2, 5)]);

    // right pip 2 joins the left end: prepended as held
    snake.add(Tile::new(6, 2));
    assert_eq!(snake.tiles, vec![Tile::new(6, 2), Tile::new(2, 5)]);

    // left pip 6 equals the left end: prepended flipped
    snake.add(Tile::new(6, 1));
    assert_eq!(snake.tiles, vec![Tile::new(1, 6), Tile::new(6, 2), Tile::new(2, 5)]);

    // left pip 5 equals the right end: appended as held
    snake.add(Tile::new(5, 3));
    assert_eq!(
        snake.tiles,
        vec![Tile::new(1, 6), Tile::new(6, 2), Tile::new(2, 5), Tile::new(5, 3)]
    );

    // right pip 3 equals the right end: appended flipped
    snake.add(Tile::new(4, 3));
    assert_eq!(
        snake.tiles,
        vec![
            Tile::new(1, 6),
            Tile::new(6, 2),
            Tile::new(2, 5),
            Tile::new(5, 3),
            Tile::new(3, 4)
        ]
    );
    assert!(snake.is_valid());
}

#[test]
fn snake_play_prepends_and_appends() {
    let mut snake = Snake::new();
    snake.play(TilePlay { tile: Tile::new(3, 3), direction: Direction::Left });
    snake.play(TilePlay { tile: Tile::new(3, 6), direction: Direction::Right });
    snake.play(TilePlay { tile: Tile::new(1, 3), direction: Direction::Left });
    assert_eq!(snake.tiles, vec![Tile::new(1, 3), Tile::new(3, 3), Tile::new(3, 6)]);
    assert!(snake.is_valid());
}

#[test]
fn snake_is_valid_rejects_broken_chain() {
    let good = Snake { tiles: vec![Tile::new(1, 2), Tile::new(2, 2), Tile::new(2, 0)] };
    assert!(good.is_valid());
    let bad = Snake { tiles: vec![Tile::new(1, 2), Tile::new(3, 4)] };
    assert!(!bad.is_valid());
    assert!(Snake::new().is_valid());
}

#[test]
fn hand_operations() {
    let mut hand = Hand::new();
    assert!(hand.is_empty());
    hand.add(Tile::new(1, 4));
    hand.add_multiple(vec![Tile::new(0, 6), Tile::new(2, 2)]);
    assert!(!hand.is_empty());
    assert_eq!(hand.len(), 3);
    assert_eq!(hand.score(), 5 + 6 + 4);

    // removal accepts either orientation and removes one entry
    assert!(hand.contains_matching(Tile::new(6, 0)));
    let removed = hand.remove_matching(Tile::new(6, 0));
    assert_eq!(removed, Tile::new(0, 6));
    assert_eq!(hand.len(), 2);
    assert!(!hand.contains_matching(Tile::new(0, 6)));
    assert_eq!(hand.score(), 5 + 4);
}

#[test]
fn boneyard_full_set_and_draws() {
    let mut b = Boneyard::new();
    assert_eq!(b.len(), 28);
    assert!(!b.is_empty());
    // one of each unordered pair, smaller pip first
    let mut expected = Vec::new();
    for left in 0..7u8 {
        for right in left..7u8 {
            expected.push(Tile::new(left, right));
        }
    }
    assert_eq!(b.tiles, expected);

    // draw_n removes the top n, oldest of them first
    let drawn = b.draw_n(7);
    assert_eq!(drawn, expected[21..].to_vec());
    assert_eq!(b.len(), 21);

    // draw removes the new top tile
    let top = b.draw();
    assert_eq!(top, Tile::new(3, 5));
    assert_eq!(b.len(), 20);
}

#[test]
fn boneyard_shuffle_is_a_seeded_permutation() {
    let mut rng = rand::rngs::StdRng::seed_from_u64(11);
    let b = Boneyard::new().shuffle(&mut rng);
    assert_eq!(b.tiles.len(), 28);
    let mut sorted = b.tiles.clone();
    sorted.sort_by_key(|t| (t.left, t.right));
    assert_eq!(sorted, Boneyard::new().tiles);
    // and it really rearranged the stock
    assert_ne!(b.tiles, Boneyard::new().tiles);

    // the same seed reproduces the same order
    let mut rng2 = rand::rngs::StdRng::seed_from_u64(11);
    let b2 = Boneyard::new().shuffle(&mut rng2);
    assert_eq!(b.tiles, b2.tiles);
}

#[test]
fn possible_hand_pruning() {
    let mut p = PossibleHand::new();
    assert_eq!(p.possible_tiles.len(), 28);
    assert_eq!(p.size, 0);

    p.remove_tile(Tile::new(0, 0));
    assert_eq!(p.possible_tiles.len(), 27);
    assert!(!p.possible_tiles.contains(&Tile::new(0, 0)));

    // discard everything showing a 3 or a 5
    p.remove_tiles_with_pips([3, 5]);
    assert_eq!(p.possible_tiles.len(), 14);
    for t in &p.possible_tiles {
        assert!(t.left != 3 && t.right != 3 && t.left != 5 && t.right != 5);
    }
}

#[test]
fn domino_glyphs() {
    assert_eq!(tile_to_char_vertical(Tile::new(0, 0)), '\u{1F063}');
    assert_eq!(tile_to_char_vertical(Tile::new(0, 1)), '\u{1F064}');
    assert_eq!(tile_to_char_vertical(Tile::new(6, 6)), '\u{1F093}');
    assert_eq!(tile_to_char_horizontal(Tile::new(0, 0)), '\u{1F031}');
    assert_eq!(tile_to_char_horizontal(Tile::new(2, 4)), '\u{1F043}');
    assert_eq!(tile_to_char_horizontal(Tile::new(6, 6)), '\u{1F061}');
}

#[test]
fn hand_playability_against_ends() {
    let hand = [Tile::new(1, 2), Tile::new(3, 4)];
    assert!(is_hand_playable(&hand, Some(2), Some(6)));
    assert!(is_hand_playable(&hand, Some(0), Some(3)));
    assert!(!is_hand_playable(&hand, Some(0), Some(6)));
    // a missing end accepts anything
    assert!(is_hand_playable(&hand, None, Some(6)));
    assert!(is_hand_playable(&hand, Some(0), None));
    assert!(!is_hand_playable(&[], Some(1), Some(2)));
}

#[test]
fn board_validity_walk() {
    let good = Snake { tiles: vec![Tile::new(1, 2), Tile::new(2, 3)] };
    assert!(is_board_valid(&good));
    // tolerated: a tile stored against the chain orientation still connects
    let loose = Snake { tiles: vec![Tile::new(1, 2), Tile::new(3, 2)] };
    assert!(is_board_valid(&loose));
    let broken = Snake { tiles: vec![Tile::new(1, 2), Tile::new(4, 5)] };
    assert!(!is_board_valid(&broken));
    assert!(is_board_valid(&Snake::new()));
}
