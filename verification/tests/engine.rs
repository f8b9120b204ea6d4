use dominoes::boneyard::Boneyard;
use dominoes::game::{Game, GameState, GameVariant};
use dominoes::hand::Hand;
use dominoes::match_players::match_players_helper;
use dominoes::match_results::MatchResults;
use dominoes::players::{legal_plays, Strategy};
use dominoes::snake::Snake;
use dominoes::tile::Tile;
use dominoes::tile_play::{Direction, TilePlay};
use rand::SeedableRng;

fn custom_game(
    snake: Vec<Tile>,
    hand0: Vec<Tile>,
    hand1: Vec<Tile>,
    boneyard: Vec<Tile>,
    variant: GameVariant,
    strat: Strategy,
) -> Game {
    Game {
        snake: Snake { tiles: snake },
        hand0: Hand { tiles: hand0 },
        hand1: Hand { tiles: hand1 },
        boneyard: Boneyard { tiles: boneyard },
        variant,
        strat0: strat,
        strat1: strat,
        current_player: 0,
        blocked_count: 0,
        outcome: GameState::InProgress,
    }
}

#[test]
fn emptied_hand_wins_with_opponent_pips_as_margin() {
    // Deal is skipped: hand(0) = [0|0],[0|1]; hand(1) = [1|1]; empty layout;
    // block variant; first-legal strategies.
    let mut game = custom_game(
        vec![],
        vec![Tile::new(0, 0), Tile::new(0, 1)],
        vec![Tile::new(1, 1)],
        vec![],
        GameVariant::Block,
        Strategy::Random,
    );

    // player 0 opens with [0|0]
    let s1 = game.play();
    assert!(matches!(s1, GameState::InProgress));
    assert_eq!(game.snake.tiles, vec![Tile::new(0, 0)]);
    assert_eq!(game.current_player, 1);

    // player 1 holds [1|1] against open ends {0,0}: blocked, turn passes
    let s2 = game.play();
    assert!(matches!(s2, GameState::InProgress));
    assert_eq!(game.blocked_count, 1);
    assert_eq!(game.current_player, 0);

    // player 0 plays [0|1] on an end 0 and empties the hand: wins with the
    // opponent's remaining pip sum as margin
    let s3 = game.play();
    assert_eq!(s3, GameState::Win(0, 2));
    assert_eq!(game.snake.left(), Some(0));
    assert_eq!(game.snake.right(), Some(1));
    assert!(game.snake.is_valid());
    assert!(game.hand0.is_empty());

    // a finished game answers the same terminal state again
    assert_eq!(game.play(), GameState::Win(0, 2));
}

#[test]
fn double_block_lower_pip_sum_wins_by_difference() {
    // Layout ends {3,5}; hand(0) = [1|2] (sum 3); hand(1) = [4|4] (sum 8);
    // block variant. Nobody can move: after both block, the lower sum wins
    // and the margin is the difference of the two sums.
    let mut game = custom_game(
        vec![Tile::new(3, 5)],
        vec![Tile::new(1, 2)],
        vec![Tile::new(4, 4)],
        vec![],
        GameVariant::Block,
        Strategy::Random,
    );

    let s1 = game.play();
    assert!(matches!(s1, GameState::InProgress));
    assert_eq!(game.blocked_count, 1);

    let s2 = game.play();
    assert_eq!(s2, GameState::Win(0, 5));
}

#[test]
fn double_block_equal_sums_draw() {
    let mut game = custom_game(
        vec![Tile::new(5, 5)],
        vec![Tile::new(1, 2)],
        vec![Tile::new(0, 3)],
        vec![],
        GameVariant::Block,
        Strategy::Random,
    );
    assert!(matches!(game.play(), GameState::InProgress));
    assert_eq!(game.play(), GameState::Draw);
}

#[test]
fn draw_variant_draws_until_playable() {
    // Ends {6,6}; hand(0) = [0|1] holds no 6. Drawing pops the back of the
    // stock, so with [2|3] below [0|6] the first draw yields [0|6], which is
    // playable: drawing stops there.
    let mut game = custom_game(
        vec![Tile::new(6, 6)],
        vec![Tile::new(0, 1)],
        vec![Tile::new(1, 1)],
        vec![Tile::new(2, 3), Tile::new(0, 6)],
        GameVariant::Draw,
        Strategy::Random,
    );
    let s = game.play();
    assert!(matches!(s, GameState::InProgress));
    // one tile was drawn, then played flipped onto the left end
    assert_eq!(game.boneyard.tiles, vec![Tile::new(2, 3)]);
    assert_eq!(game.hand0.tiles, vec![Tile::new(0, 1)]);
    assert_eq!(game.snake.tiles, vec![Tile::new(0, 6), Tile::new(6, 6)]);
    assert!(game.snake.is_valid());
}

#[test]
fn draw_variant_exhausts_stock_then_blocks() {
    // Nothing in hand or stock fits the ends {6,6}: the player draws the
    // whole stock and still blocks.
    let mut game = custom_game(
        vec![Tile::new(6, 6)],
        vec![Tile::new(0, 1)],
        vec![Tile::new(1, 1)],
        vec![Tile::new(2, 3)],
        GameVariant::Draw,
        Strategy::Random,
    );
    let s = game.play();
    assert!(matches!(s, GameState::InProgress));
    assert!(game.boneyard.tiles.is_empty());
    assert_eq!(game.hand0.tiles, vec![Tile::new(0, 1), Tile::new(2, 3)]);
    assert_eq!(game.blocked_count, 1);
    assert_eq!(game.current_player, 1);
}

#[test]
fn greedy_plays_highest_conservative_lowest() {
    let snake = Snake { tiles: vec![Tile::new(2, 3)] };
    let hand = Hand { tiles: vec![Tile::new(2, 0), Tile::new(2, 6), Tile::new(3, 3)] };

    let greedy = Strategy::Greedy.choose_play(&hand, &snake).unwrap();
    assert_eq!(greedy.tile, Tile::new(6, 2));
    assert_eq!(greedy.direction, Direction::Left);

    let conservative = Strategy::Conservative.choose_play(&hand, &snake).unwrap();
    assert_eq!(conservative.tile, Tile::new(0, 2));
    assert_eq!(conservative.direction, Direction::Left);

    let first = Strategy::Random.choose_play(&hand, &snake).unwrap();
    assert_eq!(first.tile, Tile::new(0, 2));
    assert_eq!(first.direction, Direction::Left);
}

#[test]
fn choose_play_none_exactly_when_unplayable() {
    let snake = Snake { tiles: vec![Tile::new(2, 3)] };
    let unplayable = Hand { tiles: vec![Tile::new(0, 1), Tile::new(4, 5)] };
    assert!(Strategy::Random.choose_play(&unplayable, &snake).is_none());
    assert!(Strategy::Greedy.choose_play(&unplayable, &snake).is_none());
    let playable = Hand { tiles: vec![Tile::new(0, 1), Tile::new(4, 3)] };
    assert!(Strategy::Greedy.choose_play(&playable, &snake).is_some());
}

#[test]
fn legal_plays_enumerates_in_probe_order() {
    let snake = Snake { tiles: vec![Tile::new(2, 2)] };
    let hand = Hand { tiles: vec![Tile::new(2, 2), Tile::new(0, 2)] };
    // [2|2] is already on the layout in this artificial position, but the
    // held copy of [0|2] offers: as held on the right? no (0 != 2); flipped
    // on the left ([2|0], right pip 0)? no; it fits as held on the left
    // (right pip 2) and flipped on the right (left pip 2).
    let plays = legal_plays(&hand, &snake);
    let expected = vec![
        TilePlay { tile: Tile::new(2, 2), direction: Direction::Left },
        TilePlay { tile: Tile::new(2, 2), direction: Direction::Right },
        TilePlay { tile: Tile::new(2, 2), direction: Direction::Left },
        TilePlay { tile: Tile::new(2, 2), direction: Direction::Right },
        TilePlay { tile: Tile::new(0, 2), direction: Direction::Left },
        TilePlay { tile: Tile::new(2, 0), direction: Direction::Right },
    ];
    assert_eq!(plays, expected);

    // empty layout: every orientation and end of every tile is offered
    let empty = Snake::new();
    let one = Hand { tiles: vec![Tile::new(1, 4)] };
    assert_eq!(legal_plays(&one, &empty).len(), 4);
}

#[test]
fn dealt_game_runs_to_completion_and_conserves_tiles() {
    let mut rng = rand::rngs::StdRng::seed_from_u64(7);
    let mut game = Game::new(Strategy::Greedy, Strategy::Conservative, GameVariant::Block, &mut rng);
    assert_eq!(game.hand0.len(), 7);
    assert_eq!(game.hand1.len(), 7);
    assert_eq!(game.boneyard.len(), 14);

    let mut state = GameState::InProgress;
    let mut turns = 0;
    while matches!(state, GameState::InProgress) {
        state = game.play();
        turns += 1;
        assert!(turns <= 86, "a game must end within the turn bound");
    }
    assert!(game.snake.is_valid());

    // closed set: layout + hands + stock together are exactly the 28 tiles
    let mut all: Vec<Tile> = Vec::new();
    all.extend(game.snake.tiles.iter().copied());
    all.extend(game.hand0.tiles.iter().copied());
    all.extend(game.hand1.tiles.iter().copied());
    all.extend(game.boneyard.tiles.iter().copied());
    assert_eq!(all.len(), 28);
    let mut canon: Vec<Tile> = all
        .iter()
        .map(|t| if t.left <= t.right { *t } else { t.flip() })
        .collect();
    canon.sort_by_key(|t| (t.left, t.right));
    assert_eq!(canon, Boneyard::new().tiles);

    // emptied-hand endings carry the loser's pips as margin
    if let GameState::Win(w, m) = state {
        if game.hand0.is_empty() || game.hand1.is_empty() {
            let loser_pips = if w == 0 { game.hand1.score() } else { game.hand0.score() };
            assert_eq!(m, loser_pips);
        }
    }
}

#[test]
fn dealt_draw_variant_game_completes() {
    let mut rng = rand::rngs::StdRng::seed_from_u64(19);
    let mut game = Game::new(Strategy::Random, Strategy::Greedy, GameVariant::Draw, &mut rng);
    let mut state = GameState::InProgress;
    let mut turns = 0;
    while matches!(state, GameState::InProgress) {
        state = game.play();
        turns += 1;
        assert!(turns <= 86, "a game must end within the turn bound");
    }
    assert!(game.snake.is_valid());
    // the closed set survives drawing from the stock
    let total = game.snake.tiles.len()
        + game.hand0.tiles.len()
        + game.hand1.tiles.len()
        + game.boneyard.tiles.len();
    assert_eq!(total, 28);
}

#[test]
fn same_seed_replays_identically() {
    let mut rng1 = rand::rngs::StdRng::seed_from_u64(42);
    let mut rng2 = rand::rngs::StdRng::seed_from_u64(42);
    let mut g1 = Game::new(Strategy::Random, Strategy::Random, GameVariant::Draw, &mut rng1);
    let mut g2 = Game::new(Strategy::Random, Strategy::Random, GameVariant::Draw, &mut rng2);
    assert_eq!(g1.hand0.tiles, g2.hand0.tiles);
    assert_eq!(g1.hand1.tiles, g2.hand1.tiles);
    assert_eq!(g1.boneyard.tiles, g2.boneyard.tiles);

    let mut s1 = GameState::InProgress;
    let mut s2 = GameState::InProgress;
    while matches!(s1, GameState::InProgress) {
        s1 = g1.play();
        s2 = g2.play();
        assert_eq!(g1.snake.tiles, g2.snake.tiles, "identical play sequences");
    }
    assert_eq!(s1, s2);
}

#[test]
fn match_runner_counts_every_game() {
    let mut rng = rand::rngs::StdRng::seed_from_u64(3);
    let results: MatchResults = match_players_helper(Strategy::Greedy, Strategy::Random, 25, &mut rng);
    assert_eq!(results.wins_0 + results.wins_1 + results.draws, 25);
    assert_eq!(results.games(), 25);
    assert!(results.scores_0 <= 252 * results.wins_0 as u32);
    assert!(results.scores_1 <= 252 * results.wins_1 as u32);
}

#[test]
fn play_tile_drives_an_externally_chosen_game() {
    // an outside driver (an interactive player) can feed chosen plays in
    let mut game = custom_game(
        vec![],
        vec![Tile::new(4, 2)],
        vec![Tile::new(2, 2), Tile::new(0, 0)],
        vec![],
        GameVariant::Block,
        Strategy::Random,
    );
    let s = game.play_tile(Some(TilePlay { tile: Tile::new(4, 2), direction: Direction::Right }));
    assert_eq!(s, GameState::Win(0, 4));
    assert_eq!(game.snake.tiles, vec![Tile::new(4, 2)]);
}
