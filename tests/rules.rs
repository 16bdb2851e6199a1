use aqueren::{
    all_tiles, base_price, choose_tiles, compute_state, draw_action, get_remaining_tiles,
    hotel_chain_size, initial_slots, new_actions, new_game, new_player, parse_command, parse_tile,
    play_turn, price_level, share_price, state_after_place_tile, stock_price, Action, Board,
    Command, CommandError, Game, GameLog, Hotel, PlayerId, Slot, SubmitError, Tile, TurnResult,
    TurnState,
};
use aqueren::console::char_to_row;
use aqueren::deal::take_tile;

fn tile(row: u8, col: u8) -> Tile {
    Tile::new(row, col).unwrap()
}

fn sample_game() -> Game {
    let start = vec![tile(3, 2), tile(5, 3), tile(5, 4), tile(5, 5)];
    let hands = [
        vec![tile(0, 0), tile(0, 1), tile(0, 2), tile(0, 3), tile(0, 4), tile(0, 5)],
        vec![tile(1, 0), tile(1, 1), tile(1, 2), tile(1, 3), tile(1, 4), tile(1, 5)],
        vec![tile(2, 0), tile(2, 1), tile(2, 2), tile(2, 3), tile(2, 4), tile(2, 5)],
        vec![tile(4, 0), tile(4, 1), tile(4, 2), tile(4, 3), tile(4, 4), tile(4, 5)],
    ];
    let players = hands
        .iter()
        .enumerate()
        .map(|(i, h)| new_player(PlayerId::new((i + 1) as u8).unwrap(), h.clone()))
        .collect();
    Game {
        board: Board { slots: initial_slots(start) },
        players: players,
        turn: PlayerId::One,
        turn_state: TurnState::Placing,
    }
}

fn success(r: TurnResult) -> Game {
    match r {
        TurnResult::Success(g) => g,
        TurnResult::Error(e) => panic!("unexpected refusal: {}", e),
    }
}

fn error(r: TurnResult) -> String {
    match r {
        TurnResult::Success(_) => panic!("unexpected success"),
        TurnResult::Error(e) => e,
    }
}

fn with_hotel(slots: &mut Vec<Slot>, row: u8, col: u8, hotel: Hotel) {
    let k = row as usize * 12 + col as usize;
    slots[k].has_tile = true;
    slots[k].hotel = Some(hotel);
}

fn summary(g: &Game) -> String {
    format!("{:?}", g)
}

#[test]
fn tile_new_rejects_cells_off_the_board() {
    assert!(Tile::new(9, 0).is_none());
    assert!(Tile::new(0, 12).is_none());
    assert_eq!(Tile::new(8, 11), Some(Tile { row: 8, col: 11 }));
    assert_eq!(tile(4, 7).row(), 4);
    assert_eq!(tile(4, 7).col(), 7);
}

#[test]
fn player_id_new_covers_one_to_four() {
    assert_eq!(PlayerId::new(1), Some(PlayerId::One));
    assert_eq!(PlayerId::new(4), Some(PlayerId::Four));
    assert_eq!(PlayerId::new(0), None);
    assert_eq!(PlayerId::new(5), None);
}

#[test]
fn base_prices_follow_tiers() {
    assert_eq!(base_price(Hotel::Luxor), 200);
    assert_eq!(base_price(Hotel::Tower), 200);
    assert_eq!(base_price(Hotel::American), 300);
    assert_eq!(base_price(Hotel::Festival), 300);
    assert_eq!(base_price(Hotel::Worldwide), 300);
    assert_eq!(base_price(Hotel::Imperial), 400);
    assert_eq!(base_price(Hotel::Continental), 400);
}

#[test]
fn price_levels_follow_chain_size() {
    let expected = [
        (0, 0), (1, 0), (2, 0), (3, 1), (4, 2), (5, 3), (6, 4), (10, 4), (11, 5), (20, 5),
        (21, 6), (30, 6), (31, 7), (40, 7), (41, 8), (108, 8), (255, 8),
    ];
    for (n, level) in expected.iter() {
        assert_eq!(price_level(*n), *level, "level of {}", n);
    }
}

#[test]
fn stock_price_adds_hundred_per_level() {
    assert_eq!(stock_price(Hotel::Luxor, 2), 200);
    assert_eq!(stock_price(Hotel::Imperial, 2), 400);
    assert_eq!(stock_price(Hotel::American, 3), 400);
    assert_eq!(stock_price(Hotel::Continental, 41), 1200);
}

#[test]
fn chain_size_counts_connected_slots_of_the_hotel() {
    let mut slots = initial_slots(vec![]);
    with_hotel(&mut slots, 0, 0, Hotel::Tower);
    with_hotel(&mut slots, 0, 1, Hotel::Tower);
    with_hotel(&mut slots, 1, 1, Hotel::Tower);
    with_hotel(&mut slots, 2, 1, Hotel::Tower);
    with_hotel(&mut slots, 2, 2, Hotel::Luxor);
    with_hotel(&mut slots, 3, 3, Hotel::Tower);
    with_hotel(&mut slots, 5, 5, Hotel::Festival);
    assert_eq!(hotel_chain_size(&slots, Hotel::Tower), 4);
    with_hotel(&mut slots, 0, 2, Hotel::Tower);
    assert_eq!(hotel_chain_size(&slots, Hotel::Tower), 5);
    assert_eq!(hotel_chain_size(&slots, Hotel::Festival), 1);
    assert_eq!(hotel_chain_size(&slots, Hotel::Luxor), 1);
    assert_eq!(hotel_chain_size(&slots, Hotel::Imperial), 0);
    assert_eq!(share_price(&slots, Some(Hotel::Tower)), 500);
    assert_eq!(share_price(&slots, Some(Hotel::Festival)), 300);
    assert_eq!(share_price(&slots, None), 0);
}

#[test]
fn buying_three_shares_costs_each_at_current_price() {
    let game = sample_game();
    let action = Action::BuyStocks {
        player: PlayerId::One,
        hotel1: Some(Hotel::Luxor),
        hotel2: Some(Hotel::Luxor),
        hotel3: Some(Hotel::Imperial),
    };
    let after = success(play_turn(&game, &action));
    let p = &after.players[0];
    assert_eq!(p.money, 5200);
    assert_eq!(p.shares.luxor, 2);
    assert_eq!(p.shares.imperial, 1);
    assert_eq!(p.shares.tower + p.shares.american + p.shares.festival, 0);
    assert_eq!(p.shares.worldwide + p.shares.continental, 0);
    assert_eq!(after.turn_state, TurnState::Drawing);
    assert_eq!(after.turn, PlayerId::One);
}

#[test]
fn buying_uses_chain_size_on_board() {
    let mut game = sample_game();
    with_hotel(&mut game.board.slots, 7, 0, Hotel::American);
    with_hotel(&mut game.board.slots, 7, 1, Hotel::American);
    with_hotel(&mut game.board.slots, 7, 2, Hotel::American);
    let action = Action::BuyStocks {
        player: PlayerId::One,
        hotel1: Some(Hotel::American),
        hotel2: None,
        hotel3: None,
    };
    let after = success(play_turn(&game, &action));
    assert_eq!(after.players[0].money, 5600);
    assert_eq!(after.players[0].shares.american, 1);
}

#[test]
fn buying_out_of_turn_is_refused() {
    let game = sample_game();
    let action = Action::BuyStocks {
        player: PlayerId::Three,
        hotel1: Some(Hotel::Luxor),
        hotel2: None,
        hotel3: None,
    };
    assert_eq!(error(play_turn(&game, &action)), "player does not have the turn");
}

#[test]
fn buying_beyond_means_is_refused() {
    let mut game = sample_game();
    game.players[0].money = 500;
    let action = Action::BuyStocks {
        player: PlayerId::One,
        hotel1: Some(Hotel::Luxor),
        hotel2: Some(Hotel::Luxor),
        hotel3: Some(Hotel::Luxor),
    };
    assert_eq!(error(play_turn(&game, &action)), "player cannot pay for the shares");
    game.players[0].money = 600;
    let after = success(play_turn(&game, &action));
    assert_eq!(after.players[0].money, 0);
}

#[test]
fn buying_past_share_limit_is_refused() {
    let mut game = sample_game();
    game.players[0].shares.tower = 254;
    let action = Action::BuyStocks {
        player: PlayerId::One,
        hotel1: Some(Hotel::Tower),
        hotel2: Some(Hotel::Tower),
        hotel3: None,
    };
    assert_eq!(error(play_turn(&game, &action)), "share count would exceed its limit");
}

#[test]
fn placing_without_neighbours_leads_to_buying() {
    let game = sample_game();
    let after = success(play_turn(&game, &Action::PlaceTile { player: PlayerId::One, tile: tile(0, 2) }));
    assert_eq!(after.turn_state, TurnState::BuyingOrDrawing);
    assert!(after.board.slots[2].has_tile);
    assert_eq!(after.players[0].tiles.len(), 5);
    assert!(!after.players[0].tiles.contains(&tile(0, 2)));
    assert_eq!(after.turn, PlayerId::One);
}

#[test]
fn placing_next_to_a_loose_tile_creates_a_chain() {
    let mut game = sample_game();
    game.turn = PlayerId::Four;
    let after = success(play_turn(&game, &Action::PlaceTile { player: PlayerId::Four, tile: tile(4, 2) }));
    assert_eq!(after.turn_state, TurnState::CreatingChain);
}

#[test]
fn adjacency_rule_on_hotels() {
    let mut slots = initial_slots(vec![]);
    assert_eq!(state_after_place_tile(&slots, &tile(4, 4)), TurnState::BuyingOrDrawing);
    with_hotel(&mut slots, 3, 4, Hotel::Tower);
    assert_eq!(state_after_place_tile(&slots, &tile(4, 4)), TurnState::BuyingOrDrawing);
    with_hotel(&mut slots, 4, 3, Hotel::Tower);
    assert_eq!(state_after_place_tile(&slots, &tile(4, 4)), TurnState::BuyingOrDrawing);
    with_hotel(&mut slots, 5, 4, Hotel::Imperial);
    assert_eq!(state_after_place_tile(&slots, &tile(4, 4)), TurnState::Merging);
    // diagonal neighbours do not count
    let mut diagonal = initial_slots(vec![tile(3, 3)]);
    with_hotel(&mut diagonal, 5, 5, Hotel::Luxor);
    assert_eq!(state_after_place_tile(&diagonal, &tile(4, 4)), TurnState::BuyingOrDrawing);
}

#[test]
fn placing_refusals_leave_the_game_unchanged() {
    let game = sample_game();
    let before = summary(&game);
    let out_of_turn = Action::PlaceTile { player: PlayerId::Two, tile: tile(1, 4) };
    assert_eq!(error(play_turn(&game, &out_of_turn)), "player does not have the turn");
    let not_held = Action::PlaceTile { player: PlayerId::One, tile: tile(5, 11) };
    assert_eq!(error(play_turn(&game, &not_held)), "player does not have the tile");
    let off_board = Action::PlaceTile { player: PlayerId::One, tile: Tile { row: 9, col: 0 } };
    assert_eq!(error(play_turn(&game, &off_board)), "tile lies off the board");
    assert_eq!(summary(&game), before);
}

#[test]
fn placing_on_an_occupied_cell_is_refused() {
    let mut game = sample_game();
    game.players[0].tiles.push(tile(3, 2));
    let action = Action::PlaceTile { player: PlayerId::One, tile: tile(3, 2) };
    assert_eq!(error(play_turn(&game, &action)), "tile has already been placed");
}

#[test]
fn placing_twice_in_a_turn_is_refused() {
    let game = sample_game();
    let after = success(play_turn(&game, &Action::PlaceTile { player: PlayerId::One, tile: tile(0, 0) }));
    let again = Action::PlaceTile { player: PlayerId::One, tile: tile(0, 5) };
    assert_eq!(error(play_turn(&after, &again)), "the current turn is not in its placing phase");
}

#[test]
fn drawing_while_placing_is_refused() {
    let game = sample_game();
    let action = Action::DrawTile { tile: tile(8, 8) };
    assert_eq!(error(play_turn(&game, &action)), "player is not allowed to draw a tile");
}

#[test]
fn drawing_a_tile_outside_the_pool_is_refused() {
    let mut game = sample_game();
    game.turn_state = TurnState::Drawing;
    let held = Action::DrawTile { tile: tile(1, 1) };
    assert_eq!(error(play_turn(&game, &held)), "tile is not in the undrawn pool");
    let placed = Action::DrawTile { tile: tile(5, 4) };
    assert_eq!(error(play_turn(&game, &placed)), "tile is not in the undrawn pool");
}

#[test]
fn drawing_by_player_four_wraps_to_player_one() {
    let mut game = sample_game();
    game.turn = PlayerId::Four;
    game.turn_state = TurnState::BuyingOrDrawing;
    let after = success(play_turn(&game, &Action::DrawTile { tile: tile(8, 0) }));
    assert_eq!(after.turn, PlayerId::One);
    assert_eq!(after.turn_state, TurnState::Placing);
    assert_eq!(after.players[3].tiles.len(), 7);
    assert_eq!(after.players[0].tiles.len(), 6);
}

#[test]
fn merger_and_end_of_game_have_no_transition() {
    let game = sample_game();
    let merge = Action::HandleMergeStocks { hold: 1, sell: 0, trade: 0 };
    assert_eq!(error(play_turn(&game, &merge)), "action has no defined transition");
    assert_eq!(error(play_turn(&game, &Action::EndGame)), "action has no defined transition");
}

#[test]
fn new_game_partitions_all_tiles() {
    let game = new_game();
    let mut seen: Vec<Tile> = game
        .board
        .slots
        .iter()
        .filter(|s| s.has_tile)
        .map(|s| tile(s.row, s.col))
        .collect();
    for p in game.players.iter() {
        seen.extend(p.tiles.iter().cloned());
    }
    let pool = get_remaining_tiles(&game);
    assert_eq!(pool.len(), 108 - 4 - 24);
    seen.extend(pool.iter().cloned());
    assert_eq!(seen.len(), 108);
    let all = all_tiles();
    for t in all.iter() {
        assert_eq!(seen.iter().filter(|s| *s == t).count(), 1);
    }
    assert_eq!(game.turn, PlayerId::One);
    assert_eq!(game.turn_state, TurnState::Placing);
    let ids: Vec<PlayerId> = game.players.iter().map(|p| p.id).collect();
    assert_eq!(ids, vec![PlayerId::One, PlayerId::Two, PlayerId::Three, PlayerId::Four]);
}

#[test]
fn all_tiles_enumerates_rows_first() {
    let all = all_tiles();
    assert_eq!(all.len(), 108);
    assert_eq!(all[0], tile(0, 0));
    assert_eq!(all[13], tile(1, 1));
    assert_eq!(all[107], tile(8, 11));
}

#[test]
fn take_tile_takes_position_modulo_pool_size() {
    let mut pool = vec![tile(0, 0), tile(0, 1), tile(0, 2)];
    let t = take_tile(&mut pool, 7);
    assert_eq!(t, tile(0, 1));
    assert_eq!(pool, vec![tile(0, 0), tile(0, 2)]);
}

#[test]
fn choose_tiles_splits_the_pool() {
    let pool = all_tiles();
    let (drawn, rest) = choose_tiles(pool, 10);
    assert_eq!(drawn.len(), 10);
    assert_eq!(rest.len(), 98);
    for t in drawn.iter() {
        assert!(!rest.contains(t));
    }
}

#[test]
fn draw_action_picks_from_the_pool() {
    let game = sample_game();
    let pool = get_remaining_tiles(&game);
    assert_eq!(pool.len(), 108 - 4 - 24);
    match draw_action(&game) {
        Some(Action::DrawTile { tile }) => assert!(pool.contains(&tile)),
        other => panic!("expected a draw, got {:?}", other),
    }
}

#[test]
fn replaying_a_log_twice_gives_the_same_game() {
    let game = sample_game();
    let mut log = new_actions();
    log.push(Action::PlaceTile { player: PlayerId::One, tile: tile(0, 2) });
    log.push(Action::DrawTile { tile: tile(8, 8) });
    log.push(Action::PlaceTile { player: PlayerId::Two, tile: tile(1, 5) });
    let first = success(compute_state(&game, &log));
    let second = success(compute_state(&game, &log));
    assert_eq!(summary(&first), summary(&second));
    assert_eq!(first.turn, PlayerId::Two);
    assert!(first.players[0].tiles.contains(&tile(8, 8)));
}

#[test]
fn replay_stops_at_the_first_refusal() {
    let game = sample_game();
    let log = vec![
        Action::DrawTile { tile: tile(8, 8) },
        Action::PlaceTile { player: PlayerId::One, tile: tile(0, 2) },
    ];
    assert_eq!(error(compute_state(&game, &log)), "player is not allowed to draw a tile");
    assert_eq!(summary(&success(compute_state(&game, &new_actions()))), summary(&game));
}

#[test]
fn game_log_appends_only_accepted_actions() {
    let mut log = GameLog::new(sample_game());
    match log.submit(Action::PlaceTile { player: PlayerId::Two, tile: tile(1, 0) }) {
        Err(SubmitError::Rejected(m)) => assert_eq!(m, "player does not have the turn"),
        other => panic!("expected a refusal, got {:?}", other.map(|g| g.turn)),
    }
    assert_eq!(log.actions.len(), 0);
    let after = log.place(tile(0, 2)).ok().unwrap();
    assert_eq!(after.turn_state, TurnState::BuyingOrDrawing);
    assert_eq!(log.actions, vec![Action::PlaceTile { player: PlayerId::One, tile: tile(0, 2) }]);
    let drawn = log.draw().ok().unwrap();
    assert_eq!(drawn.turn, PlayerId::Two);
    assert_eq!(log.actions.len(), 2);
    let current = success(log.current());
    assert_eq!(summary(&current), summary(&drawn));
}

#[test]
fn game_log_reports_a_broken_log() {
    let mut log = GameLog::new(sample_game());
    log.actions.push(Action::EndGame);
    match log.place(tile(0, 2)) {
        Err(SubmitError::ReplayInconsistency(m)) => assert_eq!(m, "action has no defined transition"),
        other => panic!("expected a replay fault, got {:?}", other.map(|g| g.turn)),
    }
    assert_eq!(log.actions.len(), 1);
}

#[test]
fn cell_references_parse() {
    assert_eq!(parse_tile("B1"), Some(tile(1, 0)));
    assert_eq!(parse_tile("b12"), Some(tile(1, 11)));
    assert_eq!(parse_tile("I12"), Some(tile(8, 11)));
    assert_eq!(parse_tile("A01"), Some(tile(0, 0)));
    assert_eq!(parse_tile("J1"), None);
    assert_eq!(parse_tile("A13"), None);
    assert_eq!(parse_tile("A0"), None);
    assert_eq!(parse_tile("A"), None);
    assert_eq!(parse_tile(""), None);
    assert_eq!(parse_tile("A1x"), None);
    assert_eq!(parse_tile("A99999999999"), None);
    assert_eq!(char_to_row('c'), Some(2));
    assert_eq!(char_to_row('z'), None);
}

#[test]
fn console_commands_parse() {
    assert_eq!(parse_command("dump"), Ok(Command::Dump));
    assert_eq!(parse_command("place B1"), Ok(Command::Place { tile: tile(1, 0) }));
    assert_eq!(parse_command("place"), Err(CommandError::MissingTile));
    assert_eq!(parse_command("place Z9"), Err(CommandError::BadTile));
    assert_eq!(parse_command("hello"), Err(CommandError::UnknownCommand));
    assert_eq!(parse_command(""), Err(CommandError::UnknownCommand));
}

fn partition_counts(game: &Game) -> Vec<usize> {
    let mut seen: Vec<Tile> = game
        .board
        .slots
        .iter()
        .filter(|s| s.has_tile)
        .map(|s| Tile { row: s.row, col: s.col })
        .collect();
    for p in game.players.iter() {
        seen.extend(p.tiles.iter().cloned());
    }
    seen.extend(get_remaining_tiles(game));
    all_tiles().iter().map(|t| seen.iter().filter(|s| *s == t).count()).collect()
}

#[test]
fn partition_survives_a_round_of_play() {
    let mut log = GameLog::new(new_game());
    let start = success(log.current());
    assert!(partition_counts(&start).iter().all(|c| *c == 1));
    for _ in 0..4 {
        let game = success(log.current());
        let holder = game.players.iter().find(|p| p.id == game.turn).unwrap();
        let mut placed = false;
        for t in holder.tiles.clone() {
            if log.place(t).is_ok() {
                placed = true;
                break;
            }
        }
        assert!(placed);
        let game = success(log.current());
        assert!(partition_counts(&game).iter().all(|c| *c == 1));
        if game.turn_state == TurnState::BuyingOrDrawing {
            assert!(log.draw().is_ok());
            let game = success(log.current());
            assert!(partition_counts(&game).iter().all(|c| *c == 1));
        } else {
            break;
        }
    }
}
