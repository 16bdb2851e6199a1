use vstd::prelude::*;
use crate::board::{
    is_occupied, occupied, place_on, place_tile_on_board, state_after_place_tile,
    state_after_placing, has_tile_on_slot,
};
use crate::pricing::{
    add_share, cost_of, share_count, share_price, shares_of, with_share,
};
use crate::types::{
    next_player, players_view, valid_tile, Action, Board, Game, GameView, Hotel, Player, PlayerId,
    PlayerShares, PlayerView, Slot, Tile, TurnResult, TurnResultView, TurnState, COLS, ROWS,
};

verus! {

/// Refusal of an action by a player who does not hold the turn.
pub const NOT_YOUR_TURN: &'static str = "player does not have the turn";

/// Refusal of a placement outside the placing phase of a turn.
pub const NOT_PLACING: &'static str = "the current turn is not in its placing phase";

/// Refusal of a placement of a tile that lies off the board.
pub const OFF_BOARD: &'static str = "tile lies off the board";

/// Refusal of a placement of a tile that the player does not hold.
pub const TILE_NOT_HELD: &'static str = "player does not have the tile";

/// Refusal of a placement on a cell that already holds a tile.
pub const ALREADY_PLACED: &'static str = "tile has already been placed";

/// Refusal of a draw outside the buying and drawing phases.
pub const CANNOT_DRAW: &'static str = "player is not allowed to draw a tile";

/// Refusal of a draw of a tile that is not in the undrawn pool.
pub const NOT_IN_POOL: &'static str = "tile is not in the undrawn pool";

/// Refusal of an action of a player who is not part of the game.
pub const UNKNOWN_PLAYER: &'static str = "player is not part of the game";

/// Refusal of a purchase that the player cannot pay for.
pub const INSUFFICIENT_FUNDS: &'static str = "player cannot pay for the shares";

/// Refusal of a purchase that would take a share count past its limit.
pub const TOO_MANY_SHARES: &'static str = "share count would exceed its limit";

/// Refusal of an action that has no transition yet.
pub const UNSUPPORTED: &'static str = "action has no defined transition";

/// Index of the first player from position `i` on whose identity is `id`, or -1.
pub open spec fn player_index_from(ps: Seq<PlayerView>, id: PlayerId, i: int) -> int
    decreases ps.len() - i,
{
    if i < 0 || i >= ps.len() {
        -1
    } else if ps[i].id == id {
        i
    } else {
        player_index_from(ps, id, i + 1)
    }
}

/// Index of the first player whose identity is `id`, or -1.
pub open spec fn player_index(ps: Seq<PlayerView>, id: PlayerId) -> int {
    player_index_from(ps, id, 0)
}

/// Index of the first occurrence of `t` from position `i` on, or -1.
pub open spec fn tile_index_from(ts: Seq<Tile>, t: Tile, i: int) -> int
    decreases ts.len() - i,
{
    if i < 0 || i >= ts.len() {
        -1
    } else if ts[i] == t {
        i
    } else {
        tile_index_from(ts, t, i + 1)
    }
}

/// `ts` without the first occurrence of `t`.
pub open spec fn remove_first(ts: Seq<Tile>, t: Tile) -> Seq<Tile> {
    ts.remove(tile_index_from(ts, t, 0))
}

/// The player `who` of the game holds `t` in hand.
pub open spec fn holds(g: GameView, who: PlayerId, t: Tile) -> bool {
    let i = player_index(g.players, who);
    i >= 0 && g.players[i].tiles.contains(t)
}

/// Some player holds `t` in hand.
pub open spec fn held_by_any(ps: Seq<PlayerView>, t: Tile) -> bool {
    exists|i: int| 0 <= i < ps.len() && (#[trigger] ps[i]).tiles.contains(t)
}

/// `t` is in the undrawn pool: a tile of the board, neither placed nor held.
pub open spec fn in_pool(g: GameView, t: Tile) -> bool {
    valid_tile(t) && !occupied(g.slots, t) && !held_by_any(g.players, t)
}

/// The shares after buying one more of the optional hotel, or `None` once a
/// count would pass 255.
pub open spec fn buy_one(s: Option<PlayerShares>, h: Option<Hotel>) -> Option<PlayerShares> {
    match (s, h) {
        (Some(s), Some(h)) => if share_count(s, h) < 255 {
            Some(with_share(s, h))
        } else {
            None
        },
        _ => s,
    }
}

/// The outcome of `who` placing `t`.
pub open spec fn place_step(g: GameView, who: PlayerId, t: Tile) -> TurnResultView {
    let i = player_index(g.players, who);
    if who != g.turn {
        TurnResultView::Error(NOT_YOUR_TURN@)
    } else if g.turn_state != TurnState::Placing {
        TurnResultView::Error(NOT_PLACING@)
    } else if !valid_tile(t) {
        TurnResultView::Error(OFF_BOARD@)
    } else if !holds(g, who, t) {
        TurnResultView::Error(TILE_NOT_HELD@)
    } else if occupied(g.slots, t) {
        TurnResultView::Error(ALREADY_PLACED@)
    } else {
        TurnResultView::Success(
            GameView {
                players: g.players.update(
                    i,
                    PlayerView { tiles: remove_first(g.players[i].tiles, t), ..g.players[i] },
                ),
                slots: place_on(g.slots, t),
                turn: g.turn,
                turn_state: state_after_placing(g.slots, t),
            },
        )
    }
}

/// The player after buying one share of each hotel given on the board
/// `slots`, each at its current price, or why the purchase is refused.
pub open spec fn purchase(
    slots: Seq<Slot>,
    p: PlayerView,
    h1: Option<Hotel>,
    h2: Option<Hotel>,
    h3: Option<Hotel>,
) -> Result<PlayerView, Seq<char>> {
    let cost = cost_of(slots, h1) + cost_of(slots, h2) + cost_of(slots, h3);
    let shares = buy_one(buy_one(buy_one(Some(p.shares), h1), h2), h3);
    if shares is None {
        Err(TOO_MANY_SHARES@)
    } else if cost > p.money {
        Err(INSUFFICIENT_FUNDS@)
    } else {
        Ok(PlayerView { money: (p.money - cost) as i32, shares: shares->0, ..p })
    }
}

/// The outcome of `who` buying one share of each hotel given.
pub open spec fn buy_step(
    g: GameView,
    who: PlayerId,
    h1: Option<Hotel>,
    h2: Option<Hotel>,
    h3: Option<Hotel>,
) -> TurnResultView {
    let i = player_index(g.players, who);
    if who != g.turn {
        TurnResultView::Error(NOT_YOUR_TURN@)
    } else if i < 0 {
        TurnResultView::Error(UNKNOWN_PLAYER@)
    } else {
        match purchase(g.slots, g.players[i], h1, h2, h3) {
            Ok(p) => TurnResultView::Success(
                GameView {
                    players: g.players.update(i, p),
                    turn_state: TurnState::Drawing,
                    ..g
                },
            ),
            Err(m) => TurnResultView::Error(m),
        }
    }
}

/// The outcome of the turn holder drawing `t` from the pool.
pub open spec fn draw_step(g: GameView, t: Tile) -> TurnResultView {
    let i = player_index(g.players, g.turn);
    if g.turn_state != TurnState::Drawing && g.turn_state != TurnState::BuyingOrDrawing {
        TurnResultView::Error(CANNOT_DRAW@)
    } else if !in_pool(g, t) {
        TurnResultView::Error(NOT_IN_POOL@)
    } else if i < 0 {
        TurnResultView::Error(UNKNOWN_PLAYER@)
    } else {
        TurnResultView::Success(
            GameView {
                players: g.players.update(
                    i,
                    PlayerView { tiles: g.players[i].tiles.push(t), ..g.players[i] },
                ),
                slots: g.slots,
                turn: next_player(g.turn),
                turn_state: TurnState::Placing,
            },
        )
    }
}

/// The outcome of applying `a` to the game `g`.
pub open spec fn step(g: GameView, a: Action) -> TurnResultView {
    match a {
        Action::PlaceTile { player, tile } => place_step(g, player, tile),
        Action::BuyStocks { player, hotel1, hotel2, hotel3 } => buy_step(
            g,
            player,
            hotel1,
            hotel2,
            hotel3,
        ),
        Action::DrawTile { tile } => draw_step(g, tile),
        Action::HandleMergeStocks { .. } => TurnResultView::Error(UNSUPPORTED@),
        Action::EndGame => TurnResultView::Error(UNSUPPORTED@),
    }
}

/// The outcome of applying the log `log` in order to `g`, stopping at the
/// first refusal.
pub open spec fn replay(g: GameView, log: Seq<Action>) -> TurnResultView
    decreases log.len(),
{
    if log.len() == 0 {
        TurnResultView::Success(g)
    } else {
        match replay(g, log.drop_last()) {
            TurnResultView::Success(h) => step(h, log.last()),
            TurnResultView::Error(m) => TurnResultView::Error(m),
        }
    }
}


fn refuse(msg: &str) -> (r: TurnResult)
    ensures
        r@ == TurnResultView::Error(msg@),
{
    TurnResult::Error(msg.to_owned())
}

/// Position of the first player whose identity is `id`.
pub fn find_player(players: &Vec<Player>, id: PlayerId) -> (r: Option<usize>)
    ensures
        r matches Some(i) ==> player_index(players_view(players@), id) == i && i < players@.len(),
        r is None ==> player_index(players_view(players@), id) == -1,
{
    let ghost ps = players_view(players@);
    let mut i: usize = 0;
    while i < players.len()
        invariant
            i <= players@.len(),
            ps == players_view(players@),
            player_index(ps, id) == player_index_from(ps, id, i as int),
        decreases players@.len() - i,
    {
        if players[i].id == id {
            return Some(i);
        }
        i = i + 1;
    }
    None
}

/// Position of the first occurrence of `tile` in `tiles`.
fn find_tile(tiles: &Vec<Tile>, tile: &Tile) -> (r: Option<usize>)
    ensures
        r matches Some(i) ==> tile_index_from(tiles@, *tile, 0) == i && i < tiles@.len(),
        r is None ==> tile_index_from(tiles@, *tile, 0) == -1,
{
    let mut i: usize = 0;
    while i < tiles.len()
        invariant
            i <= tiles@.len(),
            tile_index_from(tiles@, *tile, 0) == tile_index_from(tiles@, *tile, i as int),
        decreases tiles@.len() - i,
    {
        if tiles[i] == *tile {
            return Some(i);
        }
        i = i + 1;
    }
    None
}

pub proof fn lemma_tile_index_found(ts: Seq<Tile>, t: Tile, i: int)
    requires
        0 <= i,
    ensures
        tile_index_from(ts, t, i) >= 0 <==> exists|k: int| i <= k < ts.len() && ts[k] == t,
        tile_index_from(ts, t, i) >= 0 ==> i <= tile_index_from(ts, t, i) < ts.len() && ts[tile_index_from(ts, t, i)] == t,
    decreases ts.len() - i,
{
    if i < ts.len() && ts[i] != t {
        lemma_tile_index_found(ts, t, i + 1);
        if exists|k: int| i <= k < ts.len() && ts[k] == t {
            let k = choose|k: int| i <= k < ts.len() && ts[k] == t;
            assert(i + 1 <= k < ts.len() && ts[k] == t);
        }
    }
}

pub proof fn lemma_player_index_found(ps: Seq<PlayerView>, id: PlayerId, i: int)
    requires
        0 <= i,
    ensures
        player_index_from(ps, id, i) >= 0 ==> i <= player_index_from(ps, id, i) < ps.len()
            && ps[player_index_from(ps, id, i)].id == id,
        player_index_from(ps, id, i) == -1 || player_index_from(ps, id, i) >= 0,
    decreases ps.len() - i,
{
    if i < ps.len() && ps[i].id != id {
        lemma_player_index_found(ps, id, i + 1);
    }
}

/// A copy of a hand.
fn copy_tiles(tiles: &Vec<Tile>) -> (r: Vec<Tile>)
    ensures
        r@ == tiles@,
{
    let mut out: Vec<Tile> = Vec::new();
    for i in 0..tiles.len()
        invariant
            out@ == tiles@.subrange(0, i as int),
    {
        out.push(tiles[i]);
        assert(out@ =~= tiles@.subrange(0, i + 1));
    }
    assert(out@ =~= tiles@);
    out
}

/// A copy of a player.
fn copy_player(p: &Player) -> (r: Player)
    ensures
        r@ == p@,
{
    Player { id: p.id, money: p.money, shares: p.shares, tiles: copy_tiles(&p.tiles) }
}

/// A copy of a list of players.
fn copy_players(players: &Vec<Player>) -> (r: Vec<Player>)
    ensures
        players_view(r@) == players_view(players@),
{
    let mut out: Vec<Player> = Vec::new();
    for i in 0..players.len()
        invariant
            out@.len() == i,
            forall|k: int| 0 <= k < i ==> (#[trigger] out@[k])@ == players@[k]@,
    {
        out.push(copy_player(&players[i]));
    }
    assert(players_view(out@) =~= players_view(players@));
    out
}

/// A copy of a board.
fn copy_board(board: &Board) -> (r: Board)
    ensures
        r.slots@ == board.slots@,
{
    let mut slots: Vec<Slot> = Vec::new();
    for i in 0..board.slots.len()
        invariant
            slots@ == board.slots@.subrange(0, i as int),
    {
        slots.push(board.slots[i]);
        assert(slots@ =~= board.slots@.subrange(0, i + 1));
    }
    assert(slots@ =~= board.slots@);
    Board { slots }
}

/// A copy of a game.
fn copy_game(game: &Game) -> (r: Game)
    ensures
        r@ == game@,
{
    Game {
        players: copy_players(&game.players),
        board: copy_board(&game.board),
        turn: game.turn,
        turn_state: game.turn_state,
    }
}

/// `players` with the player at `index` replaced by `p`.
fn replace_player(players: Vec<Player>, index: usize, p: Player) -> (r: Vec<Player>)
    requires
        index < players@.len(),
    ensures
        players_view(r@) == players_view(players@).update(index as int, p@),
{
    let mut players = players;
    let ghost before = players@;
    players.set(index, p);
    assert(players_view(players@) =~= players_view(before).update(index as int, p@));
    players
}

/// Whether the player `player` holds the turn.
pub fn game_player_has_turn(game: &Game, player: PlayerId) -> (r: bool)
    ensures
        r == (game.turn == player),
{
    game.turn == player
}

/// Whether `player` holds `tile` in hand.
pub fn player_has_tile(player: &Player, tile: &Tile) -> (r: bool)
    ensures
        r == player@.tiles.contains(*tile),
{
    has_tile_on_slot(&player.tiles, tile.row, tile.col)
}

/// Whether the player `player` of the game holds `tile` in hand.
pub fn game_player_has_tile(game: &Game, player: PlayerId, tile: &Tile) -> (r: bool)
    ensures
        r == holds(game@, player, *tile),
{
    match find_player(&game.players, player) {
        Some(i) => player_has_tile(&game.players[i], tile),
        None => false,
    }
}

/// Whether some player holds `tile` in hand.
pub fn tile_is_held(players: &Vec<Player>, tile: &Tile) -> (r: bool)
    ensures
        r == held_by_any(players_view(players@), *tile),
{
    let ghost ps = players_view(players@);
    for i in 0..players.len()
        invariant
            ps == players_view(players@),
            forall|k: int| 0 <= k < i ==> !(#[trigger] ps[k]).tiles.contains(*tile),
    {
        if player_has_tile(&players[i], tile) {
            assert(ps[i as int].tiles.contains(*tile));
            return true;
        }
    }
    false
}


/// `players` with the first occurrence of `tile` taken out of the hand of the
/// first player whose identity is `player_id`.
pub fn remove_tile_from_player(players: Vec<Player>, player_id: PlayerId, tile: &Tile) -> (r: Vec<
    Player,
>)
    requires
        player_index(players_view(players@), player_id) >= 0,
        players_view(players@)[player_index(players_view(players@), player_id)].tiles.contains(
            *tile,
        ),
    ensures
        ({
            let ps = players_view(players@);
            let i = player_index(ps, player_id);
            players_view(r@) == ps.update(
                i,
                PlayerView { tiles: remove_first(ps[i].tiles, *tile), ..ps[i] },
            )
        }),
{
    let ghost ps = players_view(players@);
    proof {
        lemma_player_index_found(ps, player_id, 0);
    }
    match find_player(&players, player_id) {
        Some(i) => {
            let mut tiles = copy_tiles(&players[i].tiles);
            proof {
                lemma_tile_index_found(tiles@, *tile, 0);
            }
            match find_tile(&tiles, tile) {
                Some(j) => {
                    tiles.remove(j);
                },
                None => {},
            }
            assert(tiles@ =~= remove_first(ps[i as int].tiles, *tile));
            let p = Player {
                id: players[i].id,
                money: players[i].money,
                shares: players[i].shares,
                tiles,
            };
            replace_player(players, i, p)
        },
        None => players,
    }
}

/// `players` with `tile` added to the hand of the first player whose identity
/// is `player_id`.
pub fn add_tile_to_player(players: Vec<Player>, player_id: PlayerId, tile: &Tile) -> (r: Vec<
    Player,
>)
    requires
        player_index(players_view(players@), player_id) >= 0,
    ensures
        ({
            let ps = players_view(players@);
            let i = player_index(ps, player_id);
            players_view(r@) == ps.update(i, PlayerView { tiles: ps[i].tiles.push(*tile), ..ps[i] })
        }),
{
    let ghost ps = players_view(players@);
    proof {
        lemma_player_index_found(ps, player_id, 0);
    }
    match find_player(&players, player_id) {
        Some(i) => {
            let mut tiles = copy_tiles(&players[i].tiles);
            tiles.push(*tile);
            let p = Player {
                id: players[i].id,
                money: players[i].money,
                shares: players[i].shares,
                tiles,
            };
            replace_player(players, i, p)
        },
        None => players,
    }
}

/// Places `tile` from the hand of `player_id` on the board.
///
/// Refused, leaving the game as it was, when the player does not hold the
/// turn, the turn is not in its placing phase, the tile lies off the board,
/// the player does not hold it, or its cell is already occupied. Otherwise
/// the tile leaves the hand, its slot holds a tile, and the next phase is
/// judged from the neighbours of the cell.
pub fn place_tile(game: &Game, player_id: PlayerId, tile: &Tile) -> (r: TurnResult)
    ensures
        r@ == place_step(game@, player_id, *tile),
{
    if !game_player_has_turn(game, player_id) {
        return refuse(NOT_YOUR_TURN);
    }
    if game.turn_state != TurnState::Placing {
        return refuse(NOT_PLACING);
    }
    if tile.row >= ROWS || tile.col >= COLS {
        return refuse(OFF_BOARD);
    }
    if !game_player_has_tile(game, player_id, tile) {
        return refuse(TILE_NOT_HELD);
    }
    if is_occupied(&game.board.slots, tile) {
        return refuse(ALREADY_PLACED);
    }
    let new_players = remove_tile_from_player(copy_players(&game.players), player_id, tile);
    let next = Game {
        board: place_tile_on_board(&game.board, tile),
        players: new_players,
        turn: game.turn,
        turn_state: state_after_place_tile(&game.board.slots, tile),
    };
    TurnResult::Success(next)
}

/// Whether `tile` is in the undrawn pool of the game.
pub fn tile_in_pool(game: &Game, tile: &Tile) -> (r: bool)
    ensures
        r == in_pool(game@, *tile),
{
    tile.row < ROWS && tile.col < COLS && !is_occupied(&game.board.slots, tile) && !tile_is_held(
        &game.players,
        tile,
    )
}

/// The turn holder draws `tile` from the undrawn pool, which ends the turn.
///
/// Refused when the turn is not in a phase that allows drawing or the tile is
/// not in the pool. Otherwise the tile joins the hand of the turn holder, the
/// turn passes to the next player and its phase is placing.
pub fn draw_tile(game: &Game, tile: &Tile) -> (r: TurnResult)
    ensures
        r@ == draw_step(game@, *tile),
{
    if game.turn_state != TurnState::Drawing && game.turn_state != TurnState::BuyingOrDrawing {
        return refuse(CANNOT_DRAW);
    }
    if !tile_in_pool(game, tile) {
        return refuse(NOT_IN_POOL);
    }
    if find_player(&game.players, game.turn).is_none() {
        return refuse(UNKNOWN_PLAYER);
    }
    let new_players = add_tile_to_player(copy_players(&game.players), game.turn, tile);
    TurnResult::Success(
        Game {
            board: copy_board(&game.board),
            players: new_players,
            turn: next_turn(game.turn),
            turn_state: TurnState::Placing,
        },
    )
}

/// The player who moves after `player_id`: 1 -> 2 -> 3 -> 4 -> 1.
pub fn next_turn(player_id: PlayerId) -> (r: PlayerId)
    ensures
        r == next_player(player_id),
{
    match player_id {
        PlayerId::One => PlayerId::Two,
        PlayerId::Two => PlayerId::Three,
        PlayerId::Three => PlayerId::Four,
        PlayerId::Four => PlayerId::One,
    }
}

/// The shares after buying one more of the optional hotel, or `None` once a
/// count would pass its limit.
fn buy_share(shares: Option<PlayerShares>, hotel: Option<Hotel>) -> (r: Option<PlayerShares>)
    ensures
        r == buy_one(shares, hotel),
{
    match (shares, hotel) {
        (Some(s), Some(h)) => {
            if shares_of(&s, h) < 255 {
                Some(add_share(s, h))
            } else {
                None
            }
        },
        _ => shares,
    }
}

/// `player` after buying one share of each hotel given, each charged at its
/// current price on the board `slots`; refused when a share count would pass
/// its limit or the player cannot pay.
pub fn player_buy_stocks(
    slots: &Vec<Slot>,
    player: &Player,
    hotel1: Option<Hotel>,
    hotel2: Option<Hotel>,
    hotel3: Option<Hotel>,
) -> (r: Result<Player, &'static str>)
    ensures
        match r {
            Ok(p) => purchase(slots@, player@, hotel1, hotel2, hotel3) == Ok::<PlayerView, Seq<char>>(p@),
            Err(m) => purchase(slots@, player@, hotel1, hotel2, hotel3) == Err::<PlayerView, Seq<char>>(m@),
        },
{
    let new_shares = buy_share(buy_share(buy_share(Some(player.shares), hotel1), hotel2), hotel3);
    let total_cost = share_price(slots, hotel1) + share_price(slots, hotel2) + share_price(
        slots,
        hotel3,
    );
    match new_shares {
        None => Err(TOO_MANY_SHARES),
        Some(shares) => {
            if total_cost > player.money {
                Err(INSUFFICIENT_FUNDS)
            } else {
                Ok(
                    Player {
                        id: player.id,
                        money: player.money - total_cost,
                        shares,
                        tiles: copy_tiles(&player.tiles),
                    },
                )
            }
        },
    }
}

/// The turn holder `player` buys one share of each hotel given.
///
/// Refused when `player` does not hold the turn or is not part of the game,
/// or when the purchase is refused. Otherwise the player's shares and money
/// change as the purchase says and the turn moves on to drawing.
pub fn buy_stocks(
    game: &Game,
    player: PlayerId,
    hotel1: Option<Hotel>,
    hotel2: Option<Hotel>,
    hotel3: Option<Hotel>,
) -> (r: TurnResult)
    ensures
        r@ == buy_step(game@, player, hotel1, hotel2, hotel3),
{
    if !game_player_has_turn(game, player) {
        return refuse(NOT_YOUR_TURN);
    }
    match find_player(&game.players, player) {
        None => refuse(UNKNOWN_PLAYER),
        Some(i) => {
            match player_buy_stocks(&game.board.slots, &game.players[i], hotel1, hotel2, hotel3) {
                Err(m) => refuse(m),
                Ok(p) => {
                    let players = replace_player(copy_players(&game.players), i, p);
                    TurnResult::Success(
                        Game {
                            board: copy_board(&game.board),
                            players,
                            turn: game.turn,
                            turn_state: TurnState::Drawing,
                        },
                    )
                },
            }
        },
    }
}

/// Applies one action to a game.
///
/// Merger handling and the end of the game have no transition yet: those
/// actions are refused.
pub fn play_turn(game: &Game, action: &Action) -> (r: TurnResult)
    ensures
        r@ == step(game@, *action),
{
    match *action {
        Action::DrawTile { tile } => draw_tile(game, &tile),
        Action::PlaceTile { player, tile } => place_tile(game, player, &tile),
        Action::BuyStocks { player, hotel1, hotel2, hotel3 } => buy_stocks(
            game,
            player,
            hotel1,
            hotel2,
            hotel3,
        ),
        Action::HandleMergeStocks { .. } => refuse(UNSUPPORTED),
        Action::EndGame => refuse(UNSUPPORTED),
    }
}

/// The game that the action log `actions` leads to from `last_state`, or the
/// first refusal met on the way.
pub fn compute_state(last_state: &Game, actions: &Vec<Action>) -> (r: TurnResult)
    ensures
        r@ == replay(last_state@, actions@),
{
    let mut current = copy_game(last_state);
    for i in 0..actions.len()
        invariant
            replay(last_state@, actions@.subrange(0, i as int)) == TurnResultView::Success(
                current@,
            ),
    {
        assert(actions@.subrange(0, i + 1).drop_last() =~= actions@.subrange(0, i as int));
        match play_turn(&current, &actions[i]) {
            TurnResult::Success(next) => {
                current = next;
            },
            TurnResult::Error(m) => {
                proof {
                    lemma_replay_stops(last_state@, actions@, i + 1);
                }
                return TurnResult::Error(m);
            },
        }
    }
    assert(actions@.subrange(0, actions@.len() as int) =~= actions@);
    TurnResult::Success(current)
}

proof fn lemma_replay_stops(g: GameView, log: Seq<Action>, n: int)
    requires
        0 <= n <= log.len(),
        replay(g, log.subrange(0, n)) is Error,
    ensures
        replay(g, log) == replay(g, log.subrange(0, n)),
    decreases log.len() - n,
{
    if n < log.len() {
        assert(log.subrange(0, n + 1).drop_last() =~= log.subrange(0, n));
        lemma_replay_stops(g, log, n + 1);
    } else {
        assert(log.subrange(0, n) =~= log);
    }
}

/// An empty action log.
pub fn new_actions() -> (r: Vec<Action>)
    ensures
        r@ == Seq::<Action>::empty(),
{
    let actions: Vec<Action> = Vec::new();
    actions
}

} // verus!
