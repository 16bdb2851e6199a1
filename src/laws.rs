use vstd::multiset::Multiset;
use vstd::prelude::*;
use crate::board::{at_cell, fresh_slots, occupied, place_on, placed_slot, state_after_placing};
use crate::deal::{every_tile, seat};
use crate::engine::{
    holds, held_by_any, in_pool, player_index_from, NOT_YOUR_TURN, lemma_player_index_found, lemma_tile_index_found,
    player_index, purchase, remove_first, replay, step, tile_index_from,
};
use crate::types::{
    index_of_tile, lemma_index_of_tile, next_player, player_number, TurnState, lemma_tile_of_index, tile_of_index, valid_tile, Action,
    GameView, Hotel, PlayerId, PlayerView, Slot, Tile, TurnResultView, PLAYERS, TILES,
};

verus! {

broadcast use vstd::seq_lib::group_to_multiset_ensures;

/// The sum of the hands of `ps`, as a multiset.
pub open spec fn hands_of(ps: Seq<PlayerView>) -> Multiset<Tile>
    decreases ps.len(),
{
    if ps.len() == 0 {
        Multiset::empty()
    } else {
        hands_of(ps.drop_last()).add(ps.last().tiles.to_multiset())
    }
}

/// The board is laid out cell by cell in row-major order.
pub open spec fn standard_layout(slots: Seq<Slot>) -> bool {
    &&& slots.len() == TILES as int
    &&& forall|k: int| 0 <= k < slots.len() ==> #[trigger] at_cell(slots[k], tile_of_index(k))
}

/// How many slots at the cell of `t` hold a tile.
pub open spec fn board_count(slots: Seq<Slot>, t: Tile) -> nat
    decreases slots.len(),
{
    if slots.len() == 0 {
        0
    } else {
        board_count(slots.drop_last(), t) + if at_cell(slots.last(), t) && slots.last().has_tile {
            1nat
        } else {
            0nat
        }
    }
}

/// How many times `t` occurs in the hands of `ps`.
pub open spec fn hand_count(ps: Seq<PlayerView>, t: Tile) -> nat {
    hands_of(ps).count(t)
}

/// How many times `t` occurs in the undrawn pool of `g`.
pub open spec fn pool_count(g: GameView, t: Tile) -> nat {
    if in_pool(g, t) {
        1
    } else {
        0
    }
}

/// The tiles on the board, in the hands and in the pool are, together, every
/// tile of the board exactly once.
pub open spec fn tiles_partitioned(g: GameView) -> bool {
    forall|t: Tile|
        #[trigger] board_count(g.slots, t) + hand_count(g.players, t) + pool_count(g, t) == if valid_tile(t) {
            1nat
        } else {
            0nat
        }
}

/// What holds of every game that play can reach: the standard board, the four
/// players in seat order, and the tiles partitioned.
pub open spec fn well_formed(g: GameView) -> bool {
    &&& standard_layout(g.slots)
    &&& g.players.len() == PLAYERS as int
    &&& forall|i: int| 0 <= i < PLAYERS ==> (#[trigger] g.players[i]).id == seat(i)
    &&& tiles_partitioned(g)
}

proof fn lemma_at_cell_index(slots: Seq<Slot>, t: Tile, k: int)
    requires
        standard_layout(slots),
        0 <= k < slots.len(),
    ensures
        at_cell(slots[k], t) <==> (valid_tile(t) && index_of_tile(t) == k),
{
    lemma_tile_of_index(k);
    assert(at_cell(slots[k], tile_of_index(k)));
    if valid_tile(t) {
        lemma_index_of_tile(t);
    }
}

proof fn lemma_board_count_prefix(slots: Seq<Slot>, t: Tile, n: int)
    requires
        standard_layout(slots),
        0 <= n <= slots.len(),
    ensures
        board_count(slots.subrange(0, n), t) == if valid_tile(t) && index_of_tile(t) < n
            && slots[index_of_tile(t)].has_tile {
            1nat
        } else {
            0nat
        },
    decreases n,
{
    if n > 0 {
        assert(slots.subrange(0, n).drop_last() =~= slots.subrange(0, n - 1));
        lemma_board_count_prefix(slots, t, n - 1);
        lemma_at_cell_index(slots, t, n - 1);
    }
}

/// On the standard board a tile is counted once where its slot holds one.
pub proof fn lemma_board_count(slots: Seq<Slot>, t: Tile)
    requires
        standard_layout(slots),
    ensures
        board_count(slots, t) == if valid_tile(t) && slots[index_of_tile(t)].has_tile {
            1nat
        } else {
            0nat
        },
        occupied(slots, t) == (valid_tile(t) && slots[index_of_tile(t)].has_tile),
{
    lemma_board_count_prefix(slots, t, slots.len() as int);
    assert(slots.subrange(0, slots.len() as int) =~= slots);
    if valid_tile(t) {
        lemma_index_of_tile(t);
        lemma_at_cell_index(slots, t, index_of_tile(t));
    }
    if occupied(slots, t) {
        let k = choose|k: int| 0 <= k < slots.len() && at_cell(#[trigger] slots[k], t) && slots[k].has_tile;
        lemma_at_cell_index(slots, t, k);
    }
}

proof fn lemma_hands_update(ps: Seq<PlayerView>, i: int, p: PlayerView, t: Tile)
    requires
        0 <= i < ps.len(),
    ensures
        hand_count(ps.update(i, p), t) == hand_count(ps, t) - ps[i].tiles.to_multiset().count(t)
            + p.tiles.to_multiset().count(t),
    decreases ps.len(),
{
    let q = ps.update(i, p);
    if i == ps.len() - 1 {
        assert(q.drop_last() =~= ps.drop_last());
    } else {
        assert(q.drop_last() =~= ps.drop_last().update(i, p));
        lemma_hands_update(ps.drop_last(), i, p, t);
    }
}

proof fn lemma_held(ps: Seq<PlayerView>, t: Tile)
    ensures
        held_by_any(ps, t) == (hand_count(ps, t) > 0),
    decreases ps.len(),
{
    if ps.len() > 0 {
        lemma_held(ps.drop_last(), t);
        if held_by_any(ps, t) {
            let i = choose|i: int| 0 <= i < ps.len() && (#[trigger] ps[i]).tiles.contains(t);
            if i < ps.len() - 1 {
                assert(ps.drop_last()[i] == ps[i]);
            }
        }
        if held_by_any(ps.drop_last(), t) {
            let i = choose|i: int|
                0 <= i < ps.drop_last().len() && (#[trigger] ps.drop_last()[i]).tiles.contains(t);
            assert(ps[i] == ps.drop_last()[i]);
        }
        if ps.last().tiles.contains(t) {
            assert(ps[ps.len() - 1].tiles.contains(t));
        }
    }
}

proof fn lemma_pool(g: GameView, t: Tile)
    requires
        standard_layout(g.slots),
    ensures
        in_pool(g, t) == (valid_tile(t) && board_count(g.slots, t) == 0 && hand_count(g.players, t)
            == 0),
{
    lemma_board_count(g.slots, t);
    lemma_held(g.players, t);
}

proof fn lemma_place_keeps(g: GameView, who: PlayerId, t: Tile)
    requires
        well_formed(g),
        step(g, Action::PlaceTile { player: who, tile: t }) is Success,
    ensures
        well_formed(step(g, Action::PlaceTile { player: who, tile: t })->Success_0),
{
    let h = step(g, Action::PlaceTile { player: who, tile: t })->Success_0;
    let i = player_index(g.players, who);
    lemma_player_index_found(g.players, who, 0);
    let ts = g.players[i].tiles;
    lemma_tile_index_found(ts, t, 0);
    let k = tile_index_from(ts, t, 0);
    let np = PlayerView { tiles: remove_first(ts, t), ..g.players[i] };
    assert(h.players == g.players.update(i, np));
    assert(h.slots == place_on(g.slots, t));
    assert(standard_layout(h.slots)) by {
        assert forall|j: int| 0 <= j < h.slots.len() implies #[trigger] at_cell(h.slots[j], tile_of_index(j)) by {
            assert(at_cell(g.slots[j], tile_of_index(j)));
            assert(h.slots[j] == placed_slot(g.slots[j], t));
        }
    }
    assert(forall|j: int| 0 <= j < PLAYERS ==> (#[trigger] h.players[j]).id == seat(j)) by {
        assert forall|j: int| 0 <= j < PLAYERS implies (#[trigger] h.players[j]).id == seat(j) by {
            assert(g.players[j].id == seat(j));
        }
    }
    assert forall|t2: Tile| #[trigger] board_count(h.slots, t2) + hand_count(h.players, t2)
        + pool_count(h, t2) == if valid_tile(t2) { 1nat } else { 0nat } by {
        assert(board_count(g.slots, t2) + hand_count(g.players, t2) + pool_count(g, t2) == if valid_tile(t2) { 1nat } else { 0nat });
        lemma_board_count(g.slots, t2);
        lemma_board_count(h.slots, t2);
        lemma_board_count(g.slots, t);
        lemma_pool(g, t2);
        lemma_pool(h, t2);
        lemma_hands_update(g.players, i, np, t2);
        lemma_held(g.players, t);
        assert(g.players[i].tiles.contains(t));
        if valid_tile(t2) {
            lemma_index_of_tile(t2);
            assert(h.slots[index_of_tile(t2)] == placed_slot(g.slots[index_of_tile(t2)], t));
            lemma_at_cell_index(g.slots, t, index_of_tile(t2));
        }
        assert(ts.remove(k).to_multiset() == ts.to_multiset().remove(t));
        if t2 == t {
            assert(held_by_any(g.players, t)) by {
                assert(g.players[i].tiles.contains(t));
            }
        }
    }
}

proof fn lemma_draw_keeps(g: GameView, t: Tile)
    requires
        well_formed(g),
        step(g, Action::DrawTile { tile: t }) is Success,
    ensures
        well_formed(step(g, Action::DrawTile { tile: t })->Success_0),
{
    let h = step(g, Action::DrawTile { tile: t })->Success_0;
    let i = player_index(g.players, g.turn);
    lemma_player_index_found(g.players, g.turn, 0);
    let np = PlayerView { tiles: g.players[i].tiles.push(t), ..g.players[i] };
    assert(h.players == g.players.update(i, np));
    assert(forall|j: int| 0 <= j < PLAYERS ==> (#[trigger] h.players[j]).id == seat(j)) by {
        assert forall|j: int| 0 <= j < PLAYERS implies (#[trigger] h.players[j]).id == seat(j) by {
            assert(g.players[j].id == seat(j));
        }
    }
    assert forall|t2: Tile| #[trigger] board_count(h.slots, t2) + hand_count(h.players, t2)
        + pool_count(h, t2) == if valid_tile(t2) { 1nat } else { 0nat } by {
        assert(board_count(g.slots, t2) + hand_count(g.players, t2) + pool_count(g, t2) == if valid_tile(t2) { 1nat } else { 0nat });
        lemma_pool(g, t2);
        lemma_pool(h, t2);
        lemma_pool(g, t);
        lemma_hands_update(g.players, i, np, t2);
    }
}

proof fn lemma_buy_keeps(
    g: GameView,
    who: PlayerId,
    h1: Option<Hotel>,
    h2: Option<Hotel>,
    h3: Option<Hotel>,
)
    requires
        well_formed(g),
        step(g, Action::BuyStocks { player: who, hotel1: h1, hotel2: h2, hotel3: h3 }) is Success,
    ensures
        well_formed(
            step(g, Action::BuyStocks { player: who, hotel1: h1, hotel2: h2, hotel3: h3 })->Success_0,
        ),
{
    let h = step(g, Action::BuyStocks { player: who, hotel1: h1, hotel2: h2, hotel3: h3 })->Success_0;
    let i = player_index(g.players, who);
    lemma_player_index_found(g.players, who, 0);
    let np = purchase(g.slots, g.players[i], h1, h2, h3)->Ok_0;
    assert(h.players == g.players.update(i, np));
    assert(np.tiles == g.players[i].tiles && np.id == g.players[i].id);
    assert(forall|j: int| 0 <= j < PLAYERS ==> (#[trigger] h.players[j]).id == seat(j)) by {
        assert forall|j: int| 0 <= j < PLAYERS implies (#[trigger] h.players[j]).id == seat(j) by {
            assert(g.players[j].id == seat(j));
        }
    }
    assert forall|t2: Tile| #[trigger] board_count(h.slots, t2) + hand_count(h.players, t2)
        + pool_count(h, t2) == if valid_tile(t2) { 1nat } else { 0nat } by {
        assert(board_count(g.slots, t2) + hand_count(g.players, t2) + pool_count(g, t2) == if valid_tile(t2) { 1nat } else { 0nat });
        lemma_pool(g, t2);
        lemma_pool(h, t2);
        lemma_hands_update(g.players, i, np, t2);
    }
}

/// Every accepted action keeps a game well formed; in particular the tiles on
/// the board, in the hands and in the pool stay a partition of all tiles.
pub proof fn lemma_step_keeps_well_formed(g: GameView, a: Action)
    requires
        well_formed(g),
        step(g, a) is Success,
    ensures
        well_formed(step(g, a)->Success_0),
{
    match a {
        Action::PlaceTile { player, tile } => lemma_place_keeps(g, player, tile),
        Action::DrawTile { tile } => lemma_draw_keeps(g, tile),
        Action::BuyStocks { player, hotel1, hotel2, hotel3 } => lemma_buy_keeps(
            g,
            player,
            hotel1,
            hotel2,
            hotel3,
        ),
        _ => {},
    }
}

/// Replaying any log from a well-formed snapshot leads, if it succeeds, to a
/// well-formed game: every reachable game keeps its tiles partitioned.
pub proof fn lemma_replay_keeps_well_formed(g: GameView, log: Seq<Action>)
    requires
        well_formed(g),
        replay(g, log) is Success,
    ensures
        well_formed(replay(g, log)->Success_0),
    decreases log.len(),
{
    if log.len() > 0 {
        lemma_replay_keeps_well_formed(g, log.drop_last());
        lemma_step_keeps_well_formed(replay(g, log.drop_last())->Success_0, log.last());
    }
}

/// Every tile of the board occurs exactly once in the list of all tiles.
pub proof fn lemma_every_tile_count(t: Tile)
    ensures
        every_tile().to_multiset().count(t) == if valid_tile(t) {
            1nat
        } else {
            0nat
        },
{
    let all = every_tile();
    assert(all.no_duplicates()) by {
        assert forall|a: int, b: int| 0 <= a < all.len() && 0 <= b < all.len() && a != b implies all[a]
            != all[b] by {
            lemma_tile_of_index(a);
            lemma_tile_of_index(b);
        }
    }
    all.lemma_multiset_has_no_duplicates();
    if valid_tile(t) {
        lemma_index_of_tile(t);
        assert(all[index_of_tile(t)] == t);
        assert(all.contains(t));
    } else {
        assert forall|k: int| 0 <= k < all.len() implies all[k] != t by {
            lemma_tile_of_index(k);
        }
        assert(!all.contains(t));
    }
}

/// A game dealt from every tile of the board: `start` on the board, the hands,
/// and `rest` in the pool, the players in seat order, is well formed.
pub proof fn lemma_deal_well_formed(g: GameView, start: Seq<Tile>, rest: Seq<Tile>)
    requires
        g.slots == fresh_slots(start),
        g.players.len() == PLAYERS as int,
        forall|i: int| 0 <= i < PLAYERS ==> (#[trigger] g.players[i]).id == seat(i),
        start.to_multiset().add(hands_of(g.players)).add(rest.to_multiset())
            == every_tile().to_multiset(),
    ensures
        well_formed(g),
{
    assert(standard_layout(g.slots)) by {
        assert forall|k: int| 0 <= k < g.slots.len() implies #[trigger] at_cell(
            g.slots[k],
            tile_of_index(k),
        ) by {}
    }
    assert forall|t: Tile| #[trigger] board_count(g.slots, t) + hand_count(g.players, t)
        + pool_count(g, t) == if valid_tile(t) { 1nat } else { 0nat } by {
        lemma_every_tile_count(t);
        lemma_board_count(g.slots, t);
        lemma_pool(g, t);
        if valid_tile(t) {
            lemma_index_of_tile(t);
            assert(g.slots[index_of_tile(t)].has_tile == start.contains(t));
        }
    }
}

/// How many slots hold a tile.
pub open spec fn tiles_on_board(slots: Seq<Slot>) -> nat
    decreases slots.len(),
{
    if slots.len() == 0 {
        0
    } else {
        tiles_on_board(slots.drop_last()) + if slots.last().has_tile {
            1nat
        } else {
            0nat
        }
    }
}

proof fn lemma_tiles_on_board_update(slots: Seq<Slot>, k: int, s: Slot)
    requires
        0 <= k < slots.len(),
    ensures
        tiles_on_board(slots.update(k, s)) == tiles_on_board(slots) - (if slots[k].has_tile {
            1int
        } else {
            0int
        }) + (if s.has_tile {
            1int
        } else {
            0int
        }),
    decreases slots.len(),
{
    let u = slots.update(k, s);
    if k == slots.len() - 1 {
        assert(u.drop_last() =~= slots.drop_last());
    } else {
        assert(u.drop_last() =~= slots.drop_last().update(k, s));
        lemma_tiles_on_board_update(slots.drop_last(), k, s);
    }
}

proof fn lemma_tiles_on_empty_board(slots: Seq<Slot>)
    requires
        forall|k: int| 0 <= k < slots.len() ==> !(#[trigger] slots[k]).has_tile,
    ensures
        tiles_on_board(slots) == 0,
    decreases slots.len(),
{
    if slots.len() > 0 {
        lemma_tiles_on_empty_board(slots.drop_last());
    }
}

/// A fresh board on which distinct tiles of the board are laid holds exactly
/// as many tiles as were laid.
pub proof fn lemma_fresh_board_count(start: Seq<Tile>)
    requires
        start.no_duplicates(),
        forall|i: int| 0 <= i < start.len() ==> valid_tile(#[trigger] start[i]),
    ensures
        tiles_on_board(fresh_slots(start)) == start.len(),
    decreases start.len(),
{
    if start.len() == 0 {
        lemma_tiles_on_empty_board(fresh_slots(start));
    } else {
        let before = start.drop_last();
        let t = start.last();
        lemma_fresh_board_count(before);
        lemma_index_of_tile(t);
        let k = index_of_tile(t);
        let old_slots = fresh_slots(before);
        assert(!before.contains(t));
        assert(fresh_slots(start) =~= old_slots.update(k, Slot { has_tile: true, ..old_slots[k] })) by {
            assert forall|j: int| 0 <= j < old_slots.len() implies #[trigger] fresh_slots(start)[j]
                == old_slots.update(k, Slot { has_tile: true, ..old_slots[k] })[j] by {
                lemma_tile_of_index(j);
                if j != k {
                    assert(tile_of_index(j) != t);
                }
                assert(start =~= before.push(t));
            }
        }
        lemma_tiles_on_board_update(old_slots, k, Slot { has_tile: true, ..old_slots[k] });
    }
}

/// In a well-formed game the player with identity `id` sits at position
/// `id - 1`.
pub proof fn lemma_seat_index(g: GameView, id: PlayerId)
    requires
        well_formed(g),
    ensures
        player_index(g.players, id) == player_number(id) - 1,
{
    reveal_with_fuel(player_index_from, 5);
    assert(g.players[0].id == seat(0));
    assert(g.players[1].id == seat(1));
    assert(g.players[2].id == seat(2));
    assert(g.players[3].id == seat(3));
}

/// A placement by any player other than the turn holder is refused, whatever
/// the tile.
pub proof fn lemma_place_out_of_turn(g: GameView, who: PlayerId, t: Tile)
    requires
        who != g.turn,
    ensures
        step(g, Action::PlaceTile { player: who, tile: t }) == TurnResultView::Error(NOT_YOUR_TURN@),
{
}

/// A placement of a tile that the acting player does not hold is refused.
pub proof fn lemma_place_unheld(g: GameView, who: PlayerId, t: Tile)
    requires
        !holds(g, who, t),
    ensures
        step(g, Action::PlaceTile { player: who, tile: t }) is Error,
{
}

/// A placement by the turn holder, in the placing phase, of a tile of the board
/// that it holds and whose cell is free succeeds: the cell then holds a tile,
/// no hand holds the tile any more, the turn stays, and the phase follows from
/// the neighbours of the cell.
pub proof fn lemma_place_succeeds(g: GameView, who: PlayerId, t: Tile)
    requires
        well_formed(g),
        who == g.turn,
        g.turn_state == TurnState::Placing,
        valid_tile(t),
        holds(g, who, t),
        !occupied(g.slots, t),
    ensures
        step(g, Action::PlaceTile { player: who, tile: t }) matches TurnResultView::Success(h) && {
            &&& occupied(h.slots, t)
            &&& !held_by_any(h.players, t)
            &&& h.turn == g.turn
            &&& h.turn_state == state_after_placing(g.slots, t)
        },
{
    let h = step(g, Action::PlaceTile { player: who, tile: t })->Success_0;
    lemma_place_keeps(g, who, t);
    let i = player_index(g.players, who);
    lemma_player_index_found(g.players, who, 0);
    lemma_held(g.players, t);
    lemma_held(h.players, t);
    lemma_board_count(h.slots, t);
    lemma_pool(g, t);
    lemma_pool(h, t);
    assert(held_by_any(g.players, t)) by {
        assert(g.players[i].tiles.contains(t));
    }
    assert(board_count(g.slots, t) + hand_count(g.players, t) + pool_count(g, t) == 1nat);
    assert(board_count(h.slots, t) + hand_count(h.players, t) + pool_count(h, t) == 1nat);
    lemma_index_of_tile(t);
    assert(h.slots[index_of_tile(t)] == placed_slot(g.slots[index_of_tile(t)], t));
    lemma_at_cell_index(g.slots, t, index_of_tile(t));
}

/// A draw in the placing phase is refused. A draw in a buying or drawing phase
/// of a pool tile succeeds: the tile joins the turn holder's hand, the turn
/// passes to the next player (four to one wraps) and the phase is placing.
pub proof fn lemma_draw_gating(g: GameView, t: Tile)
    ensures
        g.turn_state == TurnState::Placing ==> step(g, Action::DrawTile { tile: t }) is Error,
        well_formed(g) && (g.turn_state == TurnState::Drawing || g.turn_state
            == TurnState::BuyingOrDrawing) && in_pool(g, t) ==> (step(g, Action::DrawTile { tile: t })
            matches TurnResultView::Success(h) && {
            let i = player_number(g.turn) - 1;
            &&& h.players.len() == g.players.len()
            &&& h.players[i].tiles == g.players[i].tiles.push(t)
            &&& forall|j: int| 0 <= j < h.players.len() && j != i ==> h.players[j] == g.players[j]
            &&& h.slots == g.slots
            &&& h.turn == next_player(g.turn)
            &&& h.turn_state == TurnState::Placing
        }),
{
    if well_formed(g) {
        lemma_seat_index(g, g.turn);
    }
}

/// Replay is a function of the snapshot and the log: replaying the same log
/// against the same snapshot twice gives the same outcome.
pub proof fn lemma_replay_deterministic(g1: GameView, g2: GameView, log1: Seq<Action>, log2: Seq<Action>)
    requires
        g1 == g2,
        log1 == log2,
    ensures
        replay(g1, log1) == replay(g2, log2),
{
}

/// Appending an action to a log gives, on the next replay, the outcome of that
/// action on the state the log replays to; a log that already fails keeps its
/// first refusal.
pub proof fn lemma_replay_append(g: GameView, log: Seq<Action>, a: Action)
    ensures
        replay(g, log.push(a)) == match replay(g, log) {
            TurnResultView::Success(h) => step(h, a),
            TurnResultView::Error(m) => TurnResultView::Error(m),
        },
{
    assert(log.push(a).drop_last() =~= log);
}

} // verus!
