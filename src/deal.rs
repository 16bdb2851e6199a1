use vstd::prelude::*;
use crate::board::initial_slots;
use crate::engine::{in_pool, tile_in_pool};
use crate::laws::{
    hands_of, lemma_deal_well_formed, lemma_every_tile_count, lemma_fresh_board_count,
    tiles_on_board, well_formed,
};
use crate::types::{
    index_of_tile, lemma_index_of_tile, lemma_tile_of_index, players_view, tile_of_index,
    valid_tile, Action, Board, Game, Player, PlayerId, PlayerShares, Tile, TurnState, COLS,
    PLAYERS, TILES,
};

verus! {

broadcast use vstd::seq_lib::group_to_multiset_ensures;

/// Relies on `rand::random`: a value drawn from the thread-local generator.
/// Nothing is promised of the value.
pub assume_specification<T>[ rand::random::<T> ]() -> (r: T)
    where
        rand::distributions::Standard: rand::distributions::Distribution<T>,
;

/// Money each player starts with.
pub const STARTING_MONEY: i32 = 6000;

/// Tiles dealt to each player's hand.
pub const HAND_SIZE: u8 = 6;

/// The identity of the player at position `i` of a fresh game.
pub open spec fn seat(i: int) -> PlayerId {
    if i == 0 {
        PlayerId::One
    } else if i == 1 {
        PlayerId::Two
    } else if i == 2 {
        PlayerId::Three
    } else {
        PlayerId::Four
    }
}

/// No shares of any hotel.
pub open spec fn no_shares() -> PlayerShares {
    PlayerShares {
        luxor: 0,
        tower: 0,
        american: 0,
        festival: 0,
        worldwide: 0,
        continental: 0,
        imperial: 0,
    }
}

/// All tiles of the board, in the order of their linear index.
pub open spec fn every_tile() -> Seq<Tile> {
    Seq::new(TILES as nat, |i: int| tile_of_index(i))
}

/// Every tile of the board, ordered by its linear index.
pub fn all_tiles() -> (r: Vec<Tile>)
    ensures
        r@ == every_tile(),
{
    let mut tiles: Vec<Tile> = Vec::new();
    for i in 0..TILES
        invariant
            tiles@ == every_tile().subrange(0, i as int),
    {
        tiles.push(Tile { row: i / COLS, col: i % COLS });
        assert(tiles@ =~= every_tile().subrange(0, i + 1));
    }
    assert(tiles@ =~= every_tile());
    tiles
}

/// Takes the tile at position `seed` modulo the size of the pool out of it.
pub fn take_tile(pool: &mut Vec<Tile>, seed: usize) -> (r: Tile)
    requires
        old(pool)@.len() > 0,
    ensures
        r == old(pool)@[(seed as int % old(pool)@.len() as int)],
        final(pool)@ == old(pool)@.remove((seed as int % old(pool)@.len() as int)),
{
    let index = seed % pool.len();
    pool.remove(index)
}

/// Draws `count` tiles from `tiles` without replacement, each uniformly from
/// what is left; returns the drawn tiles and the rest.
pub fn choose_tiles(tiles: Vec<Tile>, count: u8) -> (r: (Vec<Tile>, Vec<Tile>))
    requires
        count <= tiles@.len(),
    ensures
        r.0@.len() == count,
        r.1@.len() == tiles@.len() - count,
        (r.0@ + r.1@).to_multiset() == tiles@.to_multiset(),
{
    let mut remaining_tiles = tiles;
    let mut random_tiles: Vec<Tile> = Vec::new();
    for i in 0..count
        invariant
            random_tiles@.len() == i,
            remaining_tiles@.len() == tiles@.len() - i,
            count <= tiles@.len(),
            (random_tiles@ + remaining_tiles@).to_multiset() == tiles@.to_multiset(),
    {
        let ghost before_drawn = random_tiles@;
        let ghost before_rest = remaining_tiles@;
        let seed: usize = rand::random::<usize>();
        let t = take_tile(&mut remaining_tiles, seed);
        random_tiles.push(t);
        proof {
            let k = seed as int % before_rest.len() as int;
            vstd::seq_lib::lemma_multiset_commutative(before_drawn, before_rest);
            vstd::seq_lib::lemma_multiset_commutative(random_tiles@, remaining_tiles@);
            assert(before_rest.to_multiset() =~= remaining_tiles@.to_multiset().insert(t));
            assert((random_tiles@ + remaining_tiles@).to_multiset() =~= tiles@.to_multiset());
        }
    }
    (random_tiles, remaining_tiles)
}

/// A player with `tiles` in hand, the starting money and no shares.
pub fn new_player(id: PlayerId, tiles: Vec<Tile>) -> (r: Player)
    ensures
        r.id == id,
        r.money == STARTING_MONEY,
        r.shares == no_shares(),
        r.tiles@ == tiles@,
{
    Player { id, money: STARTING_MONEY, shares: empty_shares(), tiles }
}

/// No shares of any hotel.
pub fn empty_shares() -> (r: PlayerShares)
    ensures
        r == no_shares(),
{
    PlayerShares {
        luxor: 0,
        tower: 0,
        american: 0,
        festival: 0,
        worldwide: 0,
        continental: 0,
        imperial: 0,
    }
}

/// Four players in seat order, each dealt six tiles from `tiles` in turn;
/// returns them and the tiles left over.
pub fn new_players(tiles: Vec<Tile>) -> (r: (Vec<Player>, Vec<Tile>))
    requires
        tiles@.len() >= PLAYERS as int * HAND_SIZE as int,
    ensures
        r.0@.len() == PLAYERS,
        forall|i: int|
            0 <= i < PLAYERS ==> {
                &&& (#[trigger] r.0@[i]).id == seat(i)
                &&& r.0@[i].money == STARTING_MONEY
                &&& r.0@[i].shares == no_shares()
                &&& r.0@[i].tiles@.len() == HAND_SIZE
            },
        hands_of(players_view(r.0@)).add(r.1@.to_multiset()) == tiles@.to_multiset(),
        r.1@.len() == tiles@.len() - PLAYERS as int * HAND_SIZE as int,
{
    let mut players: Vec<Player> = Vec::new();
    let mut remaining = tiles;
    for i in 0..PLAYERS
        invariant
            players@.len() == i,
            forall|k: int|
                0 <= k < i ==> {
                    &&& (#[trigger] players@[k]).id == seat(k)
                    &&& players@[k].money == STARTING_MONEY
                    &&& players@[k].shares == no_shares()
                    &&& players@[k].tiles@.len() == HAND_SIZE
                },
            hands_of(players_view(players@)).add(remaining@.to_multiset()) == tiles@.to_multiset(),
            remaining@.len() == tiles@.len() - i * HAND_SIZE,
            tiles@.len() >= PLAYERS as int * HAND_SIZE as int,
    {
        let ghost before = players@;
        let ghost rest = remaining@;
        let (hand, rest_after) = choose_tiles(remaining, HAND_SIZE);
        remaining = rest_after;
        let id = if i == 0 {
            PlayerId::One
        } else if i == 1 {
            PlayerId::Two
        } else if i == 2 {
            PlayerId::Three
        } else {
            PlayerId::Four
        };
        players.push(new_player(id, hand));
        proof {
            assert(players_view(players@).drop_last() =~= players_view(before));
            vstd::seq_lib::lemma_multiset_commutative(hand@, remaining@);
            assert(hands_of(players_view(players@)).add(remaining@.to_multiset()) =~= tiles@.to_multiset());
        }
    }
    (players, remaining)
}

/// A fresh game: four tiles drawn onto the board, then six into each hand,
/// player one to place.
pub fn new_game() -> (r: Game)
    ensures
        well_formed(r@),
        tiles_on_board(r.board.slots@) == PLAYERS,
        r.turn == PlayerId::One,
        r.turn_state == TurnState::Placing,
        r.players@.len() == PLAYERS,
        forall|i: int|
            0 <= i < PLAYERS ==> {
                &&& (#[trigger] r.players@[i]).id == seat(i)
                &&& r.players@[i].money == STARTING_MONEY
                &&& r.players@[i].shares == no_shares()
                &&& r.players@[i].tiles@.len() == HAND_SIZE
            },
{
    let (starting_tiles, remaining_tiles) = choose_tiles(all_tiles(), PLAYERS);
    let ghost start = starting_tiles@;
    let ghost rest = remaining_tiles@;
    let (players, leftover) = new_players(remaining_tiles);
    let slots = initial_slots(starting_tiles);
    let game = Game {
        board: Board { slots },
        players,
        turn: PlayerId::One,
        turn_state: TurnState::Placing,
    };
    proof {
        vstd::seq_lib::lemma_multiset_commutative(start, rest);
        assert(start.to_multiset().add(hands_of(game@.players)).add(leftover@.to_multiset())
            =~= every_tile().to_multiset());
        lemma_deal_well_formed(game@, start, leftover@);
        assert forall|t: Tile| #[trigger] start.to_multiset().count(t) <= if valid_tile(t) {
            1nat
        } else {
            0nat
        } by {
            lemma_every_tile_count(t);
        }
        assert forall|i: int| 0 <= i < start.len() implies valid_tile(#[trigger] start[i]) by {
            assert(start.contains(start[i]));
            assert(start.to_multiset().count(start[i]) > 0);
            lemma_every_tile_count(start[i]);
        }
        start.lemma_multiset_has_no_duplicates_conv();
        lemma_fresh_board_count(start);
    }
    game
}

/// The undrawn pool of a game: every tile of the board that is neither
/// placed nor held, each once, ordered by linear index.
pub fn get_remaining_tiles(game: &Game) -> (r: Vec<Tile>)
    ensures
        forall|t: Tile| #[trigger] r@.contains(t) <==> in_pool(game@, t),
        r@.no_duplicates(),
{
    let tiles = all_tiles();
    let mut remaining: Vec<Tile> = Vec::new();
    for i in 0..tiles.len()
        invariant
            tiles@ == every_tile(),
            forall|j: int|
                0 <= j < remaining@.len() ==> index_of_tile(#[trigger] remaining@[j]) < i
                    && valid_tile(remaining@[j]),
            remaining@.no_duplicates(),
            forall|t: Tile|
                #[trigger] remaining@.contains(t) <==> (in_pool(game@, t) && index_of_tile(t) < i),
    {
        let t = tiles[i];
        proof {
            lemma_tile_of_index(i as int);
            assert forall|t: Tile| valid_tile(t) && index_of_tile(t) == i implies t == tiles@[i as int] by {
                lemma_index_of_tile(t);
            }
        }
        if tile_in_pool(game, &t) {
            let ghost before = remaining@;
            remaining.push(t);
            proof {
                assert forall|t2: Tile| #[trigger] remaining@.contains(t2) <==> (in_pool(game@, t2)
                    && index_of_tile(t2) < i + 1) by {
                    if remaining@.contains(t2) && t2 != t {
                        let j = choose|j: int| 0 <= j < remaining@.len() && remaining@[j] == t2;
                        assert(before[j] == t2);
                        assert(before.contains(t2));
                    }
                    if in_pool(game@, t2) && index_of_tile(t2) < i + 1 && t2 != t {
                        if index_of_tile(t2) == i {
                            assert(t2 == tiles@[i as int]);
                        }
                        assert(before.contains(t2));
                        let j = choose|j: int| 0 <= j < before.len() && before[j] == t2;
                        assert(remaining@[j] == t2);
                    }
                    if t2 == t {
                        assert(remaining@[before.len() as int] == t);
                    }
                }
            }
        } else {
            proof {
                assert forall|t2: Tile| #[trigger] remaining@.contains(t2) <==> (in_pool(game@, t2)
                    && index_of_tile(t2) < i + 1) by {
                    if in_pool(game@, t2) && index_of_tile(t2) == i {
                        assert(valid_tile(t2));
                        assert(t2 == tiles@[i as int]);
                        assert(t2 == t);
                        assert(!in_pool(game@, t));
                    }
                    if remaining@.contains(t2) {
                        let j = choose|j: int| 0 <= j < remaining@.len() && remaining@[j] == t2;
                        assert(index_of_tile(remaining@[j]) < i);
                    }
                }
            }
        }
    }
    proof {
        assert forall|t: Tile| #[trigger] remaining@.contains(t) <==> in_pool(game@, t) by {
            if in_pool(game@, t) {
                lemma_index_of_tile(t);
            }
        }
    }
    remaining
}

/// A draw for the turn holder: a tile picked uniformly from the undrawn pool,
/// or `None` when the pool is empty.
///
/// The tile is resolved here, once, so that the action can stand in the log
/// and replay without consulting randomness again.
pub fn draw_action(game: &Game) -> (r: Option<Action>)
    ensures
        r is None <==> forall|t: Tile| !#[trigger] in_pool(game@, t),
        r matches Some(a) ==> a matches Action::DrawTile { tile } && in_pool(game@, tile),
{
    let mut pool = get_remaining_tiles(game);
    let ghost whole = pool@;
    if pool.len() == 0 {
        assert forall|t: Tile| !#[trigger] in_pool(game@, t) by {
            assert(!whole.contains(t));
        }
        return None;
    }
    assert(whole.contains(whole[0]));
    let seed: usize = rand::random::<usize>();
    let tile = take_tile(&mut pool, seed);
    assert(whole.contains(tile));
    Some(Action::DrawTile { tile })
}

} // verus!
