use vstd::prelude::*;
use crate::types::{tile_of_index, Board, Hotel, Slot, Tile, TurnState, COLS, ROWS};

verus! {

/// The slot stands at the cell of tile `t`.
pub open spec fn at_cell(s: Slot, t: Tile) -> bool {
    s.row == t.row && s.col == t.col
}

/// The slot is one step from `t` in one of the four grid directions.
pub open spec fn adjacent(s: Slot, t: Tile) -> bool {
    ||| s.row == t.row && (s.col + 1 == t.col || t.col + 1 == s.col)
    ||| s.col == t.col && (s.row + 1 == t.row || t.row + 1 == s.row)
}

/// Some slot at the cell of `t` holds a tile.
pub open spec fn occupied(slots: Seq<Slot>, t: Tile) -> bool {
    exists|k: int| 0 <= k < slots.len() && at_cell(#[trigger] slots[k], t) && slots[k].has_tile
}

/// The slot after a tile is placed at the cell of `t`.
pub open spec fn placed_slot(s: Slot, t: Tile) -> Slot {
    if at_cell(s, t) {
        Slot { has_tile: true, ..s }
    } else {
        s
    }
}

/// The board after a tile is placed at the cell of `t`.
pub open spec fn place_on(slots: Seq<Slot>, t: Tile) -> Seq<Slot> {
    slots.map_values(|s: Slot| placed_slot(s, t))
}

/// Among the first `n` slots, one next to `t` holds a tile.
pub open spec fn occupied_neighbor_in(slots: Seq<Slot>, t: Tile, n: int) -> bool {
    exists|k: int| 0 <= k < n && adjacent(#[trigger] slots[k], t) && slots[k].has_tile
}

/// Among the first `n` slots, one next to `t` carries hotel `h`.
pub open spec fn neighbor_hotel_in(slots: Seq<Slot>, t: Tile, h: Hotel, n: int) -> bool {
    exists|k: int| 0 <= k < n && adjacent(#[trigger] slots[k], t) && slots[k].hotel == Some(h)
}

/// Some slot next to `t` holds a tile.
pub open spec fn occupied_neighbor(slots: Seq<Slot>, t: Tile) -> bool {
    occupied_neighbor_in(slots, t, slots.len() as int)
}

/// A slot next to `t` carries hotel `h`.
pub open spec fn neighbor_hotel(slots: Seq<Slot>, t: Tile, h: Hotel) -> bool {
    neighbor_hotel_in(slots, t, h, slots.len() as int)
}

/// Exactly one distinct hotel is found next to `t`.
pub open spec fn one_neighbor_hotel(slots: Seq<Slot>, t: Tile) -> bool {
    exists|h: Hotel|
        #[trigger] neighbor_hotel(slots, t, h) && forall|g: Hotel|
            #[trigger] neighbor_hotel(slots, t, g) ==> g == h
}

/// No hotel is found next to `t`.
pub open spec fn no_neighbor_hotel(slots: Seq<Slot>, t: Tile) -> bool {
    forall|h: Hotel| !#[trigger] neighbor_hotel(slots, t, h)
}

/// The turn state that follows placing `t` on a board laid out as `slots`.
pub open spec fn state_after_placing(slots: Seq<Slot>, t: Tile) -> TurnState {
    if !occupied_neighbor(slots, t) || one_neighbor_hotel(slots, t) {
        TurnState::BuyingOrDrawing
    } else if no_neighbor_hotel(slots, t) {
        TurnState::CreatingChain
    } else {
        TurnState::Merging
    }
}

/// The slots of a fresh board: every cell in row-major order, without hotel,
/// holding a tile exactly where one of `starting` belongs.
pub open spec fn fresh_slots(starting: Seq<Tile>) -> Seq<Slot> {
    Seq::new(
        ROWS as nat * COLS as nat,
        |k: int|
            Slot {
                row: tile_of_index(k).row,
                col: tile_of_index(k).col,
                has_tile: starting.contains(tile_of_index(k)),
                hotel: None,
            },
    )
}

/// Whether one of `tiles` belongs to the cell `(row, col)`.
pub fn has_tile_on_slot(tiles: &Vec<Tile>, row: u8, col: u8) -> (r: bool)
    ensures
        r == tiles@.contains(Tile { row, col }),
{
    for i in 0..tiles.len()
        invariant
            !tiles@.subrange(0, i as int).contains(Tile { row, col }),
    {
        if tiles[i].row == row && tiles[i].col == col {
            assert(tiles@[i as int] == Tile { row, col });
            return true;
        }
        assert(tiles@.subrange(0, i + 1) =~= tiles@.subrange(0, i as int).push(tiles@[i as int]));
    }
    assert(tiles@.subrange(0, tiles@.len() as int) =~= tiles@);
    false
}

/// The slots of a fresh board on which `starting_tiles` lie.
pub fn initial_slots(starting_tiles: Vec<Tile>) -> (r: Vec<Slot>)
    ensures
        r@ == fresh_slots(starting_tiles@),
{
    let mut slots: Vec<Slot> = Vec::new();
    for row in 0..ROWS
        invariant
            slots@.len() == row as int * COLS as int,
            forall|k: int|
                0 <= k < slots@.len() ==> #[trigger] slots@[k] == fresh_slots(starting_tiles@)[k],
    {
        for col in 0..COLS
            invariant
                row < ROWS,
                slots@.len() == row as int * COLS as int + col as int,
                forall|k: int|
                    0 <= k < slots@.len() ==> #[trigger] slots@[k] == fresh_slots(
                        starting_tiles@,
                    )[k],
        {
            let ghost k = slots@.len() as int;
            assert(tile_of_index(k) == Tile { row, col }) by {
                assert(k / 12 == row as int && k % 12 == col as int) by (nonlinear_arith)
                    requires
                        k == row as int * 12 + col as int,
                        0 <= col < 12,
                        0 <= row;
            }
            let has_tile = has_tile_on_slot(&starting_tiles, row, col);
            slots.push(Slot { row, col, hotel: None, has_tile });
        }
    }
    assert(slots@ =~= fresh_slots(starting_tiles@));
    slots
}

/// Whether some slot at the cell of `tile` holds a tile.
pub fn is_occupied(slots: &Vec<Slot>, tile: &Tile) -> (r: bool)
    ensures
        r == occupied(slots@, *tile),
{
    for i in 0..slots.len()
        invariant
            forall|k: int| 0 <= k < i ==> !(at_cell(#[trigger] slots@[k], *tile) && slots@[k].has_tile),
    {
        if slots[i].row == tile.row && slots[i].col == tile.col && slots[i].has_tile {
            assert(at_cell(slots@[i as int], *tile));
            return true;
        }
    }
    false
}

/// The board with a tile placed at the cell of `tile`.
pub fn place_tile_on_board(board: &Board, tile: &Tile) -> (r: Board)
    ensures
        r.slots@ == place_on(board.slots@, *tile),
{
    let mut slots: Vec<Slot> = Vec::new();
    for i in 0..board.slots.len()
        invariant
            slots@.len() == i,
            forall|k: int| 0 <= k < i ==> #[trigger] slots@[k] == placed_slot(board.slots@[k], *tile),
    {
        let s = board.slots[i];
        if s.row == tile.row && s.col == tile.col {
            slots.push(Slot { row: s.row, col: s.col, has_tile: true, hotel: s.hotel });
        } else {
            slots.push(s);
        }
    }
    assert(slots@ =~= place_on(board.slots@, *tile));
    Board { slots }
}

/// Whether `slot` is one step from `tile` in one of the four grid directions.
pub fn is_adjacent(slot: &Slot, tile: &Tile) -> (r: bool)
    ensures
        r == adjacent(*slot, *tile),
{
    let (sr, sc, tr, tc) = (slot.row as u16, slot.col as u16, tile.row as u16, tile.col as u16);
    (sr == tr && (sc + 1 == tc || tc + 1 == sc)) || (sc == tc && (sr + 1 == tr || tr + 1 == sr))
}

proof fn lemma_neighbor_step(slots: Seq<Slot>, t: Tile, n: int)
    requires
        0 <= n < slots.len(),
    ensures
        occupied_neighbor_in(slots, t, n + 1) == (occupied_neighbor_in(slots, t, n) || (adjacent(
            slots[n],
            t,
        ) && slots[n].has_tile)),
        forall|h: Hotel|
            #![trigger neighbor_hotel_in(slots, t, h, n + 1)]
            #![trigger neighbor_hotel_in(slots, t, h, n)]
            neighbor_hotel_in(slots, t, h, n + 1) == (neighbor_hotel_in(slots, t, h, n) || (
            adjacent(slots[n], t) && slots[n].hotel == Some(h))),
{
    if occupied_neighbor_in(slots, t, n) {
        let k = choose|k: int| 0 <= k < n && adjacent(#[trigger] slots[k], t) && slots[k].has_tile;
        assert(0 <= k < n + 1 && adjacent(slots[k], t));
    }
    if adjacent(slots[n], t) && slots[n].has_tile {
        assert(adjacent(slots[n], t));
    }
    if occupied_neighbor_in(slots, t, n + 1) {
        let k = choose|k: int|
            0 <= k < n + 1 && adjacent(#[trigger] slots[k], t) && slots[k].has_tile;
        if k < n {
            assert(adjacent(slots[k], t));
        }
    }
    assert forall|h: Hotel|
        #[trigger] neighbor_hotel_in(slots, t, h, n + 1) == (neighbor_hotel_in(slots, t, h, n) || (
        adjacent(slots[n], t) && slots[n].hotel == Some(h))) by {
        if neighbor_hotel_in(slots, t, h, n) {
            let k = choose|k: int|
                0 <= k < n && adjacent(#[trigger] slots[k], t) && slots[k].hotel == Some(h);
            assert(0 <= k < n + 1 && adjacent(slots[k], t));
        }
        if adjacent(slots[n], t) && slots[n].hotel == Some(h) {
            assert(adjacent(slots[n], t));
        }
        if neighbor_hotel_in(slots, t, h, n + 1) {
            let k = choose|k: int|
                0 <= k < n + 1 && adjacent(#[trigger] slots[k], t) && slots[k].hotel == Some(h);
            if k < n {
                assert(adjacent(slots[k], t));
            }
        }
    }
}

/// The turn state that follows placing `tile`, judged from its neighbours:
/// no occupied neighbour or exactly one distinct neighbouring hotel leads to
/// buying, occupied neighbours without a hotel to a new chain, and two or
/// more distinct hotels to a merger.
pub fn state_after_place_tile(slots: &Vec<Slot>, tile: &Tile) -> (r: TurnState)
    ensures
        r == state_after_placing(slots@, *tile),
{
    let mut any_occupied = false;
    let mut first: Option<Hotel> = None;
    let mut several = false;
    let mut i: usize = 0;
    while i < slots.len()
        invariant
            i <= slots@.len(),
            any_occupied == occupied_neighbor_in(slots@, *tile, i as int),
            first is None ==> forall|h: Hotel| !#[trigger] neighbor_hotel_in(slots@, *tile, h, i as int),
            first matches Some(h0) ==> neighbor_hotel_in(slots@, *tile, h0, i as int),
            first matches Some(h0) ==> (!several ==> forall|h: Hotel|
                #[trigger] neighbor_hotel_in(slots@, *tile, h, i as int) ==> h == h0),
            several ==> (first matches Some(h0) && exists|h: Hotel|
                h != h0 && #[trigger] neighbor_hotel_in(slots@, *tile, h, i as int)),
        decreases slots@.len() - i,
    {
        let s = slots[i];
        proof {
            lemma_neighbor_step(slots@, *tile, i as int);
        }
        if is_adjacent(&s, tile) {
            if s.has_tile {
                any_occupied = true;
            }
            match s.hotel {
                Some(h) => {
                    match first {
                        None => {
                            first = Some(h);
                        },
                        Some(h0) => {
                            if h != h0 {
                                assert(neighbor_hotel_in(slots@, *tile, h, i + 1));
                                several = true;
                            }
                        },
                    }
                },
                None => {},
            }
        }
        i = i + 1;
    }
    let ghost n = slots@.len() as int;
    if !any_occupied {
        TurnState::BuyingOrDrawing
    } else {
        match first {
            None => {
                assert(!one_neighbor_hotel(slots@, *tile)) by {
                    if one_neighbor_hotel(slots@, *tile) {
                        let h1 = choose|h1: Hotel| #[trigger] neighbor_hotel(slots@, *tile, h1);
                        assert(!neighbor_hotel_in(slots@, *tile, h1, n));
                    }
                }
                assert(no_neighbor_hotel(slots@, *tile)) by {
                    assert forall|h: Hotel| !#[trigger] neighbor_hotel(slots@, *tile, h) by {
                        assert(!neighbor_hotel_in(slots@, *tile, h, n));
                    }
                }
                TurnState::CreatingChain
            },
            Some(h0) => {
                if several {
                    let ghost h = choose|h: Hotel|
                        h != h0 && #[trigger] neighbor_hotel_in(slots@, *tile, h, n);
                    assert(neighbor_hotel(slots@, *tile, h));
                    assert(neighbor_hotel(slots@, *tile, h0));
                    assert(!one_neighbor_hotel(slots@, *tile)) by {
                        if one_neighbor_hotel(slots@, *tile) {
                            let h1 = choose|h1: Hotel|
                                #[trigger] neighbor_hotel(slots@, *tile, h1) && forall|g: Hotel|
                                    #[trigger] neighbor_hotel(slots@, *tile, g) ==> g == h1;
                            assert(h == h1);
                            assert(h0 == h1);
                        }
                    }
                    assert(!no_neighbor_hotel(slots@, *tile));
                    TurnState::Merging
                } else {
                    assert(neighbor_hotel(slots@, *tile, h0));
                    assert forall|g: Hotel| #[trigger] neighbor_hotel(slots@, *tile, g) implies g
                        == h0 by {
                        assert(neighbor_hotel_in(slots@, *tile, g, n));
                    }
                    assert(one_neighbor_hotel(slots@, *tile));
                    TurnState::BuyingOrDrawing
                }
            },
        }
    }
}

} // verus!
