use vstd::prelude::*;

verus! {

/// Number of rows of the board.
pub const ROWS: u8 = 9;

/// Number of columns of the board.
pub const COLS: u8 = 12;

/// Number of tiles, one per board cell.
pub const TILES: u8 = 108;

/// Number of players in a game.
pub const PLAYERS: u8 = 4;

/// A playable token, identified by the board cell it belongs to.
#[derive(Clone, Copy, Debug, PartialEq, Eq, Hash, Structural)]
pub struct Tile {
    pub row: u8,
    pub col: u8,
}

/// A tile lies on the board.
pub open spec fn valid_tile(t: Tile) -> bool {
    t.row < ROWS && t.col < COLS
}

/// The tile of a linear index, row-major: the fixed bijection `0..108 -> cells`.
pub open spec fn tile_of_index(i: int) -> Tile {
    Tile { row: (i / COLS as int) as u8, col: (i % COLS as int) as u8 }
}

/// The linear index of a tile, inverse of `tile_of_index` on valid tiles.
pub open spec fn index_of_tile(t: Tile) -> int {
    t.row as int * COLS as int + t.col as int
}

/// The linear index of a valid tile is in range and leads back to it.
pub proof fn lemma_index_of_tile(t: Tile)
    requires
        valid_tile(t),
    ensures
        0 <= index_of_tile(t) < TILES,
        tile_of_index(index_of_tile(t)) == t,
{
    let i = index_of_tile(t);
    assert(i / 12 == t.row as int && i % 12 == t.col as int) by (nonlinear_arith)
        requires
            i == t.row as int * 12 + t.col as int,
            0 <= t.col < 12,
            0 <= t.row;
}

/// The tile of an index in range is valid and has that index.
pub proof fn lemma_tile_of_index(i: int)
    requires
        0 <= i < TILES,
    ensures
        valid_tile(tile_of_index(i)),
        index_of_tile(tile_of_index(i)) == i,
{
    assert(i / 12 < 9 && i % 12 < 12 && (i / 12) * 12 + i % 12 == i) by (nonlinear_arith)
        requires
            0 <= i < 108,
    ;
}

impl Tile {
    /// The tile at `(row, col)`, or `None` when the cell is off the board.
    pub fn new(row: u8, col: u8) -> (r: Option<Tile>)
        ensures
            r == (if row < ROWS && col < COLS {
                Some(Tile { row, col })
            } else {
                None::<Tile>
            }),
    {
        if row >= ROWS || col >= COLS {
            None
        } else {
            Some(Tile { row, col })
        }
    }

    pub fn row(&self) -> (r: u8)
        ensures
            r == self.row,
    {
        self.row
    }

    pub fn col(&self) -> (r: u8)
        ensures
            r == self.col,
    {
        self.col
    }
}

/// The identity of one of the four players.
#[derive(Clone, Copy, Debug, PartialEq, Eq, Hash, Structural)]
pub enum PlayerId {
    One,
    Two,
    Three,
    Four,
}

/// The number of a player identity, `1..=4`.
pub open spec fn player_number(id: PlayerId) -> int {
    match id {
        PlayerId::One => 1,
        PlayerId::Two => 2,
        PlayerId::Three => 3,
        PlayerId::Four => 4,
    }
}

/// The player who moves after `id`: 1 -> 2 -> 3 -> 4 -> 1.
pub open spec fn next_player(id: PlayerId) -> PlayerId {
    match id {
        PlayerId::One => PlayerId::Two,
        PlayerId::Two => PlayerId::Three,
        PlayerId::Three => PlayerId::Four,
        PlayerId::Four => PlayerId::One,
    }
}

impl PlayerId {
    /// The identity numbered `id`, for `1..=4`.
    pub fn new(id: u8) -> (r: Option<PlayerId>)
        ensures
            1 <= id <= 4 <==> r is Some,
            r matches Some(p) ==> player_number(p) == id,
    {
        match id {
            1 => Some(PlayerId::One),
            2 => Some(PlayerId::Two),
            3 => Some(PlayerId::Three),
            4 => Some(PlayerId::Four),
            _ => None,
        }
    }
}

/// One of the seven hotel chains.
#[derive(Clone, Copy, Debug, PartialEq, Eq, Hash, Structural)]
pub enum Hotel {
    Luxor,
    Tower,
    American,
    Festival,
    Worldwide,
    Continental,
    Imperial,
}

/// The phase of the current player's turn.
#[derive(Clone, Copy, Debug, PartialEq, Eq, Hash, Structural)]
pub enum TurnState {
    Placing,
    BuyingOrDrawing,
    Drawing,
    CreatingChain,
    Merging,
}

/// Share counts of one player, one per hotel.
#[derive(Clone, Copy, Debug, PartialEq, Eq, Hash, Structural)]
pub struct PlayerShares {
    pub luxor: u8,
    pub tower: u8,
    pub american: u8,
    pub festival: u8,
    pub worldwide: u8,
    pub continental: u8,
    pub imperial: u8,
}

/// One cell of the board.
#[derive(Clone, Copy, Debug, PartialEq, Eq, Hash, Structural)]
pub struct Slot {
    pub row: u8,
    pub col: u8,
    pub has_tile: bool,
    pub hotel: Option<Hotel>,
}

/// The board: one slot per cell, row-major.
#[derive(Clone, Debug)]
pub struct Board {
    pub slots: Vec<Slot>,
}

/// A player: identity, money, shares and the tiles in hand.
#[derive(Clone, Debug)]
pub struct Player {
    pub id: PlayerId,
    pub money: i32,
    pub shares: PlayerShares,
    pub tiles: Vec<Tile>,
}

/// The model of a player: its hand as a sequence.
pub ghost struct PlayerView {
    pub id: PlayerId,
    pub money: i32,
    pub shares: PlayerShares,
    pub tiles: Seq<Tile>,
}

impl View for Player {
    type V = PlayerView;

    open spec fn view(&self) -> PlayerView {
        PlayerView { id: self.id, money: self.money, shares: self.shares, tiles: self.tiles@ }
    }
}

/// The models of a sequence of players.
pub open spec fn players_view(ps: Seq<Player>) -> Seq<PlayerView> {
    ps.map_values(|p: Player| p@)
}

/// A snapshot of a whole game.
#[derive(Clone, Debug)]
pub struct Game {
    pub players: Vec<Player>,
    pub board: Board,
    pub turn: PlayerId,
    pub turn_state: TurnState,
}

/// The model of a game: players and board slots as sequences.
pub ghost struct GameView {
    pub players: Seq<PlayerView>,
    pub slots: Seq<Slot>,
    pub turn: PlayerId,
    pub turn_state: TurnState,
}

impl View for Game {
    type V = GameView;

    open spec fn view(&self) -> GameView {
        GameView {
            players: players_view(self.players@),
            slots: self.board.slots@,
            turn: self.turn,
            turn_state: self.turn_state,
        }
    }
}

/// An action of a player, as it stands in the action log.
///
/// `DrawTile` carries the tile that was drawn, so that replaying a log never
/// consults randomness again.
#[derive(Clone, Copy, Debug, PartialEq, Eq, Structural)]
pub enum Action {
    PlaceTile { player: PlayerId, tile: Tile },
    HandleMergeStocks { hold: u8, sell: u8, trade: u8 },
    BuyStocks {
        player: PlayerId,
        hotel1: Option<Hotel>,
        hotel2: Option<Hotel>,
        hotel3: Option<Hotel>,
    },
    DrawTile { tile: Tile },
    EndGame,
}

/// The outcome of one transition: the next game, or why the action was refused.
#[derive(Debug)]
pub enum TurnResult {
    Success(Game),
    Error(String),
}

/// The model of a transition outcome.
pub ghost enum TurnResultView {
    Success(GameView),
    Error(Seq<char>),
}

impl View for TurnResult {
    type V = TurnResultView;

    open spec fn view(&self) -> TurnResultView {
        match self {
            TurnResult::Success(g) => TurnResultView::Success(g@),
            TurnResult::Error(m) => TurnResultView::Error(m@),
        }
    }
}

/// The body of a placement request: the tile to place.
#[derive(Clone, Copy, Debug, PartialEq, Eq, Structural)]
pub struct PlaceTileCmd {
    pub tile: Tile,
}

} // verus!
