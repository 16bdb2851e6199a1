//! A turn engine for a four-player tile-placement and stock-trading board game.
//!
//! Every transition is a pure function from a `Game` and an `Action` to a new
//! `Game` or a refusal, and the current state of a game is the fold of its
//! action log over the initial snapshot. Actions that consume randomness (a
//! draw) carry their resolved outcome, so replaying a log is deterministic.
//!
//! Design choices where the game's rules leave room:
//! - a purchase that the player cannot pay for, or that would take a share
//!   count past 255, is refused, so money and share counts never go negative;
//! - buying is accepted whenever the buyer holds the turn;
//! - a hotel without a formed chain is priced at its base;
//! - merger handling and the end of the game have no transition yet and are
//!   refused.

pub mod board;
pub mod chains;
pub mod console;
pub mod deal;
pub mod engine;
pub mod history;
pub mod laws;
pub mod pricing;
pub mod types;

pub use board::{initial_slots, is_adjacent, place_tile_on_board, state_after_place_tile};
pub use console::{char_to_row, parse_command, parse_tile, row_to_char, str_to_col, Command, CommandError};
pub use deal::{all_tiles, choose_tiles, draw_action, empty_shares, get_remaining_tiles, new_game, new_player};
pub use engine::{buy_stocks, compute_state, draw_tile, new_actions, place_tile, play_turn};
pub use history::{GameLog, SubmitError};
pub use chains::hotel_chain_size;
pub use pricing::{base_price, price_level, share_price, stock_price};
pub use types::{
    Action, Board, Game, GameView, Hotel, PlaceTileCmd, Player, PlayerId, PlayerShares,
    PlayerView, Slot, Tile, TurnResult, TurnResultView, TurnState, COLS, PLAYERS, ROWS, TILES,
};
