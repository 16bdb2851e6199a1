use vstd::prelude::*;
use crate::deal::draw_action;
use crate::engine::{compute_state, in_pool, play_turn, replay, step};
use crate::types::{Action, Game, GameView, Tile, TurnResult, TurnResultView};

verus! {

/// Why an action was not added to a game's log.
#[derive(Debug)]
pub enum SubmitError {
    /// The action is not allowed in the current state; the message says why.
    Rejected(String),
    /// The log itself no longer replays: a fault of the service, not of the
    /// caller.
    ReplayInconsistency(String),
    /// A draw was asked for while the undrawn pool is empty.
    PoolEmpty,
}

/// A game kept as its initial snapshot and the ordered log of the actions
/// accepted since; the current state is the replay of the log.
pub struct GameLog {
    pub initial: Game,
    pub actions: Vec<Action>,
}

/// What submitting `a` to the log `log` over `initial` leads to: the log
/// grows by `a` exactly when the replayed state accepts it.
pub open spec fn submitted(
    initial: GameView,
    log: Seq<Action>,
    a: Action,
    r: Result<GameView, Seq<char>>,
    inconsistent: bool,
    log_after: Seq<Action>,
) -> bool {
    match replay(initial, log) {
        TurnResultView::Error(m) => inconsistent && r == Err::<GameView, Seq<char>>(m) && log_after == log,
        TurnResultView::Success(h) => !inconsistent && match step(h, a) {
            TurnResultView::Error(m) => r == Err::<GameView, Seq<char>>(m) && log_after == log,
            TurnResultView::Success(next) => r == Ok::<GameView, Seq<char>>(next) && log_after
                == log.push(a),
        },
    }
}

/// The outcome of a submission as a model: the new state, or the message of
/// the refusal; `None` for an empty pool.
pub open spec fn outcome(r: Result<Game, SubmitError>) -> Option<Result<GameView, Seq<char>>> {
    match r {
        Ok(g) => Some(Ok(g@)),
        Err(SubmitError::Rejected(m)) => Some(Err(m@)),
        Err(SubmitError::ReplayInconsistency(m)) => Some(Err(m@)),
        Err(SubmitError::PoolEmpty) => None,
    }
}

impl GameLog {
    /// A game that starts at `initial` with an empty log.
    pub fn new(initial: Game) -> (r: GameLog)
        ensures
            r.initial@ == initial@,
            r.actions@ == Seq::<Action>::empty(),
    {
        GameLog { initial, actions: Vec::new() }
    }

    /// The current state: the replay of the log over the initial snapshot.
    pub fn current(&self) -> (r: TurnResult)
        ensures
            r@ == replay(self.initial@, self.actions@),
    {
        compute_state(&self.initial, &self.actions)
    }

    /// Validates `action` against the current state and, when it is accepted,
    /// appends it to the log and returns the new state. A refused action
    /// leaves the log as it was.
    pub fn submit(&mut self, action: Action) -> (r: Result<Game, SubmitError>)
        ensures
            final(self).initial@ == old(self).initial@,
            !(r matches Err(SubmitError::PoolEmpty)),
            submitted(
                old(self).initial@,
                old(self).actions@,
                action,
                outcome(r)->0,
                r matches Err(SubmitError::ReplayInconsistency(_)),
                final(self).actions@,
            ),
    {
        match compute_state(&self.initial, &self.actions) {
            TurnResult::Error(m) => Err(SubmitError::ReplayInconsistency(m)),
            TurnResult::Success(game) => {
                match play_turn(&game, &action) {
                    TurnResult::Error(m) => Err(SubmitError::Rejected(m)),
                    TurnResult::Success(next) => {
                        self.actions.push(action);
                        Ok(next)
                    },
                }
            },
        }
    }

    /// The turn holder of the current state places `tile`: the action is
    /// attributed to whoever holds the turn, then submitted.
    pub fn place(&mut self, tile: Tile) -> (r: Result<Game, SubmitError>)
        ensures
            final(self).initial@ == old(self).initial@,
            !(r matches Err(SubmitError::PoolEmpty)),
            match replay(old(self).initial@, old(self).actions@) {
                TurnResultView::Success(h) => submitted(
                    old(self).initial@,
                    old(self).actions@,
                    Action::PlaceTile { player: h.turn, tile },
                    outcome(r)->0,
                    r matches Err(SubmitError::ReplayInconsistency(_)),
                    final(self).actions@,
                ),
                TurnResultView::Error(m) => (r matches Err(SubmitError::ReplayInconsistency(e))
                    && e@ == m) && final(self).actions@ == old(self).actions@,
            },
    {
        match compute_state(&self.initial, &self.actions) {
            TurnResult::Error(m) => Err(SubmitError::ReplayInconsistency(m)),
            TurnResult::Success(game) => self.submit(Action::PlaceTile { player: game.turn, tile }),
        }
    }

    /// The turn holder of the current state draws a tile picked at random
    /// from the undrawn pool. The drawn tile is written into the logged
    /// action, so that replay never draws again.
    pub fn draw(&mut self) -> (r: Result<Game, SubmitError>)
        ensures
            final(self).initial@ == old(self).initial@,
            match replay(old(self).initial@, old(self).actions@) {
                TurnResultView::Success(h) => {
                    &&& (r matches Err(SubmitError::PoolEmpty)) <==> forall|t: Tile|
                        !#[trigger] in_pool(h, t)
                    &&& (r matches Err(SubmitError::PoolEmpty)) ==> final(self).actions@
                        == old(self).actions@
                    &&& !(r matches Err(SubmitError::PoolEmpty)) ==> exists|t: Tile|
                        #[trigger] in_pool(h, t) && submitted(
                            old(self).initial@,
                            old(self).actions@,
                            Action::DrawTile { tile: t },
                            outcome(r)->0,
                            r matches Err(SubmitError::ReplayInconsistency(_)),
                            final(self).actions@,
                        )
                },
                TurnResultView::Error(m) => (r matches Err(SubmitError::ReplayInconsistency(e))
                    && e@ == m) && final(self).actions@ == old(self).actions@,
            },
    {
        match compute_state(&self.initial, &self.actions) {
            TurnResult::Error(m) => Err(SubmitError::ReplayInconsistency(m)),
            TurnResult::Success(game) => {
                match draw_action(&game) {
                    None => Err(SubmitError::PoolEmpty),
                    Some(action) => self.submit(action),
                }
            },
        }
    }
}

} // verus!
