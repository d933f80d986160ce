//! One turn of the session loop: what an update does to the game, and
//! whether the session goes on after it.

use crate::game::{may_lock, Game, GameView};
use crate::input::Key;
use vstd::prelude::*;

verus! {

/// An event that the session loop receives.
#[derive(Clone, Copy, Debug, PartialEq, Eq, Structural)]
pub enum GameUpdate {
    /// A key was pressed.
    KeyPress(Key),
    /// The gravity timer fired.
    Tick,
    /// The difficulty feed set a new time between two steps of gravity.
    DurationUpdate(u64),
}

/// What the session loop does after an update.
#[derive(Clone, Copy, Debug, PartialEq, Eq, Structural)]
pub enum Flow {
    /// Wait for the next update.
    Continue,
    /// End the session.
    Stop,
}

/// The key asks to end the session: the interrupt, or `z`.
pub open spec fn is_quit_key(key: Key) -> bool {
    key == Key::CtrlC || key == Key::Char('z')
}

/// The update asks to end the session.
pub open spec fn is_quit(update: GameUpdate) -> bool {
    match update {
        GameUpdate::KeyPress(key) => is_quit_key(key),
        _ => false,
    }
}

/// The update can make the piece lock: a tick, or a key that can.
pub open spec fn may_settle(update: GameUpdate) -> bool {
    match update {
        GameUpdate::KeyPress(key) => may_lock(key),
        GameUpdate::Tick => true,
        GameUpdate::DurationUpdate(_) => false,
    }
}

/// `next` is a game that follows from `game` on `update`: a key that asks to
/// quit changes nothing, another key acts as the game says, a tick is one
/// step of gravity, and a new duration is taken over.
pub open spec fn follows(game: GameView, update: GameUpdate, next: GameView) -> bool {
    match update {
        GameUpdate::KeyPress(key) => if is_quit_key(key) {
            next == game
        } else {
            game.responds_to(key, next)
        },
        GameUpdate::Tick => game.advances_to(next),
        GameUpdate::DurationUpdate(duration) => next == (GameView { duration, ..game }),
    }
}

/// Whether `handle_update` can take the update in this state of the game:
/// an update that can make the piece lock needs a game in which a piece can
/// lock, any other update is always taken.
pub fn can_handle(game: &Game, update: GameUpdate) -> (ok: bool)
    requires
        game@.sound(),
    ensures
        ok == (may_settle(update) ==> game@.can_settle()),
{
    let settles = match update {
        GameUpdate::KeyPress(key) => match key {
            Key::Down => true,
            Key::Space => true,
            _ => false,
        },
        GameUpdate::Tick => true,
        GameUpdate::DurationUpdate(_) => false,
    };
    !settles || game.can_settle()
}

/// Applies one update to the game and says whether the session goes on: it
/// stops when the update asks to quit, and when the game is over.
pub fn handle_update(game: &mut Game, update: GameUpdate) -> (flow: Flow)
    requires
        old(game)@.wf(),
        may_settle(update) ==> old(game)@.can_settle(),
    ensures
        final(game)@.wf(),
        follows(old(game)@, update, final(game)@),
        flow == if is_quit(update) || final(game)@.over {
            Flow::Stop
        } else {
            Flow::Continue
        },
{
    match update {
        GameUpdate::KeyPress(key) => {
            match key {
                Key::CtrlC => {
                    return Flow::Stop;
                },
                Key::Char(c) => {
                    if c == 'z' {
                        return Flow::Stop;
                    }
                    game.keypress(key);
                },
                _ => {
                    game.keypress(key);
                },
            }
        },
        GameUpdate::Tick => {
            game.advance_game();
        },
        GameUpdate::DurationUpdate(duration) => {
            game.set_duration(duration);
        },
    }
    if game.is_over() {
        Flow::Stop
    } else {
        Flow::Continue
    }
}

} // verus!
