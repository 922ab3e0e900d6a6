//! The day/night rhythm of a game and the players taking part.

use vstd::prelude::*;

verus! {

use crate::player::ComputerPlayer;
use crate::player::Player;
use crate::player::RealPlayer;
use crate::uni::Uni;

pub enum GameState {
    Day,
    Night,
}

pub struct Game {
    pub state: GameState,
    pub players: Vec<Player>,
}

impl Game {
    /// A fresh game on day one: one real player, holding nothing yet, and
    /// computer players for all the remaining seats.
    pub fn new(player_count: usize) -> (r: Self)
        ensures
            r.state is Day,
            r.players@.len() == (if player_count == 0 {
                1int
            } else {
                player_count as int
            }),
            r.players@[0] matches Player::Real(p) && p.owned_unis@ == Seq::<Uni>::empty(),
            forall|i: int| 1 <= i < r.players@.len() ==> r.players@[i] is Computer,
    {
        let mut players: Vec<Player> = Vec::with_capacity(player_count);
        players.push(RealPlayer::new());
        let mut i: usize = 1;
        while i < player_count
            invariant
                1 <= i,
                i <= player_count || i == 1,
                players@.len() == i,
                players@[0] matches Player::Real(p) && p.owned_unis@ == Seq::<Uni>::empty(),
                forall|j: int| 1 <= j < i ==> players@[j] is Computer,
            decreases player_count - i,
        {
            players.push(ComputerPlayer::new());
            i = i + 1;
        }
        Self { state: GameState::Day, players }
    }

    /// Moves the game on to the next phase: day becomes night and night
    /// becomes day; the players stay as they are.
    pub fn advance(&mut self)
        ensures
            final(self).state == (match old(self).state {
                GameState::Day => GameState::Night,
                GameState::Night => GameState::Day,
            }),
            final(self).players@ == old(self).players@,
    {
        self.state = match self.state {
            GameState::Day => GameState::Night,
            GameState::Night => GameState::Day,
        };
    }
}

} // verus!
