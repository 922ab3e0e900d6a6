//! The two kinds of player at the table: the real one and the computer.

use vstd::prelude::*;

verus! {

use crate::uni::Uni;

pub struct RealPlayer {
    pub owned_unis: Vec<Uni>,
}

impl RealPlayer {
    pub fn new() -> (r: Player)
        ensures
            r matches Player::Real(p) && p.owned_unis@ =~= Seq::<Uni>::empty(),
    {
        Player::Real(Self { owned_unis: Vec::new() })
    }

    pub fn give_uni(&mut self, uni: Uni)
        ensures
            final(self).owned_unis@ == old(self).owned_unis@.push(uni),
    {
        self.owned_unis.push(uni);
    }
}

pub struct ComputerPlayer;

impl ComputerPlayer {
    pub fn new() -> (r: Player)
        ensures
            r matches Player::Computer(_),
    {
        Player::Computer(Self)
    }
}

pub enum Player {
    Real(RealPlayer),
    Computer(ComputerPlayer),
}

} // verus!
