//! Tokens a player can hold: messages and murder allowances.

use vstd::prelude::*;

verus! {

pub struct MessageUni {
    pub message: String,
}

impl MessageUni {
    pub fn new(message: &str) -> (r: Self)
        ensures
            r.message@ == message@,
    {
        Self { message: message.to_owned() }
    }
}

pub struct MurderUni;

pub enum Uni {
    MessageUni(MessageUni),
    MurderUni(MurderUni),
}

} // verus!
