use vstd::prelude::*;

use crate::program::Program;

verus! {

/// The human player and the roster of units they can bring into a level.
pub struct Player {
    pub name: String,
    pub programs: Vec<Program>,
}

impl Player {
    pub fn new(name: &str) -> (r: Player)
        ensures
            r.name@ == name@,
            r.programs@.len() == 0,
    {
        Player { name: name.to_owned(), programs: Vec::new() }
    }
}

} // verus!
