//! The player: the session-level record of which nation, if any, the
//! player has claimed. The one-shot-selection policy itself lives with the
//! session loop driving the map, not here.

use vstd::prelude::*;

verus! {

/// A player, holding the id of the nation they selected, if any.
#[derive(Debug)]
pub struct Player {
    pub nation_id: Option<String>,
}

impl Player {
    /// A fresh player with no nation claimed yet.
    pub fn new() -> (r: Box<Player>)
        ensures
            r.nation_id is None,
    {
        Box::new(Player { nation_id: None })
    }
}

} // verus!
