use vstd::prelude::*;

use crate::map::Pos;

verus! {

/// Grid position of an entity.
#[derive(PartialEq, Eq, Structural, Clone, Copy, Debug)]
pub struct Position {
    pub x: i32,
    pub y: i32,
}

/// Role marker for the one player-controlled entity. The systems take
/// the roles as per-entity flag tables; this marker is what those flags
/// stand for.
pub struct Player;

/// Role marker for a hostile entity that senses the player.
pub struct Monster {}

/// Per-entity record of currently visible tiles: the sight range, the
/// set of visible cells as of the last recompute, and a dirty flag that
/// is raised at spawn and on movement, and cleared by the recompute.
pub struct Viewshed {
    pub visible_tiles: Vec<Pos>,
    pub range: i32,
    pub dirty: bool,
}

impl Viewshed {
    /// A freshly spawned observer: no tiles seen yet, and dirty, so the
    /// first visibility pass recomputes it.
    pub fn new(range: i32) -> (vs: Viewshed)
        ensures
            vs.visible_tiles@.len() == 0,
            vs.range == range,
            vs.dirty,
    {
        Viewshed { visible_tiles: Vec::new(), range, dirty: true }
    }
}

} // verus!
