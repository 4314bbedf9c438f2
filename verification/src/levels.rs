//! The levels of a game, in their order, and the one that is played.

use crate::maze::{parse, Grid, Maze};
use crate::player::{spawn_player_from_maze, spawn_point, Player, Pose, WALK_SPEED};
use crate::screamer::{at_start, ScreamerState};
use vstd::prelude::*;

verus! {

/// Edge length of a tile of every level, in world units.
pub const LEVEL_TILE: u32 = 64;

/// The mathematical model of a set of levels.
pub struct LevelSet {
    /// The grids of the levels, in their order.
    pub maps: Seq<Grid>,
    /// The names of the levels, in the same order.
    pub names: Seq<Seq<char>>,
    /// Index of the level that is played.
    pub current: int,
}

impl LevelSet {
    /// The index of the last level, or 0 where there is none.
    pub open spec fn last_index(self) -> int {
        if self.maps.len() == 0 {
            0
        } else {
            self.maps.len() - 1
        }
    }

    /// Every level has a name, and the current level is one of them; with
    /// no levels at all, the current index is 0.
    pub open spec fn wf(self) -> bool {
        &&& self.names.len() == self.maps.len()
        &&& 0 <= self.current <= self.last_index()
    }
}

/// The name that a level without a name of its own goes by.
pub open spec fn default_name() -> Seq<char> {
    "nivel"@
}

/// The levels of a game and the index of the one that is played.
pub struct Levels {
    maps: Vec<Maze>,
    names: Vec<String>,
    current: usize,
}

impl View for Levels {
    type V = LevelSet;

    closed spec fn view(&self) -> LevelSet {
        LevelSet {
            maps: Seq::new(self.maps@.len(), |i: int| self.maps@[i]@),
            names: Seq::new(self.names@.len(), |i: int| self.names@[i]@),
            current: self.current as int,
        }
    }
}

impl Levels {
    /// The model is well formed.
    #[verifier::type_invariant]
    pub closed spec fn inv(&self) -> bool {
        self@.wf()
    }

    /// The levels that the given files describe, in their order. Each
    /// file is a name and the text of a maze. The first level is current.
    pub fn from_texts(files: &Vec<(String, String)>) -> (levels: Levels)
        ensures
            levels@.maps.len() == files@.len(),
            levels@.names.len() == files@.len(),
            levels@.current == 0,
            forall|i: int|
                0 <= i < files@.len() ==> #[trigger] levels@.maps[i] == parse(
                    files@[i].1@,
                    LEVEL_TILE as int,
                ),
            forall|i: int| 0 <= i < files@.len() ==> #[trigger] levels@.names[i] == files@[i].0@,
    {
        let mut maps: Vec<Maze> = Vec::new();
        let mut names: Vec<String> = Vec::new();
        let mut i: usize = 0;
        while i < files.len()
            invariant
                i <= files@.len(),
                maps@.len() == i,
                names@.len() == i,
                forall|k: int|
                    0 <= k < i ==> (#[trigger] maps@[k])@ == parse(files@[k].1@, LEVEL_TILE as int),
                forall|k: int| 0 <= k < i ==> (#[trigger] names@[k])@ == files@[k].0@,
            decreases files@.len() - i,
        {
            let file = &files[i];
            maps.push(Maze::from_str_map(file.1.as_str(), LEVEL_TILE));
            names.push(file.0.clone());
            i = i + 1;
        }
        Levels { maps, names, current: 0 }
    }

    /// The level that is played.
    pub fn active(&self) -> (maze: &Maze)
        requires
            self@.maps.len() > 0,
        ensures
            maze@ == self@.maps[self@.current],
    {
        proof {
            use_type_invariant(self);
        }
        &self.maps[self.current]
    }

    /// Index of the level that is played.
    pub fn index(&self) -> (i: usize)
        ensures
            i == self@.current,
            i <= self@.last_index(),
    {
        proof {
            use_type_invariant(self);
        }
        self.current
    }

    /// Number of levels.
    pub fn len(&self) -> (n: usize)
        ensures
            n == self@.maps.len(),
    {
        self.maps.len()
    }

    /// Goes on to the next level, if there is one, and reports whether
    /// there was.
    pub fn next(&mut self) -> (advanced: bool)
        ensures
            advanced == (old(self)@.current + 1 < old(self)@.maps.len()),
            final(self)@ == (LevelSet {
                current: if advanced {
                    old(self)@.current + 1
                } else {
                    old(self)@.current
                },
                ..old(self)@
            }),
    {
        proof {
            use_type_invariant(&*self);
        }
        if self.current < self.maps.len() && self.current + 1 < self.maps.len() {
            self.current = self.current + 1;
            true
        } else {
            false
        }
    }

    /// Makes the level with index `idx` the current one, or the last
    /// level where there are not that many.
    pub fn set_current(&mut self, idx: usize)
        ensures
            final(self)@ == (LevelSet {
                current: if idx <= old(self)@.last_index() {
                    idx as int
                } else {
                    old(self)@.last_index()
                },
                ..old(self)@
            }),
    {
        proof {
            use_type_invariant(&*self);
        }
        if self.maps.len() == 0 {
            self.current = 0;
        } else if idx < self.maps.len() {
            self.current = idx;
        } else {
            self.current = self.maps.len() - 1;
        }
    }

    /// The name of the level with index `idx`, or the default name where
    /// there is no such level.
    pub fn name(&self, idx: usize) -> (name: &str)
        ensures
            name@ == (if idx < self@.names.len() {
                self@.names[idx as int]
            } else {
                default_name()
            }),
    {
        if idx < self.names.len() {
            self.names[idx].as_str()
        } else {
            "nivel"
        }
    }
}

/// Starts the level with index `lvl_index`, or the last level where there
/// are not that many: makes it current, sets the trigger up for it, and
/// gives the player who starts it.
pub fn start_level(levels: &mut Levels, lvl_index: usize, screamer: &mut ScreamerState) -> (player:
    Player)
    requires
        old(levels)@.maps.len() > 0,
    ensures
        final(levels)@ == (LevelSet {
            current: if lvl_index <= old(levels)@.last_index() {
                lvl_index as int
            } else {
                old(levels)@.last_index()
            },
            ..old(levels)@
        }),
        player@ == (Pose {
            pos: spawn_point(final(levels)@.maps[final(levels)@.current]),
            heading: 0,
            walk_speed: WALK_SPEED as int,
        }),
        *final(screamer) == at_start(
            *old(screamer),
            final(levels)@.maps[final(levels)@.current].marker(crate::maze::TRIGGER),
        ),
{
    levels.set_current(lvl_index);
    let maze = levels.active();
    let player = spawn_player_from_maze(maze);
    screamer.reset(maze);
    player
}

} // verus!
