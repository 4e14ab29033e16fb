//! A column of three stacked gems.

use vstd::prelude::*;

use crate::blocks::block::{Gem, GemBlock};

verus! {

/// The blocks of a column whose top gem stands at `(x, y)`, top to bottom.
pub open spec fn column_blocks(x: u8, y: i8, gems: Seq<Gem>) -> Seq<GemBlock> {
    seq![
        GemBlock { x, y, gem: gems[0] },
        GemBlock { x, y: (y + 1) as i8, gem: gems[1] },
        GemBlock { x, y: (y + 2) as i8, gem: gems[2] },
    ]
}

/// Three gems stacked vertically; `(x, y)` is the position of the top gem and
/// the others lie at `y + 1` and `y + 2`.
#[derive(Copy, Clone)]
pub struct Column {
    x: u8,
    y: i8,
    gems: [Gem; 3],
    is_falling: bool,
}

impl Column {
    /// Column of the top gem.
    pub closed spec fn spec_x(&self) -> u8 {
        self.x
    }

    /// Row of the top gem.
    pub closed spec fn spec_y(&self) -> i8 {
        self.y
    }

    /// The gems from top to bottom.
    pub closed spec fn spec_gems(&self) -> Seq<Gem> {
        self.gems@
    }

    /// Whether the column is falling on the board (its gems above the board
    /// are then hidden).
    pub closed spec fn spec_is_falling(&self) -> bool {
        self.is_falling
    }

    /// A column holds three gems.
    pub proof fn lemma_three_gems(&self)
        ensures
            self.spec_gems().len() == 3,
    {
    }

    /// The blocks of the column, top to bottom.
    pub open spec fn spec_gem_blocks(&self) -> Seq<GemBlock> {
        column_blocks(self.spec_x(), self.spec_y(), self.spec_gems())
    }

    /// A resting column at `(x, y)` with three gems drawn with the generator.
    pub fn new(x: u8, y: i8, rng: &mut fastrand::Rng) -> (column: Column)
        ensures
            column.spec_x() == x,
            column.spec_y() == y,
            column.spec_gems().len() == 3,
            !column.spec_is_falling(),
    {
        let g0 = Gem::random(rng);
        let g1 = Gem::random(rng);
        let g2 = Gem::random(rng);
        Column { x, y, gems: [g0, g1, g2], is_falling: false }
    }

    /// A column with the given position and gems.
    pub fn with_gems(x: u8, y: i8, gems: [Gem; 3], is_falling: bool) -> (column: Column)
        ensures
            column.spec_x() == x,
            column.spec_y() == y,
            column.spec_gems() == gems@,
            column.spec_is_falling() == is_falling,
    {
        Column { x, y, gems, is_falling }
    }

    /// A falling column held entirely above the board, so nothing of it is
    /// shown; it stands for "no falling column yet".
    pub fn placeholder() -> (column: Column)
        ensures
            column.spec_x() == 0,
            column.spec_y() == -3,
            column.spec_gems() == seq![Gem::Ruby, Gem::Ruby, Gem::Ruby],
            column.spec_is_falling(),
    {
        Column { x: 0, y: -3, gems: [Gem::Ruby, Gem::Ruby, Gem::Ruby], is_falling: true }
    }

    /// Puts the column into play: at column `x`, three rows above the board.
    pub fn set_falling(&mut self, x: u8)
        ensures
            final(self).spec_x() == x,
            final(self).spec_y() == -3,
            final(self).spec_gems() == old(self).spec_gems(),
            final(self).spec_is_falling(),
    {
        self.x = x;
        self.y = -3;
        self.is_falling = true;
    }

    /// Whether the column is falling on the board.
    pub fn is_falling(&self) -> (r: bool)
        ensures
            r == self.spec_is_falling(),
    {
        self.is_falling
    }

    /// The positions and gems of the column, top to bottom.
    pub fn gems(&self) -> (r: [(u8, i8, Gem); 3])
        requires
            self.spec_y() <= i8::MAX - 2,
        ensures
            r@ == seq![
                (self.spec_x(), self.spec_y(), self.spec_gems()[0]),
                (self.spec_x(), (self.spec_y() + 1) as i8, self.spec_gems()[1]),
                (self.spec_x(), (self.spec_y() + 2) as i8, self.spec_gems()[2]),
            ],
    {
        [(self.x, self.y, self.gems[0]), (self.x, self.y + 1, self.gems[1]), (self.x, self.y + 2, self.gems[2])]
    }

    /// The blocks of the column, top to bottom.
    pub fn gem_blocks(&self) -> (r: [GemBlock; 3])
        requires
            self.spec_y() <= i8::MAX - 2,
        ensures
            r@ == self.spec_gem_blocks(),
    {
        [
            GemBlock::new(self.x, self.y, self.gems[0]),
            GemBlock::new(self.x, self.y + 1, self.gems[1]),
            GemBlock::new(self.x, self.y + 2, self.gems[2]),
        ]
    }

    /// The rows the column's gems would occupy one row lower.
    pub fn next_y_positions(&self) -> (r: [i8; 3])
        requires
            self.spec_y() <= i8::MAX - 3,
        ensures
            r@ == seq![(self.spec_y() + 1) as i8, (self.spec_y() + 2) as i8, (self.spec_y() + 3) as i8],
    {
        [self.y + 1, self.y + 2, self.y + 3]
    }

    /// Row of the bottom gem.
    pub fn y_bottom(&self) -> (r: i8)
        requires
            self.spec_y() <= i8::MAX - 2,
        ensures
            r == self.spec_y() + 2,
    {
        self.y + 2
    }

    /// Column of the gems.
    pub fn x(&self) -> (r: u8)
        ensures
            r == self.spec_x(),
    {
        self.x
    }

    /// Moves the column `distance` rows down.
    pub fn move_down(&mut self, distance: i8)
        requires
            i8::MIN <= old(self).spec_y() + distance <= i8::MAX,
        ensures
            final(self).spec_y() == old(self).spec_y() + distance,
            final(self).spec_x() == old(self).spec_x(),
            final(self).spec_gems() == old(self).spec_gems(),
            final(self).spec_is_falling() == old(self).spec_is_falling(),
    {
        self.y = self.y + distance;
    }

    /// Moves the column one cell to the left.
    pub fn move_left(&mut self)
        requires
            old(self).spec_x() > 0,
        ensures
            final(self).spec_x() == old(self).spec_x() - 1,
            final(self).spec_y() == old(self).spec_y(),
            final(self).spec_gems() == old(self).spec_gems(),
            final(self).spec_is_falling() == old(self).spec_is_falling(),
    {
        self.x = self.x - 1;
    }

    /// Moves the column one cell to the right.
    pub fn move_right(&mut self)
        requires
            old(self).spec_x() < u8::MAX,
        ensures
            final(self).spec_x() == old(self).spec_x() + 1,
            final(self).spec_y() == old(self).spec_y(),
            final(self).spec_gems() == old(self).spec_gems(),
            final(self).spec_is_falling() == old(self).spec_is_falling(),
    {
        self.x = self.x + 1;
    }

    /// Cycles the gems upwards: the top gem goes to the bottom.
    pub fn rotate_up(&mut self)
        ensures
            final(self).spec_gems() == seq![old(self).spec_gems()[1], old(self).spec_gems()[2], old(self).spec_gems()[0]],
            final(self).spec_x() == old(self).spec_x(),
            final(self).spec_y() == old(self).spec_y(),
            final(self).spec_is_falling() == old(self).spec_is_falling(),
    {
        self.gems = [self.gems[1], self.gems[2], self.gems[0]];
    }

    /// Cycles the gems downwards: the bottom gem goes to the top.
    pub fn rotate_down(&mut self)
        ensures
            final(self).spec_gems() == seq![old(self).spec_gems()[2], old(self).spec_gems()[0], old(self).spec_gems()[1]],
            final(self).spec_x() == old(self).spec_x(),
            final(self).spec_y() == old(self).spec_y(),
            final(self).spec_is_falling() == old(self).spec_is_falling(),
    {
        self.gems = [self.gems[2], self.gems[0], self.gems[1]];
    }
}

/// Rotating a column up and then down, or down and then up, gives back its
/// gems; three rotations the same way do too.
pub proof fn lemma_column_rotations_cancel(c: Column)
    ensures
        ({
            let g = c.spec_gems();
            let up = seq![g[1], g[2], g[0]];
            let down = seq![g[2], g[0], g[1]];
            &&& seq![up[2], up[0], up[1]] == g
            &&& seq![down[1], down[2], down[0]] == g
            &&& seq![up[2], up[0], up[1]] == seq![down[1], down[2], down[0]]
            &&& seq![seq![up[1], up[2], up[0]][1], seq![up[1], up[2], up[0]][2], seq![up[1], up[2], up[0]][0]] == g
        }),
{
    c.lemma_three_gems();
    let g = c.spec_gems();
    let up = seq![g[1], g[2], g[0]];
    let down = seq![g[2], g[0], g[1]];
    assert(seq![up[2], up[0], up[1]] =~= g);
    assert(seq![down[1], down[2], down[0]] =~= g);
    let up2 = seq![up[1], up[2], up[0]];
    assert(seq![up2[1], up2[2], up2[0]] =~= g);
}

/// Rotating up and then down gives back the original gems.
pub proof fn lemma_rotations_cancel(g: Seq<Gem>)
    requires
        g.len() == 3,
    ensures
        ({
            let up = seq![g[1], g[2], g[0]];
            seq![up[2], up[0], up[1]] == g
        }),
{
    assert(seq![seq![g[1], g[2], g[0]][2], seq![g[1], g[2], g[0]][0], seq![g[1], g[2], g[0]][1]] =~= g);
}

} // verus!
