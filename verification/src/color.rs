//! The colour space: its points, their canonical order, and the two ways of
//! walking it (by index and by stepping).

use vstd::prelude::*;

verus! {

/// How many colours there are: 256 * 256 * 256.
pub const COLOR_SPACE_SIZE: u32 = 16_777_216;

/// A point of the colour space. `r` is the most significant channel and
/// varies slowest in the canonical order; `b` is the least significant.
#[derive(Clone, Copy, Debug, PartialEq, Eq, Structural, Hash)]
pub struct Color {
    pub r: u8,
    pub g: u8,
    pub b: u8,
}

/// The colour at position `i` of the canonical order: the base-256 digits of
/// `i`, least significant digit in `b`. Positions past the end of the space
/// wrap around.
pub open spec fn color_at(i: int) -> Color {
    Color { r: ((i / 65536) % 256) as u8, g: ((i / 256) % 256) as u8, b: (i % 256) as u8 }
}

/// The position of a colour in the canonical order.
pub open spec fn color_index(c: Color) -> int {
    c.r * 65536 + c.g * 256 + c.b
}

/// The first colour of the canonical order.
pub open spec fn first_color() -> Color {
    Color { r: 0, g: 0, b: 0 }
}

/// One step of the stepping walk: the least significant channel goes up by
/// one and carries into the next channel when it passes 255. The last colour
/// has no successor.
pub open spec fn successor(c: Color) -> Option<Color> {
    if c.b < 255 {
        Some(Color { r: c.r, g: c.g, b: (c.b + 1) as u8 })
    } else if c.g < 255 {
        Some(Color { r: c.r, g: (c.g + 1) as u8, b: 0 })
    } else if c.r < 255 {
        Some(Color { r: (c.r + 1) as u8, g: 0, b: 0 })
    } else {
        None
    }
}

/// What the stepping walk yields after `n` steps from the first colour, or
/// `None` once it has run off the end of the space.
pub open spec fn stepped(n: nat) -> Option<Color>
    decreases n,
{
    if n == 0 {
        Some(first_color())
    } else {
        match stepped((n - 1) as nat) {
            Some(c) => successor(c),
            None => None,
        }
    }
}

/// Direct-index enumeration: the colour at position `num`.
pub fn num_to_color(num: u32) -> (c: Color)
    ensures
        c == color_at(num as int),
{
    let b: u8 = (num % 256) as u8;
    let div: u32 = num / 256;
    let g: u8 = (div % 256) as u8;
    let r: u8 = ((div / 256) % 256) as u8;
    Color { r, g, b }
}

/// The position of `color` in the canonical order.
pub fn color_to_num(color: Color) -> (num: u32)
    ensures
        num == color_index(color),
        num < COLOR_SPACE_SIZE,
{
    (color.r as u32) * 65536 + (color.g as u32) * 256 + (color.b as u32)
}

/// Indexing and positions are inverse to each other: every position below
/// the size of the space holds a colour whose position it is.
pub proof fn lemma_index_of_color_at(i: int)
    requires
        0 <= i < COLOR_SPACE_SIZE,
    ensures
        color_index(color_at(i)) == i,
{
}

/// Every colour sits at exactly one position, and that position lies within
/// the space.
pub proof fn lemma_color_at_index(c: Color)
    ensures
        0 <= color_index(c) < COLOR_SPACE_SIZE,
        color_at(color_index(c)) == c,
{
}

/// Two different positions within the space never hold the same colour.
pub proof fn lemma_color_at_injective(i: int, j: int)
    requires
        0 <= i < COLOR_SPACE_SIZE,
        0 <= j < COLOR_SPACE_SIZE,
        color_at(i) == color_at(j),
    ensures
        i == j,
{
    lemma_index_of_color_at(i);
    lemma_index_of_color_at(j);
}

/// A step moves one position forward, and only the last colour has none.
pub proof fn lemma_successor_advances(c: Color)
    ensures
        color_index(c) + 1 < COLOR_SPACE_SIZE ==> successor(c) == Some(color_at(color_index(c) + 1)),
        color_index(c) + 1 >= COLOR_SPACE_SIZE ==> successor(c) is None,
{
}

/// Stepping and direct indexing enumerate the space in the same order: after
/// `i` steps the walk stands on the colour at position `i`.
pub proof fn lemma_stepping_matches_indexing(i: nat)
    requires
        i < COLOR_SPACE_SIZE,
    ensures
        stepped(i) == Some(color_at(i as int)),
    decreases i,
{
    if i > 0 {
        let p = (i - 1) as nat;
        lemma_stepping_matches_indexing(p);
        lemma_index_of_color_at(p as int);
        lemma_successor_advances(color_at(p as int));
    }
}

/// The stepping walk ends after exactly 256 * 256 * 256 colours.
pub proof fn lemma_stepping_ends(n: nat)
    requires
        n >= COLOR_SPACE_SIZE,
    ensures
        stepped(n) is None,
    decreases n,
{
    let p = (n - 1) as nat;
    if p < COLOR_SPACE_SIZE {
        lemma_stepping_matches_indexing(p);
        lemma_index_of_color_at(p as int);
        lemma_successor_advances(color_at(p as int));
    } else {
        lemma_stepping_ends(p);
    }
}

/// The stepping walk covers the space exactly once: each colour is reached
/// after as many steps as its position says, and after no other number of
/// steps.
pub proof fn lemma_stepping_covers_once(c: Color, n: nat)
    ensures
        stepped(color_index(c) as nat) == Some(c),
        stepped(n) == Some(c) ==> n == color_index(c),
{
    lemma_color_at_index(c);
    lemma_stepping_matches_indexing(color_index(c) as nat);
    if n < COLOR_SPACE_SIZE {
        lemma_stepping_matches_indexing(n);
        lemma_index_of_color_at(n as int);
    } else {
        lemma_stepping_ends(n);
    }
}

/// The stepping walk over the colour space, one colour per call of `next`.
pub struct ColorGenerator {
    curr: Color,
    exhausted: bool,
}

/// A walk that stands before the first colour.
pub fn color_generator() -> (g: ColorGenerator)
    ensures
        g.position() == 0,
{
    ColorGenerator { curr: Color { r: 0, g: 0, b: 0 }, exhausted: false }
}

impl ColorGenerator {
    /// How many colours the walk has yielded so far.
    pub closed spec fn position(&self) -> nat {
        if self.exhausted {
            COLOR_SPACE_SIZE as nat
        } else {
            color_index(self.curr) as nat
        }
    }

    /// The walk never gets past the end of the space.
    pub proof fn lemma_position_bounded(&self)
        ensures
            self.position() <= COLOR_SPACE_SIZE,
    {
    }

    /// Yields the colour the walk stands on and takes one step, or yields
    /// `None` once every colour has been handed out.
    pub fn next(&mut self) -> (out: Option<Color>)
        ensures
            out == stepped(old(self).position()),
            out is Some <==> old(self).position() < COLOR_SPACE_SIZE,
            out is Some ==> final(self).position() == old(self).position() + 1,
            out is None ==> final(self).position() == old(self).position(),
    {
        proof {
            if self.exhausted {
                lemma_stepping_ends(self.position());
            } else {
                lemma_color_at_index(self.curr);
                lemma_stepping_matches_indexing(self.position());
            }
        }
        if self.exhausted {
            return None;
        }
        let current = self.curr;
        if self.curr.b < 255 {
            self.curr.b = self.curr.b + 1;
        } else {
            self.curr.b = 0;
            if self.curr.g < 255 {
                self.curr.g = self.curr.g + 1;
            } else {
                self.curr.g = 0;
                if self.curr.r < 255 {
                    self.curr.r = self.curr.r + 1;
                } else {
                    self.curr.r = 0;
                    self.exhausted = true;
                }
            }
        }
        Some(current)
    }
}

} // verus!
