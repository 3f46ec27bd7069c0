use vstd::prelude::*;

verus! {

/// One of the two markers that the players place on the board.
#[derive(Debug, Clone, Copy, PartialEq, Eq, Structural)]
pub enum Piece {
    Naught,
    Cross,
}

impl Piece {
    /// The piece of the other player.
    pub open spec fn other(self) -> Piece {
        match self {
            Piece::Naught => Piece::Cross,
            Piece::Cross => Piece::Naught,
        }
    }

    /// The character that shows this piece on a rendered board.
    pub open spec fn glyph_of(self) -> char {
        match self {
            Piece::Naught => 'O',
            Piece::Cross => 'X',
        }
    }

    /// Returns the piece of the other player.
    pub fn opponent(self) -> (p: Piece)
        ensures
            p == self.other(),
    {
        match self {
            Piece::Naught => Piece::Cross,
            Piece::Cross => Piece::Naught,
        }
    }

    /// Returns the character that shows this piece: `O` for a naught, `X`
    /// for a cross.
    pub fn glyph(self) -> (c: char)
        ensures
            c == self.glyph_of(),
    {
        match self {
            Piece::Naught => 'O',
            Piece::Cross => 'X',
        }
    }
}

/// Taking the other piece twice gives the piece back, and the other piece is
/// never the piece itself.
pub proof fn other_is_an_involution(p: Piece)
    ensures
        p.other().other() == p,
        p.other() != p,
{
}

} // verus!
