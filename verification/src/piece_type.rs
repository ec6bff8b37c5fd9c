//! The kinds a board piece can be in, as the client renders them.

use vstd::prelude::*;

verus! {

/// What a piece on the client currently is.
#[derive(Clone, Copy, Debug, PartialEq, Eq, Structural)]
pub enum PieceType {
    /// A movable piece on the board.
    Board,
    /// A covered piece on the board.
    Covered,
    /// A piece that cannot act because it is not its owner's turn.
    Inactive,
    /// No kind at all; the default.
    Nope,
    /// A piece still in reserve.
    Reserve,
    /// A piece not yet spawned, sitting on a spawn point.
    Spawn,
}

impl PieceType {
    /// The display name of this piece kind.
    pub open spec fn name_spec(self) -> Seq<char> {
        match self {
            PieceType::Board => "board"@,
            PieceType::Covered => "covered"@,
            PieceType::Inactive => "inactive"@,
            PieceType::Nope => "nope"@,
            PieceType::Reserve => "reserve"@,
            PieceType::Spawn => "spawn"@,
        }
    }

    /// The display name of this piece kind.
    pub fn name(&self) -> (r: &'static str)
        ensures
            r@ == self.name_spec(),
    {
        match self {
            PieceType::Board => "board",
            PieceType::Covered => "covered",
            PieceType::Inactive => "inactive",
            PieceType::Nope => "nope",
            PieceType::Reserve => "reserve",
            PieceType::Spawn => "spawn",
        }
    }
}

impl Default for PieceType {
    /// The default kind is `Nope`.
    fn default() -> (r: Self)
        ensures
            r == PieceType::Nope,
    {
        PieceType::Nope
    }
}

} // verus!
