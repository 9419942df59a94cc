//! The seven tetromino shapes, their colors, and their four fixed rotation
//! views. Rotation is a table lookup: each piece carries one four-offset view
//! per orientation, and rotating only switches which view is current.

use vstd::prelude::*;

verus! {

/// The state of one board cell: empty, border wall, one of the seven piece
/// colors, or the tracer marker showing where the falling piece would land.
#[derive(Clone, Copy, PartialEq, Eq, Structural, Debug)]
pub enum PieceColor {
    Empty,
    Wall,
    Red,
    Green,
    Blue,
    Yellow,
    Cyan,
    Magenta,
    Orange,
    Tracer,
}

/// The colors that identify the seven piece kinds (everything but the
/// `Empty`, `Wall` and `Tracer` cell markers).
pub open spec fn is_piece_kind(c: PieceColor) -> bool {
    ||| c == PieceColor::Red
    ||| c == PieceColor::Green
    ||| c == PieceColor::Blue
    ||| c == PieceColor::Yellow
    ||| c == PieceColor::Cyan
    ||| c == PieceColor::Magenta
    ||| c == PieceColor::Orange
}

/// One of the four fixed rotation states of a piece.
#[derive(Clone, Copy, PartialEq, Eq, Structural, Debug)]
pub enum Orientation {
    Up,
    Right,
    Down,
    Left,
}

/// A relative cell position, named by compass direction from the piece's
/// anchor cell.
#[derive(Clone, Copy, PartialEq, Eq, Structural, Debug)]
pub enum Offsets {
    Center,
    North,
    NorthWest,
    West,
    SouthWest,
    South,
    SouthEast,
    East,
    NorthEast,
    EastEast,
    SouthSouth,
    SouthBySouthEast,
    EastBySouthEast,
}

/// A relative (x, y) position.
#[derive(Clone, Copy, PartialEq, Eq, Structural, Debug)]
pub struct Square {
    pub x: i8,
    pub y: i8,
}

/// The horizontal displacement an offset stands for.
pub open spec fn dx_spec(offset: Offsets) -> int {
    match offset {
        Offsets::Center => 0,
        Offsets::North => 0,
        Offsets::NorthWest => -1,
        Offsets::West => -1,
        Offsets::SouthWest => -1,
        Offsets::South => 0,
        Offsets::SouthEast => 1,
        Offsets::East => 1,
        Offsets::NorthEast => 1,
        Offsets::EastEast => 2,
        Offsets::SouthSouth => 0,
        Offsets::SouthBySouthEast => 1,
        Offsets::EastBySouthEast => 2,
    }
}

/// The vertical displacement an offset stands for.
pub open spec fn dy_spec(offset: Offsets) -> int {
    match offset {
        Offsets::Center => 0,
        Offsets::North => -1,
        Offsets::NorthWest => -1,
        Offsets::West => 0,
        Offsets::SouthWest => 1,
        Offsets::South => 1,
        Offsets::SouthEast => 1,
        Offsets::East => 0,
        Offsets::NorthEast => -1,
        Offsets::EastEast => 0,
        Offsets::SouthSouth => 2,
        Offsets::SouthBySouthEast => 2,
        Offsets::EastBySouthEast => 1,
    }
}

/// Every offset displaces by at most one cell left or up and at most two
/// cells right or down.
pub proof fn lemma_offset_bounds(offset: Offsets)
    ensures
        -1 <= dx_spec(offset) <= 2,
        -1 <= dy_spec(offset) <= 2,
{
}

/// The (x, y) displacement of an offset.
pub fn xy(offset: &Offsets) -> (r: (i8, i8))
    ensures
        r.0 as int == dx_spec(*offset),
        r.1 as int == dy_spec(*offset),
{
    match offset {
        Offsets::Center => (0, 0),
        Offsets::North => (0, -1),
        Offsets::NorthWest => (-1, -1),
        Offsets::West => (-1, 0),
        Offsets::SouthWest => (-1, 1),
        Offsets::South => (0, 1),
        Offsets::SouthEast => (1, 1),
        Offsets::East => (1, 0),
        Offsets::NorthEast => (1, -1),
        Offsets::EastEast => (2, 0),
        Offsets::SouthSouth => (0, 2),
        Offsets::SouthBySouthEast => (1, 2),
        Offsets::EastBySouthEast => (2, 1),
    }
}

/// The four cell offsets a piece occupies in one orientation.
pub type PieceView = [Offsets; 4];

/// A tetromino: a fixed color and view table, plus the current orientation.
#[derive(Clone, Copy, PartialEq, Debug)]
pub struct Piece {
    pub color: PieceColor,
    pub orientation: Orientation,
    pub up: PieceView,
    pub right: PieceView,
    pub down: PieceView,
    pub left: PieceView,
}

/// The orientation after one clockwise rotation.
pub open spec fn rotated_right(o: Orientation) -> Orientation {
    match o {
        Orientation::Up => Orientation::Right,
        Orientation::Right => Orientation::Down,
        Orientation::Down => Orientation::Left,
        Orientation::Left => Orientation::Up,
    }
}

/// The orientation after one counterclockwise rotation.
pub open spec fn rotated_left(o: Orientation) -> Orientation {
    match o {
        Orientation::Up => Orientation::Left,
        Orientation::Right => Orientation::Up,
        Orientation::Down => Orientation::Right,
        Orientation::Left => Orientation::Down,
    }
}

/// Four clockwise rotations return any orientation to itself, and one
/// counterclockwise rotation undoes one clockwise rotation.
pub proof fn lemma_rotation_cycle(o: Orientation)
    ensures
        rotated_right(rotated_right(rotated_right(rotated_right(o)))) == o,
        rotated_left(rotated_right(o)) == o,
{
}

/// The catalog view table: the four offsets of the piece of kind `c` in
/// orientation `o`.
pub open spec fn kind_views(c: PieceColor, o: Orientation) -> Seq<Offsets> {
    match c {
        // O piece: the same square in every orientation.
        PieceColor::Yellow => seq![
            Offsets::North,
            Offsets::NorthEast,
            Offsets::Center,
            Offsets::East,
        ],
        // T piece.
        PieceColor::Magenta => match o {
            Orientation::Up => seq![Offsets::Center, Offsets::West, Offsets::East, Offsets::North],
            Orientation::Right => seq![
                Offsets::Center,
                Offsets::East,
                Offsets::North,
                Offsets::South,
            ],
            Orientation::Down => seq![Offsets::Center, Offsets::West, Offsets::East, Offsets::South],
            Orientation::Left => seq![Offsets::Center, Offsets::West, Offsets::North, Offsets::South],
        },
        // I piece.
        PieceColor::Cyan => match o {
            Orientation::Up => seq![Offsets::West, Offsets::Center, Offsets::East, Offsets::EastEast],
            Orientation::Right => seq![
                Offsets::NorthEast,
                Offsets::East,
                Offsets::SouthEast,
                Offsets::SouthBySouthEast,
            ],
            Orientation::Down => seq![
                Offsets::SouthWest,
                Offsets::South,
                Offsets::SouthEast,
                Offsets::EastBySouthEast,
            ],
            Orientation::Left => seq![
                Offsets::North,
                Offsets::Center,
                Offsets::South,
                Offsets::SouthSouth,
            ],
        },
        // L piece.
        PieceColor::Orange => match o {
            Orientation::Up => seq![Offsets::West, Offsets::Center, Offsets::East, Offsets::NorthEast],
            Orientation::Right => seq![
                Offsets::North,
                Offsets::Center,
                Offsets::South,
                Offsets::SouthEast,
            ],
            Orientation::Down => seq![Offsets::Center, Offsets::East, Offsets::West, Offsets::SouthWest],
            Orientation::Left => seq![
                Offsets::NorthWest,
                Offsets::North,
                Offsets::Center,
                Offsets::South,
            ],
        },
        // J piece.
        PieceColor::Blue => match o {
            Orientation::Up => seq![Offsets::Center, Offsets::East, Offsets::West, Offsets::NorthWest],
            Orientation::Right => seq![
                Offsets::NorthEast,
                Offsets::North,
                Offsets::Center,
                Offsets::South,
            ],
            Orientation::Down => seq![Offsets::West, Offsets::Center, Offsets::East, Offsets::SouthEast],
            Orientation::Left => seq![
                Offsets::North,
                Offsets::Center,
                Offsets::South,
                Offsets::SouthWest,
            ],
        },
        // S piece.
        PieceColor::Green => match o {
            Orientation::Up => seq![Offsets::West, Offsets::Center, Offsets::North, Offsets::NorthEast],
            Orientation::Right => seq![
                Offsets::North,
                Offsets::Center,
                Offsets::East,
                Offsets::SouthEast,
            ],
            Orientation::Down => seq![Offsets::SouthWest, Offsets::South, Offsets::Center, Offsets::East],
            Orientation::Left => seq![
                Offsets::NorthWest,
                Offsets::West,
                Offsets::Center,
                Offsets::South,
            ],
        },
        // Z piece.
        PieceColor::Red => match o {
            Orientation::Up => seq![Offsets::NorthWest, Offsets::North, Offsets::Center, Offsets::East],
            Orientation::Right => seq![
                Offsets::South,
                Offsets::Center,
                Offsets::East,
                Offsets::NorthEast,
            ],
            Orientation::Down => seq![Offsets::West, Offsets::Center, Offsets::South, Offsets::SouthEast],
            Orientation::Left => seq![
                Offsets::SouthWest,
                Offsets::West,
                Offsets::Center,
                Offsets::North,
            ],
        },
        _ => Seq::empty(),
    }
}

impl Piece {
    /// The offsets of the current orientation, as a sequence.
    pub open spec fn view_spec(self) -> Seq<Offsets> {
        match self.orientation {
            Orientation::Up => self.up@,
            Orientation::Right => self.right@,
            Orientation::Down => self.down@,
            Orientation::Left => self.left@,
        }
    }

    /// A piece whose color is one of the seven kinds and whose view table is
    /// the catalog table for that kind.
    pub open spec fn matches_catalog(self) -> bool {
        &&& is_piece_kind(self.color)
        &&& self.up@ == kind_views(self.color, Orientation::Up)
        &&& self.right@ == kind_views(self.color, Orientation::Right)
        &&& self.down@ == kind_views(self.color, Orientation::Down)
        &&& self.left@ == kind_views(self.color, Orientation::Left)
    }

    /// A catalog piece always shows the catalog view for its current
    /// orientation.
    pub proof fn lemma_catalog_view(self)
        requires
            self.matches_catalog(),
        ensures
            self.view_spec() == kind_views(self.color, self.orientation),
            self.view_spec().len() == 4,
    {
    }

    /// The four offsets of the current orientation.
    pub fn view(&self) -> (r: &PieceView)
        ensures
            r@ == self.view_spec(),
    {
        match self.orientation {
            Orientation::Up => &self.up,
            Orientation::Right => &self.right,
            Orientation::Down => &self.down,
            Orientation::Left => &self.left,
        }
    }

    /// Rotate one step counterclockwise. Only the orientation changes.
    pub fn rotate_left(&mut self)
        ensures
            final(self).orientation == rotated_left(old(self).orientation),
            final(self).color == old(self).color,
            final(self).up == old(self).up,
            final(self).right == old(self).right,
            final(self).down == old(self).down,
            final(self).left == old(self).left,
    {
        self.orientation = match self.orientation {
            Orientation::Up => Orientation::Left,
            Orientation::Right => Orientation::Up,
            Orientation::Down => Orientation::Right,
            Orientation::Left => Orientation::Down,
        };
    }

    /// Rotate one step clockwise. Only the orientation changes.
    pub fn rotate_right(&mut self)
        ensures
            final(self).orientation == rotated_right(old(self).orientation),
            final(self).color == old(self).color,
            final(self).up == old(self).up,
            final(self).right == old(self).right,
            final(self).down == old(self).down,
            final(self).left == old(self).left,
    {
        self.orientation = match self.orientation {
            Orientation::Up => Orientation::Right,
            Orientation::Right => Orientation::Down,
            Orientation::Down => Orientation::Left,
            Orientation::Left => Orientation::Up,
        };
    }
}

/// The color of each catalog piece, in catalog order.
pub open spec fn catalog_colors() -> Seq<PieceColor> {
    seq![
        PieceColor::Yellow,
        PieceColor::Magenta,
        PieceColor::Cyan,
        PieceColor::Orange,
        PieceColor::Blue,
        PieceColor::Green,
        PieceColor::Red,
    ]
}

fn make_piece(color: PieceColor, up: PieceView, right: PieceView, down: PieceView, left: PieceView) -> (p: Piece)
    requires
        is_piece_kind(color),
        up@ == kind_views(color, Orientation::Up),
        right@ == kind_views(color, Orientation::Right),
        down@ == kind_views(color, Orientation::Down),
        left@ == kind_views(color, Orientation::Left),
    ensures
        p.matches_catalog(),
        p.color == color,
        p.orientation == Orientation::Up,
{
    Piece { color, orientation: Orientation::Up, up, right, down, left }
}

/// One fresh piece of each of the seven kinds, in catalog order, all facing
/// up.
pub fn all_pieces() -> (v: Vec<Piece>)
    ensures
        v@.len() == 7,
        forall|i: int| 0 <= i < 7 ==> (#[trigger] v@[i]).matches_catalog(),
        forall|i: int| 0 <= i < 7 ==> (#[trigger] v@[i]).orientation == Orientation::Up,
        forall|i: int| 0 <= i < 7 ==> (#[trigger] v@[i]).color == catalog_colors()[i],
{
    let o_piece = make_piece(
        PieceColor::Yellow,
        [Offsets::North, Offsets::NorthEast, Offsets::Center, Offsets::East],
        [Offsets::North, Offsets::NorthEast, Offsets::Center, Offsets::East],
        [Offsets::North, Offsets::NorthEast, Offsets::Center, Offsets::East],
        [Offsets::North, Offsets::NorthEast, Offsets::Center, Offsets::East],
    );
    let t_piece = make_piece(
        PieceColor::Magenta,
        [Offsets::Center, Offsets::West, Offsets::East, Offsets::North],
        [Offsets::Center, Offsets::East, Offsets::North, Offsets::South],
        [Offsets::Center, Offsets::West, Offsets::East, Offsets::South],
        [Offsets::Center, Offsets::West, Offsets::North, Offsets::South],
    );
    let i_piece = make_piece(
        PieceColor::Cyan,
        [Offsets::West, Offsets::Center, Offsets::East, Offsets::EastEast],
        [Offsets::NorthEast, Offsets::East, Offsets::SouthEast, Offsets::SouthBySouthEast],
        [Offsets::SouthWest, Offsets::South, Offsets::SouthEast, Offsets::EastBySouthEast],
        [Offsets::North, Offsets::Center, Offsets::South, Offsets::SouthSouth],
    );
    let l_piece = make_piece(
        PieceColor::Orange,
        [Offsets::West, Offsets::Center, Offsets::East, Offsets::NorthEast],
        [Offsets::North, Offsets::Center, Offsets::South, Offsets::SouthEast],
        [Offsets::Center, Offsets::East, Offsets::West, Offsets::SouthWest],
        [Offsets::NorthWest, Offsets::North, Offsets::Center, Offsets::South],
    );
    let j_piece = make_piece(
        PieceColor::Blue,
        [Offsets::Center, Offsets::East, Offsets::West, Offsets::NorthWest],
        [Offsets::NorthEast, Offsets::North, Offsets::Center, Offsets::South],
        [Offsets::West, Offsets::Center, Offsets::East, Offsets::SouthEast],
        [Offsets::North, Offsets::Center, Offsets::South, Offsets::SouthWest],
    );
    let s_piece = make_piece(
        PieceColor::Green,
        [Offsets::West, Offsets::Center, Offsets::North, Offsets::NorthEast],
        [Offsets::North, Offsets::Center, Offsets::East, Offsets::SouthEast],
        [Offsets::SouthWest, Offsets::South, Offsets::Center, Offsets::East],
        [Offsets::NorthWest, Offsets::West, Offsets::Center, Offsets::South],
    );
    let z_piece = make_piece(
        PieceColor::Red,
        [Offsets::NorthWest, Offsets::North, Offsets::Center, Offsets::East],
        [Offsets::South, Offsets::Center, Offsets::East, Offsets::NorthEast],
        [Offsets::West, Offsets::Center, Offsets::South, Offsets::SouthEast],
        [Offsets::SouthWest, Offsets::West, Offsets::Center, Offsets::North],
    );
    let mut v: Vec<Piece> = Vec::new();
    v.push(o_piece);
    v.push(t_piece);
    v.push(i_piece);
    v.push(l_piece);
    v.push(j_piece);
    v.push(s_piece);
    v.push(z_piece);
    v
}

} // verus!
