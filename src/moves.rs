use vstd::prelude::*;

verus! {

/// The direction in which a spread carries a stack.
#[derive(Debug, Clone, Copy, PartialEq, Eq, Structural)]
pub enum Direction {
    /// Towards increasing y.
    North,
    /// Towards decreasing y.
    South,
    /// Towards increasing x.
    East,
    /// Towards decreasing x.
    West,
}

/// The kind of piece that a placement puts down.
#[derive(Debug, Clone, Copy, PartialEq, Eq, Structural)]
pub enum Piece {
    Flat,
    Wall,
    Capstone,
}

/// One ply: a placement, or a spread of the stack at `(x, y)` that drops
/// `drops[i]` pieces on the `i + 1`-th cell along `direction`.
#[derive(Debug, Clone)]
pub enum GameMove {
    Place { x: u32, y: u32, piece: Piece },
    Spread { x: u32, y: u32, direction: Direction, drops: Vec<u8> },
}

/// The mathematical value of a move.
pub enum MoveView {
    Place { x: u32, y: u32, piece: Piece },
    Spread { x: u32, y: u32, direction: Direction, drops: Seq<u8> },
}

impl View for GameMove {
    type V = MoveView;

    open spec fn view(&self) -> MoveView {
        match self {
            GameMove::Place { x, y, piece } => MoveView::Place { x: *x, y: *y, piece: *piece },
            GameMove::Spread { x, y, direction, drops } => MoveView::Spread {
                x: *x,
                y: *y,
                direction: *direction,
                drops: drops@,
            },
        }
    }
}

/// The views of a sequence of moves.
pub open spec fn moves_view(ms: Seq<GameMove>) -> Seq<MoveView> {
    ms.map_values(|m: GameMove| m@)
}

/// Whether `m`, together with every cell that a spread drops on, lies on a
/// `size` by `size` board with coordinates `0..size`.
pub open spec fn in_bounds(m: MoveView, size: u32) -> bool {
    match m {
        MoveView::Place { x, y, .. } => x < size && y < size,
        MoveView::Spread { x, y, direction, drops } => {
            &&& x < size
            &&& y < size
            &&& match direction {
                Direction::North => y + drops.len() < size,
                Direction::South => y >= drops.len(),
                Direction::East => x + drops.len() < size,
                Direction::West => x >= drops.len(),
            }
        },
    }
}

fn same_bytes(a: &Vec<u8>, b: &Vec<u8>) -> (r: bool)
    ensures
        r == (a@ == b@),
{
    if a.len() != b.len() {
        return false;
    }
    let mut i: usize = 0;
    while i < a.len()
        invariant
            a@.len() == b@.len(),
            0 <= i <= a@.len(),
            forall|k: int| 0 <= k < i ==> a@[k] == b@[k],
        decreases a@.len() - i,
    {
        if a[i] != b[i] {
            return false;
        }
        i = i + 1;
    }
    assert(a@ =~= b@);
    true
}

fn copy_bytes(a: &Vec<u8>) -> (r: Vec<u8>)
    ensures
        r@ == a@,
{
    let mut r: Vec<u8> = Vec::new();
    let mut i: usize = 0;
    while i < a.len()
        invariant
            0 <= i <= a@.len(),
            r@ == a@.subrange(0, i as int),
        decreases a@.len() - i,
    {
        r.push(a[i]);
        i = i + 1;
        assert(r@ =~= a@.subrange(0, i as int));
    }
    assert(a@ =~= a@.subrange(0, a@.len() as int));
    r
}

impl GameMove {
    /// Whether the two moves are equal in every field.
    pub fn same_as(&self, other: &GameMove) -> (r: bool)
        ensures
            r == (self@ == other@),
    {
        match (self, other) {
            (
                GameMove::Place { x: xa, y: ya, piece: pa },
                GameMove::Place { x: xb, y: yb, piece: pb },
            ) => *xa == *xb && *ya == *yb && *pa == *pb,
            (
                GameMove::Spread { x: xa, y: ya, direction: da, drops: sa },
                GameMove::Spread { x: xb, y: yb, direction: db, drops: sb },
            ) => *xa == *xb && *ya == *yb && *da == *db && same_bytes(sa, sb),
            _ => false,
        }
    }

    /// A move with the same value.
    pub fn duplicate(&self) -> (r: GameMove)
        ensures
            r@ == self@,
    {
        match self {
            GameMove::Place { x, y, piece } => GameMove::Place { x: *x, y: *y, piece: *piece },
            GameMove::Spread { x, y, direction, drops } => GameMove::Spread {
                x: *x,
                y: *y,
                direction: *direction,
                drops: copy_bytes(drops),
            },
        }
    }
}

impl PartialEq for GameMove {
    fn eq(&self, other: &GameMove) -> (r: bool) {
        self.same_as(other)
    }
}

impl vstd::std_specs::cmp::PartialEqSpecImpl for GameMove {
    open spec fn obeys_eq_spec() -> bool {
        true
    }

    open spec fn eq_spec(&self, other: &GameMove) -> bool {
        self@ == other@
    }
}

} // verus!
