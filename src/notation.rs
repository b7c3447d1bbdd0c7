use vstd::prelude::*;
use crate::moves::{Direction, GameMove, MoveView, Piece};
use vstd::string::StringSliceAdditionalSpecFns;

verus! {

// The move notation, on bytes. A placement is an optional piece letter
// (`F`, `S`, `C`) and a cell (`a1` .. `h8`, file then rank). A spread is an
// optional carry count (`1` .. `8`, default 1), a cell, a direction (`+`
// north, `-` south, `>` east, `<` west), and optional drop counts (`1` .. `8`
// each) that add up to the carry count; without them the whole carry drops
// on the next cell.
pub open spec fn is_file(c: u8) -> bool {
    97 <= c <= 104
}

pub open spec fn is_digit(c: u8) -> bool {
    49 <= c <= 56
}

pub open spec fn piece_of(c: u8) -> Option<Piece> {
    if c == 70 {
        Some(Piece::Flat)
    } else if c == 83 {
        Some(Piece::Wall)
    } else if c == 67 {
        Some(Piece::Capstone)
    } else {
        None
    }
}

pub open spec fn direction_of(c: u8) -> Option<Direction> {
    if c == 43 {
        Some(Direction::North)
    } else if c == 45 {
        Some(Direction::South)
    } else if c == 62 {
        Some(Direction::East)
    } else if c == 60 {
        Some(Direction::West)
    } else {
        None
    }
}

pub open spec fn digits_only(s: Seq<u8>) -> bool {
    forall|i: int| 0 <= i < s.len() ==> is_digit(#[trigger] s[i])
}

pub open spec fn digit_value(c: u8) -> u8 {
    (c - 48) as u8
}

pub open spec fn digit_sum(s: Seq<u8>) -> int
    decreases s.len(),
{
    if s.len() == 0 {
        0
    } else {
        digit_sum(s.drop_last()) + digit_value(s.last())
    }
}

pub open spec fn parse_place(t: Seq<u8>) -> Option<MoveView> {
    if t.len() == 2 && is_file(t[0]) && is_digit(t[1]) {
        Some(MoveView::Place { x: (t[0] - 97) as u32, y: (t[1] - 49) as u32, piece: Piece::Flat })
    } else if t.len() == 3 && piece_of(t[0]) is Some && is_file(t[1]) && is_digit(t[2]) {
        Some(
            MoveView::Place {
                x: (t[1] - 97) as u32,
                y: (t[2] - 49) as u32,
                piece: piece_of(t[0])->Some_0,
            },
        )
    } else {
        None
    }
}

pub open spec fn parse_spread(t: Seq<u8>) -> Option<MoveView> {
    let counted = t.len() > 0 && is_digit(t[0]);
    let count = if counted { digit_value(t[0]) } else { 1u8 };
    let s = if counted { t.drop_first() } else { t };
    if s.len() >= 3 && is_file(s[0]) && is_digit(s[1]) && direction_of(s[2]) is Some {
        let ds = s.subrange(3, s.len() as int);
        let x = (s[0] - 97) as u32;
        let y = (s[1] - 49) as u32;
        let direction = direction_of(s[2])->Some_0;
        if ds.len() == 0 {
            Some(MoveView::Spread { x, y, direction, drops: seq![count] })
        } else if digits_only(ds) && digit_sum(ds) == count {
            Some(MoveView::Spread { x, y, direction, drops: ds.map_values(|c: u8| digit_value(c)) })
        } else {
            None
        }
    } else {
        None
    }
}

/// The move that a token stands for, if it is one.
pub open spec fn parse_ptn(t: Seq<u8>) -> Option<MoveView> {
    if parse_place(t) is Some {
        parse_place(t)
    } else {
        parse_spread(t)
    }
}

pub open spec fn opt_view(r: Option<GameMove>) -> Option<MoveView> {
    match r {
        Some(m) => Some(m@),
        None => None,
    }
}

proof fn lemma_digit_sum_bounds(s: Seq<u8>)
    requires
        digits_only(s),
    ensures
        s.len() <= digit_sum(s) <= 8 * s.len(),
    decreases s.len(),
{
    if s.len() > 0 {
        lemma_digit_sum_bounds(s.drop_last());
    }
}

fn piece_letter(c: u8) -> (r: Option<Piece>)
    ensures
        r == piece_of(c),
{
    if c == 70 {
        Some(Piece::Flat)
    } else if c == 83 {
        Some(Piece::Wall)
    } else if c == 67 {
        Some(Piece::Capstone)
    } else {
        None
    }
}

fn direction_sign(c: u8) -> (r: Option<Direction>)
    ensures
        r == direction_of(c),
{
    if c == 43 {
        Some(Direction::North)
    } else if c == 45 {
        Some(Direction::South)
    } else if c == 62 {
        Some(Direction::East)
    } else if c == 60 {
        Some(Direction::West)
    } else {
        None
    }
}

fn read_place(t: &[u8], start: usize, end: usize) -> (r: Option<GameMove>)
    requires
        start <= end <= t@.len(),
    ensures
        opt_view(r) == parse_place(t@.subrange(start as int, end as int)),
{
    let n = end - start;
    if n == 2 && 97 <= t[start] && t[start] <= 104 && 49 <= t[start + 1] && t[start + 1] <= 56 {
        Some(GameMove::Place { x: (t[start] - 97) as u32, y: (t[start + 1] - 49) as u32, piece: Piece::Flat })
    } else if n == 3 {
        match piece_letter(t[start]) {
            Some(piece) => {
                if 97 <= t[start + 1] && t[start + 1] <= 104 && 49 <= t[start + 2] && t[start + 2] <= 56 {
                    Some(GameMove::Place { x: (t[start + 1] - 97) as u32, y: (t[start + 2] - 49) as u32, piece })
                } else {
                    None
                }
            },
            None => None,
        }
    } else {
        None
    }
}

fn read_spread(t: &[u8], start: usize, end: usize) -> (r: Option<GameMove>)
    requires
        start <= end <= t@.len(),
    ensures
        opt_view(r) == parse_spread(t@.subrange(start as int, end as int)),
{
    let ghost tok = t@.subrange(start as int, end as int);
    let counted = start < end && 49 <= t[start] && t[start] <= 56;
    let count: u8 = if counted { t[start] - 48 } else { 1 };
    let b: usize = if counted { start + 1 } else { start };
    let ghost s = if counted { tok.drop_first() } else { tok };
    assert(s =~= t@.subrange(b as int, end as int));
    if end - b < 3 || !(97 <= t[b] && t[b] <= 104) || !(49 <= t[b + 1] && t[b + 1] <= 56) {
        return None;
    }
    let direction = match direction_sign(t[b + 2]) {
        Some(d) => d,
        None => { return None; },
    };
    let x = (t[b] - 97) as u32;
    let y = (t[b + 1] - 49) as u32;
    let ghost ds = s.subrange(3, s.len() as int);
    assert(ds =~= t@.subrange(b + 3, end as int));
    if b + 3 == end {
        let mut drops: Vec<u8> = Vec::new();
        drops.push(count);
        assert(drops@ =~= seq![count]);
        return Some(GameMove::Spread { x, y, direction, drops });
    }
    if end - (b + 3) > 8 {
        proof {
            if digits_only(ds) {
                lemma_digit_sum_bounds(ds);
            }
        }
        return None;
    }
    let ghost outcome = if digits_only(ds) && digit_sum(ds) == count {
        Some(MoveView::Spread { x, y, direction, drops: ds.map_values(|c: u8| digit_value(c)) })
    } else {
        None
    };
    assert(parse_spread(tok) == outcome);
    let mut drops: Vec<u8> = Vec::new();
    let mut sum: u32 = 0;
    let mut k: usize = b + 3;
    while k < end
        invariant
            b + 3 <= k <= end <= t@.len(),
            end - (b + 3) <= 8,
            ds == t@.subrange(b + 3, end as int),
            tok == t@.subrange(start as int, end as int),
            parse_spread(tok) == outcome,
            outcome == (if digits_only(ds) && digit_sum(ds) == count {
                Some(MoveView::Spread { x, y, direction, drops: ds.map_values(|c: u8| digit_value(c)) })
            } else {
                None
            }),
            digits_only(ds.take(k - (b + 3))),
            sum == digit_sum(ds.take(k - (b + 3))),
            drops@ == ds.take(k - (b + 3)).map_values(|c: u8| digit_value(c)),
        decreases end - k,
    {
        let ghost i = k - (b + 3);
        let c = t[k];
        if !(49 <= c && c <= 56) {
            assert(ds[i] == c);
            assert(!digits_only(ds));
            return None;
        }
        proof {
            lemma_digit_sum_bounds(ds.take(i));
            assert(ds.take(i + 1).drop_last() =~= ds.take(i));
        }
        sum = sum + (c - 48) as u32;
        drops.push(c - 48);
        k = k + 1;
        assert(drops@ =~= ds.take(k - (b + 3)).map_values(|c: u8| digit_value(c)));
    }
    assert(ds.take(ds.len() as int) =~= ds);
    if sum != count as u32 {
        return None;
    }
    Some(GameMove::Spread { x, y, direction, drops })
}

/// The move that the token `t[start..end]` stands for, if it is one.
pub fn read_move(t: &[u8], start: usize, end: usize) -> (r: Option<GameMove>)
    requires
        start <= end <= t@.len(),
    ensures
        opt_view(r) == parse_ptn(t@.subrange(start as int, end as int)),
{
    match read_place(t, start, end) {
        Some(m) => Some(m),
        None => read_spread(t, start, end),
    }
}

impl GameMove {
    /// Reads one move written in the notation, or `None` where `s` is not one.
    pub fn from_ptn(s: &str) -> (r: Option<GameMove>)
        ensures
            opt_view(r) == parse_ptn(s.spec_bytes()),
    {
        let t = s.as_bytes();
        assert(t@.subrange(0, t@.len() as int) =~= t@);
        read_move(t, 0, t.len())
    }
}

} // verus!
