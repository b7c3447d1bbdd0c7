use vstd::prelude::*;
use vstd::string::StringSliceAdditionalSpecFns;
use rand::seq::IndexedRandom;
use crate::moves::{in_bounds, moves_view, Direction, GameMove, MoveView};
use crate::text::{book_of_lines, book_of_text, line_moves, lines_view, parse_words, read_lines, words};
use crate::notation::parse_ptn;

verus! {

/// A repertoire of opening lines, each a non-empty sequence of moves in the
/// order they were played.
pub struct Book {
    lines: Vec<Vec<GameMove>>,
}

/// Whether `line` goes on past `history` and starts with it.
pub open spec fn extends(line: Seq<MoveView>, history: Seq<MoveView>) -> bool {
    line.len() > history.len() && line.take(history.len() as int) == history
}

/// The moves that the lines propose after `history`, one for each line that
/// extends it and whose next move lies on a `size` by `size` board, in the
/// order of the lines.
pub open spec fn proposals(lines: Seq<Seq<MoveView>>, history: Seq<MoveView>, size: u32) -> Seq<MoveView>
    decreases lines.len(),
{
    if lines.len() == 0 {
        seq![]
    } else {
        let p = proposals(lines.drop_last(), history, size);
        let l = lines.last();
        if extends(l, history) && in_bounds(l[history.len() as int], size) {
            p.push(l[history.len() as int])
        } else {
            p
        }
    }
}

/// Relies on rand's `IndexedRandom::choose`, drawing with the generator of
/// `rand::rng`: `None` for an empty slice, else one of its elements.
#[verifier::external_body]
fn choose_one(items: &[GameMove]) -> (r: Option<&GameMove>)
    ensures
        items@.len() == 0 <==> r is None,
        r matches Some(m) ==> exists|i: int| 0 <= i < items@.len() && items@[i] == *m,
{
    items.choose(&mut rand::rng())
}

impl View for Book {
    type V = Seq<Seq<MoveView>>;

    closed spec fn view(&self) -> Seq<Seq<MoveView>> {
        lines_view(self.lines@)
    }
}

impl Book {
    /// Every line holds at least one move.
    pub open spec fn wf(&self) -> bool {
        forall|i: int| 0 <= i < self@.len() ==> #[trigger] self@[i].len() > 0
    }

    /// Reads a book from the text of a book file: one line of the book for
    /// each text line whose first token is a move, holding its tokens up to
    /// the first one that is not a move.
    pub fn from_text(text: &str) -> (r: Book)
        ensures
            r@ == book_of_text(text.spec_bytes()),
            r.wf(),
    {
        let lines = read_lines(text.as_bytes());
        let r = Book { lines };
        assert forall|i: int| 0 <= i < r@.len() implies #[trigger] r@[i].len() > 0 by {
            assert(r.lines@[i]@.len() > 0);
        }
        r
    }

    /// The number of lines.
    pub fn line_count(&self) -> (r: usize)
        ensures
            r == self@.len(),
    {
        self.lines.len()
    }

    /// The lines, in order.
    pub fn lines(&self) -> (r: &Vec<Vec<GameMove>>)
        ensures
            lines_view(r@) == self@,
    {
        &self.lines
    }

    /// Whether `m`, with every cell that a spread drops on, lies on a `size`
    /// by `size` board.
    pub fn is_valid(&self, m: &GameMove, size: u32) -> (r: bool)
        ensures
            r == in_bounds(m@, size),
    {
        match m {
            GameMove::Place { x, y, .. } => *x < size && *y < size,
            GameMove::Spread { x, y, direction, drops } => {
                if *x >= size || *y >= size {
                    return false;
                }
                let distance = drops.len();
                let n = size as usize;
                match direction {
                    Direction::North => distance < n && (*y as usize) < n - distance,
                    Direction::South => (*y as usize) >= distance,
                    Direction::East => distance < n && (*x as usize) < n - distance,
                    Direction::West => (*x as usize) >= distance,
                }
            },
        }
    }

    fn starts_with(line: &Vec<GameMove>, history: &[GameMove]) -> (r: bool)
        ensures
            r == extends(moves_view(line@), moves_view(history@)),
    {
        if line.len() <= history.len() {
            return false;
        }
        let mut i: usize = 0;
        while i < history.len()
            invariant
                history@.len() < line@.len(),
                0 <= i <= history@.len(),
                forall|k: int| 0 <= k < i ==> line@[k]@ == history@[k]@,
            decreases history@.len() - i,
        {
            if !line[i].same_as(&history[i]) {
                assert(moves_view(line@).take(history@.len() as int)[i as int] != moves_view(history@)[i as int]);
                return false;
            }
            i = i + 1;
        }
        assert(moves_view(line@).take(history@.len() as int) =~= moves_view(history@));
        true
    }

    /// The moves that the book proposes after `history` on a `size` by `size`
    /// board, one for each line that extends `history` and whose next move
    /// lies on the board, in the order of the lines.
    pub fn next_moves(&self, history: &[GameMove], size: u32) -> (r: Vec<GameMove>)
        ensures
            moves_view(r@) == proposals(self@, moves_view(history@), size),
    {
        let ghost h = moves_view(history@);
        let mut r: Vec<GameMove> = Vec::new();
        let mut i: usize = 0;
        assert(moves_view(r@) =~= seq![]);
        while i < self.lines.len()
            invariant
                0 <= i <= self.lines@.len(),
                h == moves_view(history@),
                moves_view(r@) == proposals(self@.take(i as int), h, size),
            decreases self.lines@.len() - i,
        {
            assert(self@.take(i + 1).drop_last() =~= self@.take(i as int));
            let line = &self.lines[i];
            assert(self@.take(i + 1).last() == moves_view(line@));
            if Self::starts_with(line, history) {
                let next = &line[history.len()];
                if self.is_valid(next, size) {
                    let ghost before = moves_view(r@);
                    r.push(next.duplicate());
                    assert(moves_view(r@) =~= before.push(next@));
                }
            }
            i = i + 1;
        }
        assert(self@.take(self@.len() as int) =~= self@);
        r
    }

    /// The move at position `index` among those that `next_moves` gives, for
    /// a caller that draws the position from a source of its own; `None`
    /// where there are not that many.
    pub fn pick_move(&self, history: &[GameMove], size: u32, index: usize) -> (r: Option<GameMove>)
        ensures
            r is None <==> index >= proposals(self@, moves_view(history@), size).len(),
            r matches Some(m) ==> m@ == proposals(self@, moves_view(history@), size)[index as int],
    {
        let candidates = self.next_moves(history, size);
        if index < candidates.len() {
            assert(moves_view(candidates@)[index as int] == candidates@[index as int]@);
            Some(candidates[index].duplicate())
        } else {
            None
        }
    }

    /// The next move of one of the lines that extend `history`, drawn at
    /// random among those whose next move lies on a `size` by `size` board,
    /// each line counting once; `None` where there is none.
    pub fn get_move(&self, history: &[GameMove], size: u32) -> (r: Option<GameMove>)
        ensures
            r is None <==> proposals(self@, moves_view(history@), size).len() == 0,
            r matches Some(m) ==> proposals(self@, moves_view(history@), size).contains(m@),
            r matches Some(m) ==> in_bounds(m@, size),
            (forall|i: int| 0 <= i < self@.len() ==> !extends(#[trigger] self@[i], moves_view(history@)))
                ==> r is None,
    {
        let candidates = self.next_moves(history, size);
        proof {
            lemma_proposals_in_bounds(self@, moves_view(history@), size);
            lemma_no_extension_no_proposal(self@, moves_view(history@), size);
        }
        match choose_one(candidates.as_slice()) {
            Some(m) => {
                let c = m.duplicate();
                proof {
                    let i = choose|i: int| 0 <= i < candidates@.len() && candidates@[i] == *m;
                    assert(moves_view(candidates@)[i] == c@);
                }
                Some(c)
            },
            None => None,
        }
    }
}

/// Every move that a book proposes lies on the board it was asked for.
pub proof fn lemma_proposals_in_bounds(lines: Seq<Seq<MoveView>>, history: Seq<MoveView>, size: u32)
    ensures
        forall|i: int| 0 <= i < proposals(lines, history, size).len()
            ==> in_bounds(#[trigger] proposals(lines, history, size)[i], size),
    decreases lines.len(),
{
    if lines.len() > 0 {
        let p = proposals(lines.drop_last(), history, size);
        lemma_proposals_in_bounds(lines.drop_last(), history, size);
        assert forall|i: int| 0 <= i < proposals(lines, history, size).len() implies in_bounds(
            #[trigger] proposals(lines, history, size)[i],
            size,
        ) by {
            if i < p.len() {
                assert(proposals(lines, history, size)[i] == p[i]);
            }
        }
    }
}

/// Where no line extends the history, the book proposes nothing.
pub proof fn lemma_no_extension_no_proposal(lines: Seq<Seq<MoveView>>, history: Seq<MoveView>, size: u32)
    ensures
        (forall|i: int| 0 <= i < lines.len() ==> !extends(#[trigger] lines[i], history))
            ==> proposals(lines, history, size).len() == 0,
    decreases lines.len(),
{
    if lines.len() > 0 {
        if forall|i: int| 0 <= i < lines.len() ==> !extends(#[trigger] lines[i], history) {
            assert forall|i: int| 0 <= i < lines.drop_last().len() implies !extends(
                #[trigger] lines.drop_last()[i],
                history,
            ) by {
                assert(lines.drop_last()[i] == lines[i]);
            }
            assert(!extends(lines[lines.len() - 1], history));
        }
        lemma_no_extension_no_proposal(lines.drop_last(), history, size);
    }
}

/// Reading a book depends on the bytes of the text alone: two texts with the
/// same bytes give books with the same lines.
pub proof fn lemma_read_depends_on_bytes(a: &str, b: &str)
    requires
        a.spec_bytes() == b.spec_bytes(),
    ensures
        book_of_text(a.spec_bytes()) == book_of_text(b.spec_bytes()),
{
}

/// A text line whose first token is no move adds no line to the book.
pub proof fn lemma_bad_first_token(ls: Seq<Seq<u8>>, l: Seq<u8>)
    requires
        words(l).len() > 0,
        parse_ptn(words(l)[0]) is None,
    ensures
        line_moves(l).len() == 0,
        book_of_lines(ls.push(l)) == book_of_lines(ls),
{
    assert(ls.push(l).drop_last() =~= ls);
}

proof fn lemma_parse_all(ws: Seq<Seq<u8>>)
    requires
        forall|i: int| 0 <= i < ws.len() ==> #[trigger] parse_ptn(ws[i]) is Some,
    ensures
        parse_words(ws).len() == ws.len(),
    decreases ws.len(),
{
    if ws.len() > 0 {
        assert forall|i: int| 0 <= i < ws.drop_first().len() implies #[trigger] parse_ptn(
            ws.drop_first()[i],
        ) is Some by {
            assert(ws.drop_first()[i] == ws[i + 1]);
        }
        assert(parse_ptn(ws[0]) is Some);
        lemma_parse_all(ws.drop_first());
    }
}

/// A text line whose tokens are all moves, and that has at least one, adds
/// exactly one line to the book, with as many moves as it has tokens.
pub proof fn lemma_good_line(ls: Seq<Seq<u8>>, l: Seq<u8>)
    requires
        words(l).len() > 0,
        forall|i: int| 0 <= i < words(l).len() ==> #[trigger] parse_ptn(words(l)[i]) is Some,
    ensures
        line_moves(l).len() == words(l).len(),
        book_of_lines(ls.push(l)) == book_of_lines(ls).push(line_moves(l)),
{
    lemma_parse_all(words(l));
    assert(ls.push(l).drop_last() =~= ls);
}

} // verus!
