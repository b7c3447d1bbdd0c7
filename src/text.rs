use vstd::prelude::*;
use crate::moves::{moves_view, GameMove, MoveView};
use crate::notation::{opt_view, parse_ptn, read_move};

verus! {

/// ASCII whitespace: space, tab, line feed, form feed, carriage return.
pub open spec fn is_blank(c: u8) -> bool {
    c == 32 || c == 9 || c == 10 || c == 12 || c == 13
}

/// The text cut at every line feed, in order; there is always one more
/// segment than there are line feeds.
pub open spec fn segments(t: Seq<u8>) -> Seq<Seq<u8>>
    decreases t.len(),
{
    if t.len() == 0 {
        seq![Seq::empty()]
    } else {
        let s = segments(t.drop_last());
        if t.last() == 10 {
            s.push(Seq::empty())
        } else {
            s.update(s.len() - 1, s.last().push(t.last()))
        }
    }
}

/// How many bytes the word at the start of `l` has.
pub open spec fn word_len(l: Seq<u8>) -> nat
    decreases l.len(),
{
    if l.len() == 0 || is_blank(l[0]) {
        0
    } else {
        1 + word_len(l.drop_first())
    }
}

proof fn lemma_word_len(l: Seq<u8>)
    ensures
        word_len(l) <= l.len(),
        l.len() > 0 && !is_blank(l[0]) ==> word_len(l) >= 1,
    decreases l.len(),
{
    if l.len() > 0 {
        lemma_word_len(l.drop_first());
    }
}

/// The tokens of a line: its maximal runs of bytes that are not whitespace.
pub open spec fn words(l: Seq<u8>) -> Seq<Seq<u8>>
    decreases l.len(),
    via words_decreases
{
    if l.len() == 0 {
        seq![]
    } else if is_blank(l[0]) {
        words(l.drop_first())
    } else {
        let n = word_len(l) as int;
        seq![l.take(n)] + words(l.skip(n))
    }
}

#[via_fn]
proof fn words_decreases(l: Seq<u8>) {
    lemma_word_len(l);
}

/// The moves of the tokens up to, not including, the first one that is no move.
pub open spec fn parse_words(ws: Seq<Seq<u8>>) -> Seq<MoveView>
    decreases ws.len(),
{
    if ws.len() == 0 {
        seq![]
    } else {
        match parse_ptn(ws[0]) {
            Some(m) => seq![m] + parse_words(ws.drop_first()),
            None => seq![],
        }
    }
}

/// The moves that one line of a book contributes.
pub open spec fn line_moves(l: Seq<u8>) -> Seq<MoveView> {
    parse_words(words(l))
}

/// The lines of a book read from these text lines: one for each text line
/// that contributes at least one move, in order.
pub open spec fn book_of_lines(ls: Seq<Seq<u8>>) -> Seq<Seq<MoveView>>
    decreases ls.len(),
{
    if ls.len() == 0 {
        seq![]
    } else {
        let b = book_of_lines(ls.drop_last());
        let m = line_moves(ls.last());
        if m.len() > 0 {
            b.push(m)
        } else {
            b
        }
    }
}

/// The lines of a book read from the bytes of a text.
pub open spec fn book_of_text(t: Seq<u8>) -> Seq<Seq<MoveView>> {
    book_of_lines(segments(t))
}

pub open spec fn lines_view(ls: Seq<Vec<GameMove>>) -> Seq<Seq<MoveView>> {
    ls.map_values(|l: Vec<GameMove>| moves_view(l@))
}

fn blank_byte(c: u8) -> (r: bool)
    ensures
        r == is_blank(c),
{
    c == 32 || c == 9 || c == 10 || c == 12 || c == 13
}

/// The moves of the line `t[start..end]`.
pub fn read_line(t: &[u8], start: usize, end: usize) -> (r: Vec<GameMove>)
    requires
        start <= end <= t@.len(),
    ensures
        moves_view(r@) == line_moves(t@.subrange(start as int, end as int)),
{
    let ghost l = t@.subrange(start as int, end as int);
    let mut moves: Vec<GameMove> = Vec::new();
    let mut i: usize = start;
    assert(moves_view(moves@) =~= seq![]);
    while i < end
        invariant
            start <= i <= end <= t@.len(),
            l == t@.subrange(start as int, end as int),
            line_moves(l) == moves_view(moves@) + parse_words(words(t@.subrange(i as int, end as int))),
        decreases end - i,
    {
        if blank_byte(t[i]) {
            assert(t@.subrange(i as int, end as int).drop_first() =~= t@.subrange(i + 1, end as int));
            i = i + 1;
        } else {
            let ts = i;
            let mut j: usize = i;
            while j < end && !blank_byte(t[j])
                invariant
                    ts <= j <= end <= t@.len(),
                    word_len(t@.subrange(ts as int, end as int)) == (j - ts) + word_len(
                        t@.subrange(j as int, end as int),
                    ),
                decreases end - j,
            {
                assert(t@.subrange(j as int, end as int).drop_first() =~= t@.subrange(j + 1, end as int));
                j = j + 1;
            }
            let ghost rest = t@.subrange(ts as int, end as int);
            let ghost n = j - ts;
            assert(rest.take(n) =~= t@.subrange(ts as int, j as int));
            assert(rest.skip(n) =~= t@.subrange(j as int, end as int));
            let ghost ws = words(rest);
            assert(ws == seq![t@.subrange(ts as int, j as int)] + words(t@.subrange(j as int, end as int)));
            assert(ws[0] == t@.subrange(ts as int, j as int));
            assert(ws.drop_first() =~= words(t@.subrange(j as int, end as int)));
            match read_move(t, ts, j) {
                Some(m) => {
                    let ghost before = moves_view(moves@);
                    moves.push(m);
                    assert(moves_view(moves@) =~= before.push(m@));
                    assert(moves_view(moves@) + parse_words(words(t@.subrange(j as int, end as int)))
                        =~= before + parse_words(ws));
                    i = j;
                },
                None => {
                    assert(parse_words(ws) =~= seq![]);
                    assert(moves_view(moves@) + parse_words(ws) =~= moves_view(moves@));
                    return moves;
                },
            }
        }
    }
    assert(words(t@.subrange(i as int, end as int)) =~= seq![]);
    assert(moves_view(moves@) + parse_words(seq![]) =~= moves_view(moves@));
    moves
}

/// The lines of a book read from the bytes `t`, each with at least one move.
pub fn read_lines(t: &[u8]) -> (r: Vec<Vec<GameMove>>)
    ensures
        lines_view(r@) == book_of_text(t@),
        forall|i: int| 0 <= i < r@.len() ==> #[trigger] r@[i]@.len() > 0,
{
    let mut lines: Vec<Vec<GameMove>> = Vec::new();
    let mut start: usize = 0;
    let mut i: usize = 0;
    let ghost mut done: Seq<Seq<u8>> = seq![];
    assert(t@.take(0) =~= seq![]);
    assert(t@.subrange(0, 0) =~= Seq::<u8>::empty());
    assert(lines_view(lines@) =~= seq![]);
    while i < t.len()
        invariant
            start <= i <= t@.len(),
            segments(t@.take(i as int)) == done.push(t@.subrange(start as int, i as int)),
            lines_view(lines@) == book_of_lines(done),
            forall|k: int| 0 <= k < lines@.len() ==> #[trigger] lines@[k]@.len() > 0,
        decreases t@.len() - i,
    {
        let ghost cur = t@.subrange(start as int, i as int);
        assert(t@.take(i + 1).drop_last() =~= t@.take(i as int));
        if t[i] == 10 {
            let ms = read_line(t, start, i);
            let ghost next = done.push(cur);
            assert(next.drop_last() =~= done);
            if ms.len() > 0 {
                let ghost before = lines_view(lines@);
                lines.push(ms);
                assert(lines_view(lines@) =~= before.push(moves_view(ms@)));
            }
            proof {
                done = next;
            }
            start = i + 1;
            assert(t@.subrange(start as int, i + 1) =~= Seq::<u8>::empty());
        } else {
            assert(t@.subrange(start as int, i + 1) =~= cur.push(t@[i as int]));
            assert(done.push(cur).update(done.len() as int, cur.push(t@[i as int]))
                =~= done.push(t@.subrange(start as int, i + 1)));
        }
        i = i + 1;
    }
    assert(t@.take(t@.len() as int) =~= t@);
    let ghost cur = t@.subrange(start as int, i as int);
    let ms = read_line(t, start, i);
    assert(done.push(cur).drop_last() =~= done);
    if ms.len() > 0 {
        let ghost before = lines_view(lines@);
        lines.push(ms);
        assert(lines_view(lines@) =~= before.push(moves_view(ms@)));
    }
    lines
}

} // verus!
