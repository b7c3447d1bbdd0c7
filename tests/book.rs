use tak_book::book::Book;
use tak_book::moves::{Direction, GameMove, Piece};

fn mv(s: &str) -> GameMove {
    GameMove::from_ptn(s).unwrap()
}

#[test]
fn test_book_loading_and_selection() {
    let book_content = "a1 b1\na1 c1\n";
    let book = Book::from_text(book_content);

    assert_eq!(book.line_count(), 2);

    let history = vec![mv("a1")];
    let next_move = book.get_move(&history, 5).unwrap();

    let b1 = mv("b1");
    let c1 = mv("c1");

    assert!(next_move == b1 || next_move == c1);
}

#[test]
fn test_invalid_moves_filtered() {
    let book_content = "a1 f6\n";
    let book = Book::from_text(book_content);

    let history = vec![mv("a1")];
    let next_move = book.get_move(&history, 5);

    assert!(next_move.is_none());

    let next_move_6 = book.get_move(&history, 6);
    assert!(next_move_6.is_some());
}

#[test]
fn both_continuations_are_drawn() {
    let book = Book::from_text("a1 b1\na1 c1\n");
    let history = vec![mv("a1")];
    let (mut saw_b1, mut saw_c1) = (false, false);
    for _ in 0..400 {
        let m = book.get_move(&history, 5).unwrap();
        if m == mv("b1") {
            saw_b1 = true;
        } else if m == mv("c1") {
            saw_c1 = true;
        } else {
            panic!("unexpected move {:?}", m);
        }
    }
    assert!(saw_b1 && saw_c1);
}

#[test]
fn pick_move_by_index() {
    let book = Book::from_text("a1 b1\na1 c1\n");
    let history = vec![mv("a1")];
    assert_eq!(book.pick_move(&history, 5, 0), Some(mv("b1")));
    assert_eq!(book.pick_move(&history, 5, 1), Some(mv("c1")));
    assert_eq!(book.pick_move(&history, 5, 2), None);
}

#[test]
fn out_of_bounds_continuation_on_six_by_six() {
    let book = Book::from_text("a1 f6\n");
    let history = vec![mv("a1")];
    assert_eq!(book.get_move(&history, 6), Some(mv("f6")));
    assert_eq!(mv("f6"), GameMove::Place { x: 5, y: 5, piece: Piece::Flat });
}

#[test]
fn empty_and_blank_texts_give_no_lines() {
    for text in ["", "\n", "   \n\t\n\r\n  "] {
        let book = Book::from_text(text);
        assert_eq!(book.line_count(), 0);
        assert_eq!(book.get_move(&[], 5), None);
        assert_eq!(book.get_move(&[mv("a1")], 8), None);
    }
}

#[test]
fn bad_first_token_drops_the_line() {
    let book = Book::from_text("zz a1 b1\na1 b2\n");
    assert_eq!(book.line_count(), 1);
    assert_eq!(book.lines()[0], vec![mv("a1"), mv("b2")]);
}

#[test]
fn full_line_keeps_every_token() {
    let book = Book::from_text("  a1\tb2   c3 d4  \r\n");
    assert_eq!(book.line_count(), 1);
    assert_eq!(book.lines()[0].len(), 4);
}

#[test]
fn bad_token_truncates_the_line() {
    let book = Book::from_text("a1 b2 x9 c3\n");
    assert_eq!(book.line_count(), 1);
    assert_eq!(book.lines()[0], vec![mv("a1"), mv("b2")]);
}

#[test]
fn last_line_without_newline_is_read() {
    let book = Book::from_text("a1 b1\n\nc1 d1");
    assert_eq!(book.line_count(), 2);
    assert_eq!(book.lines()[1], vec![mv("c1"), mv("d1")]);
}

#[test]
fn same_text_same_book() {
    let text = "a1 b1\na1 c1\nzz\nd4 3c3>12\n";
    let a = Book::from_text(text);
    let b = Book::from_text(text);
    assert_eq!(a.lines(), b.lines());
    assert_eq!(a.line_count(), 3);
}

#[test]
fn no_extending_line_gives_none() {
    let book = Book::from_text("a1 b1\nc1 d1\n");
    assert_eq!(book.get_move(&[mv("e5")], 5), None);
    assert_eq!(book.get_move(&[mv("a1"), mv("b1")], 5), None);
    assert_eq!(book.next_moves(&[mv("a1"), mv("b1")], 5), vec![]);
}

#[test]
fn empty_history_proposes_first_moves() {
    let book = Book::from_text("a1 b1\nc1 d1\nh8 a1\n");
    assert_eq!(book.next_moves(&[], 5), vec![mv("a1"), mv("c1")]);
    assert_eq!(book.next_moves(&[], 8), vec![mv("a1"), mv("c1"), mv("h8")]);
}

#[test]
fn repeated_proposals_are_kept() {
    let book = Book::from_text("a1 b1\na1 b1\na1 c1\n");
    assert_eq!(book.next_moves(&[mv("a1")], 5), vec![mv("b1"), mv("b1"), mv("c1")]);
}

#[test]
fn placement_notation() {
    assert_eq!(mv("a1"), GameMove::Place { x: 0, y: 0, piece: Piece::Flat });
    assert_eq!(mv("Sc2"), GameMove::Place { x: 2, y: 1, piece: Piece::Wall });
    assert_eq!(mv("Ch8"), GameMove::Place { x: 7, y: 7, piece: Piece::Capstone });
    assert_eq!(mv("Fb3"), GameMove::Place { x: 1, y: 2, piece: Piece::Flat });
}

#[test]
fn spread_notation() {
    assert_eq!(
        mv("3c3>12"),
        GameMove::Spread { x: 2, y: 2, direction: Direction::East, drops: vec![1, 2] }
    );
    assert_eq!(
        mv("a1+"),
        GameMove::Spread { x: 0, y: 0, direction: Direction::North, drops: vec![1] }
    );
    assert_eq!(
        mv("4d4-"),
        GameMove::Spread { x: 3, y: 3, direction: Direction::South, drops: vec![4] }
    );
    assert_eq!(
        mv("2b2<11"),
        GameMove::Spread { x: 1, y: 1, direction: Direction::West, drops: vec![1, 1] }
    );
}

#[test]
fn malformed_notation_is_rejected() {
    for s in ["", "i1", "a9", "a0", "Xa1", "a1*", "3c3>13", "3c3>120", "9a1+", "c3^", "c", "a1+111111111"] {
        assert_eq!(GameMove::from_ptn(s), None, "{}", s);
    }
}

#[test]
fn bounds_of_placements() {
    let book = Book::from_text("");
    assert!(book.is_valid(&mv("e5"), 5));
    assert!(!book.is_valid(&mv("f1"), 5));
    assert!(!book.is_valid(&mv("a6"), 5));
}

#[test]
fn bounds_of_spreads() {
    let book = Book::from_text("");
    assert!(book.is_valid(&mv("2a3+11"), 5));
    assert!(!book.is_valid(&mv("3a3+111"), 5));
    assert!(book.is_valid(&mv("2a3-11"), 5));
    assert!(!book.is_valid(&mv("3a3-111"), 5));
    assert!(book.is_valid(&mv("4a1>1111"), 5));
    assert!(!book.is_valid(&mv("5a1>11111"), 5));
    assert!(book.is_valid(&mv("2c1<11"), 5));
    assert!(!book.is_valid(&mv("3c1<111"), 5));
    assert!(!book.is_valid(&mv("f1<"), 5));
}

#[test]
fn out_of_bounds_spread_is_not_proposed() {
    let book = Book::from_text("a1 3a3+111\na1 2a3+11\n");
    assert_eq!(
        book.next_moves(&[mv("a1")], 5),
        vec![GameMove::Spread { x: 0, y: 2, direction: Direction::North, drops: vec![1, 1] }]
    );
}
