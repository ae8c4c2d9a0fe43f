use ball_puzzle::faster::position::{NeighboursStack, Position};
use ball_puzzle::outer_layer::OuterLayer;
use ball_puzzle::outer_piece::OuterPiece;
use ball_puzzle::piece::Piece;
use ball_puzzle::position::Position as OuterPosition;
use std::collections::BTreeSet;

fn scrambled() -> Position {
    Position::from_pieces([
        Piece::YellowOrange,
        Piece::WhiteGreen,
        Piece::WhiteBlueOrange,
        Piece::WhiteGreenRed,
        Piece::YellowBlueRed,
        Piece::WhiteOrange,
        Piece::YellowGreenOrange,
        Piece::YellowGreen,
        Piece::WhiteRed,
        Piece::WhiteRedBlue,
        Piece::WhiteBlue,
        Piece::WhiteOrangeGreen,
        Piece::YellowRed,
        Piece::YellowRedGreen,
        Piece::YellowOrangeBlue,
        Piece::YellowBlue,
    ])
}

#[test]
fn pieces() {
    let solved = Position::solved();
    let pieces = solved.pieces();

    assert_eq!(
        pieces,
        [
            Piece::WhiteRedBlue,
            Piece::WhiteBlue,
            Piece::WhiteBlueOrange,
            Piece::WhiteOrange,
            Piece::WhiteOrangeGreen,
            Piece::WhiteGreen,
            Piece::WhiteGreenRed,
            Piece::WhiteRed,
            Piece::YellowOrange,
            Piece::YellowOrangeBlue,
            Piece::YellowBlue,
            Piece::YellowBlueRed,
            Piece::YellowRed,
            Piece::YellowRedGreen,
            Piece::YellowGreen,
            Piece::YellowGreenOrange
        ]
    );

    assert_eq!(
        solved.display(),
        "WRB WB WBO WO | WOG WG WGR WR | YO YOB YB YBR | YR YRG YG YGO"
    );
}

#[test]
fn neighbours() {
    let position = scrambled();
    let mut neighbours = NeighboursStack::new();

    position.neighbours(&mut neighbours);

    println!("{}", neighbours.neighbours().len());
    for n in neighbours.neighbours() {
        let change = n.change();
        println!(
            "{} = {} = {}",
            format!(
                "T{}B{}T{}B{}",
                change.top_before, change.bottom_before, change.top_after, change.bottom_after
            ),
            n.position().display(),
            n.position().score()
        );
    }

    let unique: BTreeSet<String> = neighbours
        .neighbours()
        .iter()
        .map(|m| m.position().display())
        .collect();
    assert_eq!(unique.len(), neighbours.neighbours().len());
}

#[test]
fn neighbours_of_solved_are_distinct() {
    let mut neighbours = NeighboursStack::new();
    Position::solved().neighbours(&mut neighbours);

    let unique: BTreeSet<String> = neighbours
        .neighbours()
        .iter()
        .map(|m| m.position().display())
        .collect();
    assert_eq!(unique.len(), neighbours.neighbours().len());
    assert!(!neighbours.neighbours().is_empty());
}

#[test]
fn score() {
    assert_eq!(Position::solved().score(), 16);
}

#[test]
fn solved_score() {
    assert_eq!(OuterPosition::solved().solved_score(), 25);
    assert_eq!(OuterPosition::solved().flipped().solved_score(), 20);
}

#[test]
fn outer_layer_movement_shifts() {
    let top = OuterPosition::solved().top;
    let movements = top.for_each_movement();
    let shifts: Vec<u8> = movements.iter().map(|m| m.1).collect();
    assert_eq!(shifts, vec![6, 2, 8, 3, 9, 5, 11]);
    for m in &movements {
        // each rotation keeps the cyclic adjacency of the solved layer
        assert_eq!(m.0.solved_score(), 12);
    }
}

#[test]
fn outer_layer_flip_exchanges_movable_halves() {
    let solved = OuterPosition::solved();
    let (new_top, new_bottom) = OuterLayer::flip(solved.top, solved.bottom);
    let top_bytes = new_top.as_bytes();
    let bottom_bytes = new_bottom.as_bytes();
    let old_top_bytes = solved.top.as_bytes();
    let old_bottom_bytes = solved.bottom.as_bytes();
    for i in 0..6 {
        assert_eq!(top_bytes[i], old_bottom_bytes[i]);
        assert_eq!(bottom_bytes[i], old_top_bytes[i]);
    }
    for i in 6..12 {
        assert_eq!(top_bytes[i], old_top_bytes[i]);
        assert_eq!(bottom_bytes[i], old_bottom_bytes[i]);
    }
}

#[test]
fn outer_piece_tags_are_consistent() {
    let piece = OuterPiece::WhiteGreenRed1;
    assert_eq!(piece.sequence(), 9);
    assert!(piece.is_white());
    assert!(piece.can_split_before());
    assert!(!OuterPiece::WhiteGreenRed2.can_split_before());
    assert!(piece.is_followed_by(OuterPiece::WhiteGreenRed2));
    assert!(!piece.is_followed_by(OuterPiece::YellowGreenOrange2));
    assert!(OuterPiece::WhiteRed.is_followed_by(OuterPiece::WhiteRedBlue1));
}
