use stackvm::chess::{MovePiece, Piece, PieceType};

#[test]
fn lib_it_works() {
    let result: i32 = 2 + 2;
    assert_eq!(result, 4);
    let new_piece = Piece::new(PieceType::King, true);
    let output = new_piece.move_piece(1).unwrap();
    println!("{}", output);
}

#[test]
fn every_piece_moves_to_square_one() {
    assert_eq!(Piece::new(PieceType::Queen, false).move_piece(7), Some(1));
    assert_eq!(Piece::new(PieceType::Pawn, true).move_piece(0), Some(1));
    assert_eq!(Piece::new(PieceType::Rook, false).move_piece(63), Some(1));
}

#[test]
fn piece_kinds_have_their_display_names() {
    assert_eq!(PieceType::King.curr_type(), "King");
    assert_eq!(PieceType::Queen.curr_type(), "Queen");
    assert_eq!(PieceType::Pawn.curr_type(), "Pawn");
    assert_eq!(PieceType::Knight.curr_type(), "Knight");
    assert_eq!(PieceType::Bishop.curr_type(), "Bishop");
    assert_eq!(PieceType::Rook.curr_type(), "Rook");
}
