use ball_puzzle::faster::layer::Layer;
use ball_puzzle::faster::rotatable_layer::RotatableLayer;
use ball_puzzle::piece::Piece;

fn eight_white_pieces() -> Vec<Piece> {
    vec![
        Piece::WhiteRedBlue,
        Piece::WhiteBlue,
        Piece::WhiteBlueOrange,
        Piece::WhiteOrange,
        Piece::WhiteOrangeGreen,
        Piece::WhiteGreen,
        Piece::WhiteGreenRed,
        Piece::WhiteRed,
    ]
}

#[test]
fn layer_rotations() {
    let pieces = eight_white_pieces();
    let layer = Layer::from_pieces(&pieces);

    let mut rotations = vec![];
    layer.rotations(&mut rotations);

    let mut expected_rotations: Vec<(Layer, u8)> = Vec::new();
    for n in 0..8 {
        let mut rotated = vec![];
        rotated.extend_from_slice(&pieces[pieces.len() - n..]);
        rotated.extend_from_slice(&pieces[..pieces.len() - n]);
        expected_rotations.push((Layer::from_pieces(&rotated), n as u8));
    }

    assert_eq!(rotations.len(), expected_rotations.len());
    for (actual, expected) in rotations.into_iter().zip(expected_rotations) {
        assert_eq!(
            actual,
            expected,
            "{} != {}",
            actual.0.display(),
            expected.0.display()
        );
    }
}

#[test]
fn rotatable_layer_rotations() {
    let pieces = eight_white_pieces();
    let layer = RotatableLayer::from_pieces(&pieces);

    let mut rotations = vec![];
    layer.rotations(&mut rotations);

    let mut expected_rotations: Vec<(RotatableLayer, u8)> = Vec::new();
    for n in 0..8 {
        let mut rotated = vec![];
        rotated.extend_from_slice(&pieces[pieces.len() - n..]);
        rotated.extend_from_slice(&pieces[..pieces.len() - n]);
        expected_rotations.push((RotatableLayer::from_pieces(&rotated), n as u8));
    }

    assert_eq!(rotations.len(), expected_rotations.len());
    for (actual, expected) in rotations.into_iter().zip(expected_rotations) {
        assert_eq!(
            actual,
            expected,
            "{} != {}",
            actual.0.display(),
            expected.0.display()
        );
    }
}

#[test]
fn rotations_identity_first() {
    let layer = Layer::from_pieces(&eight_white_pieces());
    let mut rotations = vec![];
    layer.rotations(&mut rotations);
    assert!(!rotations.is_empty());
    assert_eq!(rotations[0], (layer, 0));
}

#[test]
fn split_then_join_restores_the_configuration() {
    let bits = ball_puzzle::faster::position::Position::solved().as_bytes();
    let (top, bottom) = RotatableLayer::split(bits);
    assert_eq!(RotatableLayer::join(top, bottom), bits);

    let (top2, bottom2) = Layer::split(bits);
    assert_eq!(Layer::join(top2, bottom2), bits);
}

#[test]
fn piece_codec_round_trip() {
    let all = [
        Piece::WhiteRedBlue,
        Piece::WhiteBlue,
        Piece::WhiteBlueOrange,
        Piece::WhiteOrange,
        Piece::WhiteOrangeGreen,
        Piece::WhiteGreen,
        Piece::WhiteGreenRed,
        Piece::WhiteRed,
        Piece::YellowOrange,
        Piece::YellowOrangeBlue,
        Piece::YellowBlue,
        Piece::YellowBlueRed,
        Piece::YellowRed,
        Piece::YellowRedGreen,
        Piece::YellowGreen,
        Piece::YellowGreenOrange,
    ];
    for piece in all {
        assert_eq!(Piece::from_bits(piece.as_bits()), piece);
    }
    for bits in 0..16u64 {
        assert_eq!(Piece::from_bits(bits).as_bits(), bits);
    }
}
