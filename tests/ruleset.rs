use blokus::{
    corner_count, corner_offsets, corner_table, BlokusPiece, BlokusPieceSet, BoardGeometry,
    Coordinates, StandardBlokusPieceSet,
};

#[test]
fn standard_blokus_pieces_have_at_most_5_tiles() {
    for (i, piece) in StandardBlokusPieceSet::pieces().iter().enumerate() {
        let tile_count = piece.shape.data().count_ones();
        assert!(tile_count <= 5, "piece #{i} has {tile_count} tiles, expected at most 5",)
    }
}

#[test]
fn standard_blokus_pieces_include_all_expected_dimensions() {
    let mut dimen = vec![
        (3, 3),
        (4, 2),
        (3, 2),
        (2, 2),
        (3, 3),
        (3, 3),
        (3, 3),
        (2, 3),
        (2, 4),
        (2, 3),
        (2, 2),
        (3, 2),
        (1, 1),
        (2, 1),
        (3, 1),
        (4, 1),
        (5, 1),
        (3, 3),
        (2, 4),
        (3, 3),
        (2, 3),
    ];

    for (i, piece) in StandardBlokusPieceSet::pieces().iter().enumerate() {
        let geom = piece.shape.geometry();
        let index = dimen
            .iter()
            .enumerate()
            .find(|(_, p)| p.0 == geom.width() && p.1 == geom.height())
            .map(|(i, _)| i);
        match index {
            Some(index) => {
                dimen.remove(index);
            }
            None => panic!(
                "piece #{i} is {w}x{h}, which is not in dimension list\n  dimen = {dimen:#?}",
                w = geom.width(),
                h = geom.height()
            ),
        }
    }
}

#[test]
fn correctly_count_1x1_corners() {
    let _1x1 = BlokusPiece::parse("x");
    assert_eq!(_1x1.count_corners(), 4);
}

#[test]
fn single_cell_piece() {
    let piece = BlokusPiece::parse("x");
    assert_eq!((piece.shape.geometry().width(), piece.shape.geometry().height()), (1, 1));
    assert_eq!(*piece.shape.data(), 1);
    assert_eq!(piece.shape.data().count_ones(), 1);
    let corners: Vec<Coordinates> = (0..4).map(|i| piece.nth_corner(i)).collect();
    assert_eq!(
        corners,
        vec![
            Coordinates::new(1, 1),
            Coordinates::new(-1, -1),
            Coordinates::new(1, 1),
            Coordinates::new(1, -1),
        ]
    );
}

#[test]
fn domino_corners() {
    let piece = BlokusPiece::parse("xx");
    assert_eq!((piece.shape.geometry().width(), piece.shape.geometry().height()), (2, 1));
    assert_eq!(*piece.shape.data(), 0b11);
    assert_eq!(piece.count_corners(), 4);
    let corners: Vec<Coordinates> = (0..4).map(|i| piece.nth_corner(i)).collect();
    assert_eq!(
        corners,
        vec![
            Coordinates::new(-1, -1),
            Coordinates::new(1, -1),
            Coordinates::new(2, 1),
            Coordinates::new(2, 1),
        ]
    );
}

#[test]
fn parse_reads_rows_and_skips_blanks() {
    let bar = BlokusPiece::parse("x x x|. . x");
    assert_eq!((bar.shape.geometry().width(), bar.shape.geometry().height()), (3, 2));
    assert_eq!(*bar.shape.data(), 0b100_111);
    let multi_line = BlokusPiece::parse(
        "x x x
         . . x",
    );
    assert_eq!(*multi_line.shape.data(), 0b100_111);
    assert!(multi_line.shape.get(Coordinates::new(2, 1)));
    assert!(!multi_line.shape.get(Coordinates::new(0, 1)));
    // A short row leaves the rest of its cells empty.
    let short = BlokusPiece::parse("x|x x");
    assert_eq!((short.shape.geometry().width(), short.shape.geometry().height()), (2, 2));
    assert_eq!(*short.shape.data(), 0b1101);
}

#[test]
fn try_parse_rejects_other_characters() {
    assert!(BlokusPiece::try_parse("x x|x").is_some());
    assert!(BlokusPiece::try_parse("x o").is_none());
    assert!(BlokusPiece::try_parse("x,x").is_none());
    assert!(BlokusPiece::try_parse("x\tx").is_none());
    assert!(BlokusPiece::try_parse("X").is_none());
    assert!(BlokusPiece::try_parse("é").is_none());
}

#[test]
fn try_parse_rejects_more_than_32_cells() {
    assert!(BlokusPiece::try_parse(&"x".repeat(32)).is_some());
    assert!(BlokusPiece::try_parse(&"x".repeat(33)).is_none());
    assert!(BlokusPiece::try_parse("xxxxxxxx|x|x|x").is_some());
    assert!(BlokusPiece::try_parse("xxxxxxxxx|x|x|x").is_none());
    assert!(BlokusPiece::try_parse(&"|".repeat(40)).is_none());
}

#[test]
fn empty_text_is_one_empty_cell() {
    let piece = BlokusPiece::parse("");
    assert_eq!((piece.shape.geometry().width(), piece.shape.geometry().height()), (1, 1));
    assert_eq!(*piece.shape.data(), 0);
    assert_eq!(piece.count_corners(), 4);
}

#[test]
fn standard_set_has_21_pieces_of_one_to_five_tiles() {
    let pieces = StandardBlokusPieceSet::pieces();
    assert_eq!(pieces.len(), 21);
    for piece in &pieces {
        let tiles = piece.shape.data().count_ones();
        assert!((1..=5).contains(&tiles));
    }
}

#[test]
fn nth_corner_covers_every_counted_corner() {
    for piece in StandardBlokusPieceSet::pieces() {
        let count = piece.count_corners();
        assert!(count > 0);
        for i in 0..count {
            let corner = piece.nth_corner(i);
            assert!(corner.x >= -1 && corner.y >= -1);
        }
    }
}

#[test]
fn corner_table_concatenates_every_piece() {
    let pieces = StandardBlokusPieceSet::pieces();
    let mut expected = Vec::new();
    for piece in &pieces {
        for i in 0..piece.count_corners() {
            expected.push(piece.nth_corner(i));
        }
    }
    let table = corner_table(&pieces);
    assert_eq!(table, expected);
    assert_eq!(corner_count(&pieces), expected.len());
    let offsets = corner_offsets(&pieces);
    assert_eq!(offsets.len(), 21);
    let mut running = 0;
    for (piece, offset) in pieces.iter().zip(&offsets) {
        assert_eq!(*offset, running);
        running += piece.count_corners();
    }
    assert_eq!(offsets[0], 0);
    assert_eq!(offsets[1], 4);
}
