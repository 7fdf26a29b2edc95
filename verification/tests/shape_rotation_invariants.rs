//! Rotating and flipping shapes keeps their cells intact.

use std::collections::HashSet;

use socha::incoming::{ReceivedPiece, ReceivedPosition};
use socha::messages::build_piece_from_received;
use socha::neutral::{Color, Coordinates, Move, Piece, PieceShape, Rotation};
use socha::outgoing::make_move_xml;

#[test]
fn variants_preserve_cell_count() {
    for &shape in PieceShape::ALL.iter() {
        let expected = shape.size();
        let variants = shape.variants();
        assert!(!variants.is_empty(), "{} produced no variants", shape.as_str());
        for v in &variants {
            assert_eq!(
                v.shape.len(),
                expected,
                "{} variant rot={:?} flip={} produced {} cells (expected {expected})",
                shape.as_str(),
                v.rotation,
                v.is_flipped,
                v.shape.len()
            );
        }
    }
}

#[test]
fn variants_have_unique_cells() {
    for &shape in PieceShape::ALL.iter() {
        for v in shape.variants() {
            let set: HashSet<(i32, i32)> = v.shape.iter().copied().collect();
            assert_eq!(set.len(), v.shape.len(), "{} variant has duplicate cells: {:?}", shape.as_str(), v.shape);
        }
    }
}

#[test]
fn variants_have_non_negative_aligned_origin() {
    for &shape in PieceShape::ALL.iter() {
        for v in shape.variants() {
            for &(x, y) in &v.shape {
                assert!(x >= 0 && y >= 0, "{} variant has negative coord ({x},{y})", shape.as_str());
            }
            let min_x = v.shape.iter().map(|&(x, _)| x).min().expect("non-empty");
            let min_y = v.shape.iter().map(|&(_, y)| y).min().expect("non-empty");
            assert_eq!(min_x, 0, "{} variant has min_x={min_x}: {:?}", shape.as_str(), v.shape);
            assert_eq!(min_y, 0, "{} variant has min_y={min_y}: {:?}", shape.as_str(), v.shape);
        }
    }
}

#[test]
fn variants_deduplicated() {
    for &shape in PieceShape::ALL.iter() {
        let variants = shape.variants();
        let set: HashSet<Vec<(i32, i32)>> = variants.iter().map(|v| v.shape.clone()).collect();
        assert_eq!(
            set.len(),
            variants.len(),
            "{} has {} duplicate variant shapes among {} entries",
            shape.as_str(),
            variants.len() - set.len(),
            variants.len()
        );
    }
}

#[test]
fn rotation_then_inverse_restores_original_shape() {
    for &shape in PieceShape::ALL.iter() {
        let original = shape.transform(Rotation::Zero, false);
        let combined = (0..4).fold(Rotation::Zero, |acc, _| acc.combine(Rotation::Right));
        assert_eq!(combined, Rotation::Zero, "4x Right should combine to no rotation");
        let final_shape = shape.transform(combined, false);
        let mut sorted_orig: Vec<(i32, i32)> = original;
        sorted_orig.sort();
        let mut sorted_acc: Vec<(i32, i32)> = final_shape;
        sorted_acc.sort();
        assert_eq!(sorted_orig, sorted_acc, "{}: 4x Right rotation did not restore original shape", shape.as_str());
    }
}

#[test]
fn xml_roundtrip_preserves_shape() {
    // The `<piece>` part of the written move holds the piece's attributes;
    // read back with those texts it gives the same piece.

    for &shape in PieceShape::ALL.iter() {
        for variant in shape.variants() {
            let piece = Piece::new(Color::Blue, shape, variant.rotation, variant.is_flipped, Coordinates::new(3, 4));
            let mv = Move::SetMove { piece };
            let xml = make_move_xml("rid", &mv).expect("xml build");
            let start = xml.find("<piece ").expect("piece tag in xml");
            let end = xml[start..].find("</piece>").expect("piece close tag") + start + "</piece>".len();
            let piece_xml = &xml[start..end];
            let flipped = if variant.is_flipped { "true" } else { "false" };
            assert_eq!(
                piece_xml,
                format!(
                    "<piece color=\"BLUE\" kind=\"{}\" rotation=\"{}\" isFlipped=\"{}\"><position x=\"3\" y=\"4\"/></piece>",
                    shape.as_str(),
                    variant.rotation.as_str(),
                    flipped
                )
            );
            let received = ReceivedPiece {
                color: "BLUE".to_string(),
                kind: shape.as_str().to_string(),
                rotation: variant.rotation.as_str().to_string(),
                is_flipped: flipped.to_string(),
                position: Some(ReceivedPosition { x: 3, y: 4 }),
            };
            assert_eq!(received.color, "BLUE");
            assert_eq!(received.kind, shape.as_str());
            assert_eq!(received.rotation, variant.rotation.as_str());
            assert_eq!(received.is_flipped.trim(), flipped);
            assert_eq!(received.position.as_ref().unwrap().x, 3);
            assert_eq!(received.position.as_ref().unwrap().y, 4);
            assert_eq!(build_piece_from_received(&received).unwrap(), piece);
        }
    }
}
