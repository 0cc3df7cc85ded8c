use otspec::de::Deserializer;
use otspec::error::Error;
use otspec::otvar::packeddeltas::PackedDeltasDeserializer;
use otspec::otvar::packedpoints::PackedPointsDeserializer;
use otspec::otvar::tuplevariationheader::{TupleIndexFlags, TupleVariationHeaderDeserializer};
use otspec::otvar::tuplevariationstore::TupleVariationStoreDeserializer;
use otspec::otvar::Delta;

fn points(bytes: &[u8], point_count: u16) -> Result<Option<Vec<u16>>, Error> {
    let mut de = Deserializer::from_bytes(bytes);
    PackedPointsDeserializer { point_count }.deserialize(&mut de).map(|p| p.points)
}

fn deltas(bytes: &[u8], num_points: usize) -> Result<Vec<i16>, Error> {
    let mut de = Deserializer::from_bytes(bytes);
    PackedDeltasDeserializer { num_points }.deserialize(&mut de).map(|d| d.0)
}

#[test]
fn zero_count_selects_every_point() {
    let bytes = [0x00, 0xFF, 0x12, 0x34];
    let mut de = Deserializer::from_bytes(&bytes);
    let p = PackedPointsDeserializer { point_count: 7 }.deserialize(&mut de).unwrap();
    assert_eq!(p.points, None);
    assert_eq!(de.position(), 1);
    assert_eq!(points(&[0x00], 7), Ok(None));
}

#[test]
fn byte_run_of_points_accumulates() {
    assert_eq!(points(&[0x03, 0x02, 0x01, 0x02, 0x03], 10), Ok(Some(vec![1, 3, 6])));
}

#[test]
fn first_point_may_be_zero() {
    assert_eq!(points(&[0x02, 0x01, 0x00, 0x04], 10), Ok(Some(vec![0, 4])));
}

#[test]
fn two_byte_count_and_word_run() {
    assert_eq!(
        points(&[0x80, 0x02, 0x81, 0x00, 0x05, 0x01, 0x00], 300),
        Ok(Some(vec![5, 261]))
    );
}

#[test]
fn several_runs_of_points() {
    assert_eq!(
        points(&[0x03, 0x00, 0x02, 0x81, 0x00, 0x10, 0x00, 0x10], 100),
        Ok(Some(vec![2, 18, 34]))
    );
}

#[test]
fn repeated_point_is_rejected() {
    assert_eq!(points(&[0x02, 0x01, 0x03, 0x00], 10), Err(Error::InvalidPoint));
}

#[test]
fn point_beyond_count_is_rejected() {
    assert_eq!(points(&[0x01, 0x00, 0x05], 3), Err(Error::InvalidPoint));
}

#[test]
fn run_longer_than_declared_total() {
    assert_eq!(points(&[0x01, 0x01, 0x00, 0x01], 10), Err(Error::CountMismatch));
}

#[test]
fn points_truncated_anywhere_is_eof() {
    let bytes = [0x80, 0x02, 0x81, 0x00, 0x05, 0x01, 0x00];
    for k in 0..bytes.len() {
        assert_eq!(points(&bytes[..k], 300), Err(Error::Eof));
    }
}

#[test]
fn zero_run_then_word_run() {
    assert_eq!(deltas(&[0x82, 0x41, 0x00, 0x01, 0xFF, 0xFF], 5), Ok(vec![0, 0, 0, 1, -1]));
}

#[test]
fn byte_deltas_are_signed() {
    assert_eq!(deltas(&[0x02, 0x01, 0xFF, 0x80], 3), Ok(vec![1, -1, -128]));
}

#[test]
fn overlong_value_run_is_cut() {
    let bytes = [0x05, 0x01, 0x02, 0x7F];
    let mut de = Deserializer::from_bytes(&bytes);
    let d = PackedDeltasDeserializer { num_points: 2 }.deserialize(&mut de).unwrap();
    assert_eq!(d.0, vec![1, 2]);
    assert_eq!(de.position(), 3);
}

#[test]
fn overlong_zero_run_is_cut() {
    assert_eq!(deltas(&[0xBF], 2), Ok(vec![0, 0]));
}

#[test]
fn no_points_no_bytes() {
    let mut de = Deserializer::from_bytes(&[]);
    assert_eq!(PackedDeltasDeserializer { num_points: 0 }.deserialize(&mut de).unwrap().0, Vec::<i16>::new());
}

#[test]
fn deltas_truncated_is_eof() {
    let bytes = [0x82, 0x41, 0x00, 0x01, 0xFF, 0xFF];
    for k in 0..bytes.len() {
        assert_eq!(deltas(&bytes[..k], 5), Err(Error::Eof));
    }
}

#[test]
fn flags_split_into_bits_and_index() {
    let f = TupleIndexFlags { bits: 0xA005 };
    assert!(f.embedded_peak_tuple());
    assert!(!f.intermediate_region());
    assert!(f.private_point_numbers());
    assert_eq!(f.tuple_index(), 5);
}

#[test]
fn header_with_embedded_peak() {
    let bytes = [0x00, 0x10, 0xA0, 0x00, 0x40, 0x00, 0xC0, 0x00];
    let mut de = Deserializer::from_bytes(&bytes);
    let h = TupleVariationHeaderDeserializer { axis_count: 2 }.deserialize(&mut de).unwrap();
    assert_eq!(h.size, 16);
    assert_eq!(h.flags.bits, 0xA000);
    assert_eq!(h.peak_tuple, Some(vec![16384, -16384]));
    assert_eq!(h.start_tuple, None);
    assert_eq!(h.end_tuple, None);
    assert_eq!(de.position(), 8);
}

#[test]
fn header_with_intermediate_region() {
    let bytes = [0x00, 0x08, 0xC0, 0x00, 0x20, 0x00, 0x00, 0x00, 0x40, 0x00];
    let mut de = Deserializer::from_bytes(&bytes);
    let h = TupleVariationHeaderDeserializer { axis_count: 1 }.deserialize(&mut de).unwrap();
    assert_eq!(h.peak_tuple, Some(vec![0x2000]));
    assert_eq!(h.start_tuple, Some(vec![0]));
    assert_eq!(h.end_tuple, Some(vec![0x4000]));
}

#[test]
fn header_with_shared_tuple_index() {
    let bytes = [0x00, 0x08, 0x00, 0x03, 0x40];
    let mut de = Deserializer::from_bytes(&bytes);
    let h = TupleVariationHeaderDeserializer { axis_count: 3 }.deserialize(&mut de).unwrap();
    assert_eq!(h.peak_tuple, None);
    assert_eq!(h.flags.tuple_index(), 3);
    assert_eq!(de.position(), 4);
}

#[test]
fn cvt_store_without_point_sets_covers_every_point() {
    let bytes = [0x00, 0x01, 0x00, 0x08, 0x00, 0x04, 0x80, 0x00, 0x40, 0x00, 0x02, 0x01, 0x02, 0x03];
    let mut de = Deserializer::from_bytes(&bytes);
    let store = TupleVariationStoreDeserializer { axis_count: 1, is_gvar: false, point_count: 3 }
        .deserialize(&mut de)
        .unwrap();
    assert_eq!(store.0.len(), 1);
    assert_eq!(store.0[0].0.peak_tuple, Some(vec![0x4000]));
    assert_eq!(store.0[0].1, vec![Delta::Delta1D(1), Delta::Delta1D(2), Delta::Delta1D(3)]);
}

fn glyph_store_bytes() -> Vec<u8> {
    vec![
        0x80, 0x02, 0x00, 0x00, // two tuples, shared points
        0x00, 0x06, 0x80, 0x00, 0x40, 0x00, // header: embedded peak
        0x00, 0x06, 0xA0, 0x00, 0xC0, 0x00, // header: embedded peak, private points
        0x02, 0x01, 0x00, 0x02, // shared points 0, 2
        0x01, 0x0A, 0x14, 0x81, // x 10, 20; y zeros
        0x01, 0x00, 0x01, // private point 1
        0x00, 0x05, 0x00, 0xFB, // x 5; y -5
    ]
}

#[test]
fn glyph_store_with_shared_and_private_points() {
    let bytes = glyph_store_bytes();
    let mut de = Deserializer::from_bytes(&bytes);
    let store = TupleVariationStoreDeserializer { axis_count: 1, is_gvar: true, point_count: 4 }
        .deserialize(&mut de)
        .unwrap();
    assert_eq!(store.0.len(), 2);
    assert_eq!(store.0[0].0.peak_tuple, Some(vec![0x4000]));
    assert_eq!(store.0[0].1, vec![Delta::Delta2D((10, 0)), Delta::Delta2D((20, 0))]);
    assert_eq!(store.0[1].0.peak_tuple, Some(vec![-0x4000]));
    assert_eq!(store.0[1].1, vec![Delta::Delta2D((5, -5))]);
    assert_eq!(de.position(), bytes.len());
}

#[test]
fn private_empty_point_set_covers_every_point() {
    let bytes = [
        0x00, 0x01, 0x00, 0x00, 0x00, 0x03, 0x20, 0x00, // one tuple, private points
        0x00, // every point
        0x81, 0x01, 0x07, 0x09, // x zeros; y 7, 9
    ];
    let mut de = Deserializer::from_bytes(&bytes);
    let store = TupleVariationStoreDeserializer { axis_count: 2, is_gvar: true, point_count: 2 }
        .deserialize(&mut de)
        .unwrap();
    assert_eq!(store.0[0].1, vec![Delta::Delta2D((0, 7)), Delta::Delta2D((0, 9))]);
}

#[test]
fn store_truncated_anywhere_is_eof() {
    let bytes = glyph_store_bytes();
    for k in 0..bytes.len() {
        let mut de = Deserializer::from_bytes(&bytes[..k]);
        let r = TupleVariationStoreDeserializer { axis_count: 1, is_gvar: true, point_count: 4 }
            .deserialize(&mut de);
        assert_eq!(r.err(), Some(Error::Eof));
    }
}

#[test]
fn two_axis_delta_accessor() {
    assert_eq!(Delta::Delta2D((3, -4)).get_2d(), Ok((3, -4)));
    assert_eq!(Delta::Delta1D(3).get_2d(), Err(Error::NotTwoAxis));
}

#[test]
fn store_passes_on_a_point_fault() {
    let bytes = [
        0x00, 0x01, 0x00, 0x00, 0x00, 0x03, 0x20, 0x00, // one tuple, private points
        0x01, 0x00, 0x09, // point 9 of 2
        0x81, 0x81,
    ];
    let mut de = Deserializer::from_bytes(&bytes);
    let r = TupleVariationStoreDeserializer { axis_count: 2, is_gvar: true, point_count: 2 }.deserialize(&mut de);
    assert_eq!(r.err(), Some(Error::InvalidPoint));
}
