use otspec::de::{from_bytes, Deserializer};
use otspec::otvar::itemvariationstore::{ItemVariationData, ItemVariationStore, RegionAxisCoordinates};

fn scenario_a_data() -> ItemVariationData {
    ItemVariationData {
        region_indexes: vec![0],
        delta_values: vec![vec![-200], vec![-50], vec![100], vec![200]],
    }
}

fn f2dot14(v: i16) -> f32 {
    v as f32 / 16384.0
}

#[test]
fn otvar_de_ivd() {
    let binary_ivd = vec![
        0x00, 0x04, 0x00, 0x01, 0x00, 0x01, 0x00, 0x00, 0xFF, 0x38, 0xFF, 0xCE, 0x00, 0x64,
        0x00, 0xC8,
    ];
    let fivd = scenario_a_data();
    let deserialized: ItemVariationData = from_bytes(&binary_ivd).unwrap();
    assert_eq!(deserialized, fivd);
}

#[test]
fn otvar_de_ivs() {
    let binary_ivs = vec![
        0x00, 0x01, 0x00, 0x00, 0x00, 0x0C, 0x00, 0x01, 0x00, 0x00, 0x00, 0x16, 0x00, 0x01,
        0x00, 0x01, 0x00, 0x00, 0x40, 0x00, 0x40, 0x00, 0x00, 0x04, 0x00, 0x01, 0x00, 0x01,
        0x00, 0x00, 0xFF, 0x38, 0xFF, 0xCE, 0x00, 0x64, 0x00, 0xC8,
    ];
    let deserialized: ItemVariationStore = from_bytes(&binary_ivs).unwrap();
    let fivd = scenario_a_data();
    let fivs = ItemVariationStore {
        format: 1,
        axis_count: 1,
        variation_regions: vec![vec![RegionAxisCoordinates {
            start_coord: 0,
            peak_coord: 0x4000,
            end_coord: 0x4000,
        }]],
        variation_data: vec![fivd],
    };
    assert_eq!(deserialized, fivs);
    let region = deserialized.variation_regions[0][0];
    assert_eq!(f2dot14(region.start_coord), 0.0);
    assert_eq!(f2dot14(region.peak_coord), 1.0);
    assert_eq!(f2dot14(region.end_coord), 1.0);
}

#[test]
fn ivs_truncated_anywhere_is_eof() {
    let binary_ivs = vec![
        0x00, 0x01, 0x00, 0x00, 0x00, 0x0C, 0x00, 0x01, 0x00, 0x00, 0x00, 0x16, 0x00, 0x01,
        0x00, 0x01, 0x00, 0x00, 0x40, 0x00, 0x40, 0x00, 0x00, 0x04, 0x00, 0x01, 0x00, 0x01,
        0x00, 0x00, 0xFF, 0x38, 0xFF, 0xCE, 0x00, 0x64, 0x00, 0xC8,
    ];
    for k in 0..binary_ivs.len() {
        let r: Result<ItemVariationStore, otspec::error::Error> = from_bytes(&binary_ivs[..k]);
        assert_eq!(r, Err(otspec::error::Error::Eof));
    }
}

#[test]
fn ivd_rows_have_one_delta_per_region() {
    let binary_ivd = vec![
        0x00, 0x02, 0x00, 0x01, 0x00, 0x02, 0x00, 0x00, 0x00, 0x03, 0x00, 0x64, 0xFF, 0xFF,
        0x38, 0x7F,
    ];
    let ivd: ItemVariationData = from_bytes(&binary_ivd).unwrap();
    assert_eq!(ivd.region_indexes, vec![0, 3]);
    assert_eq!(ivd.delta_values, vec![vec![100, -1], vec![-200, 127]]);
    for row in &ivd.delta_values {
        assert_eq!(row.len(), ivd.region_indexes.len());
    }
}

#[test]
fn ivd_more_word_columns_than_regions() {
    let binary_ivd = vec![0x00, 0x01, 0x00, 0x02, 0x00, 0x01, 0x00, 0x00, 0x00, 0x01];
    let r: Result<ItemVariationData, otspec::error::Error> = from_bytes(&binary_ivd);
    assert_eq!(r, Err(otspec::error::Error::CountMismatch));
}

#[test]
fn ivd_leaves_trailing_bytes_unread() {
    let mut bytes = vec![
        0x00, 0x04, 0x00, 0x01, 0x00, 0x01, 0x00, 0x00, 0xFF, 0x38, 0xFF, 0xCE, 0x00, 0x64,
        0x00, 0xC8,
    ];
    bytes.push(0xAB);
    let mut de = Deserializer::from_bytes(&bytes);
    let r = <ItemVariationData as otspec::de::Decode>::decode(&mut de).unwrap();
    assert_eq!(r, scenario_a_data());
    assert_eq!(de.position(), 16);
    assert!(!de.is_at_end());
}

#[test]
fn region_axis_coordinates_are_three_words() {
    let r: RegionAxisCoordinates = from_bytes(&[0xC0, 0x00, 0x00, 0x00, 0x40, 0x00]).unwrap();
    assert_eq!(
        r,
        RegionAxisCoordinates { start_coord: -0x4000, peak_coord: 0, end_coord: 0x4000 }
    );
    assert_eq!(f2dot14(r.start_coord), -1.0);
}
