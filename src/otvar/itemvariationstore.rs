//! Item variation stores: regions of the design space, and per-region delta
//! rows for the items that vary.
use crate::de::{
    lemma_counted_bounds, lemma_counted_prefix, be_u32, lemma_i16, lemma_prepend_twice, lemma_scalar, lemma_u16, prepend, spec_counted,
    spec_i16, spec_u16, spec_u32, truncated, CountedDeserializer, Decode, Deserializer,
};
use crate::error::Error;
use vstd::prelude::*;

verus! {

/// The start, peak and end of a region on one axis, as normalized 2.14
/// fixed-point values.
#[derive(Debug, Clone, Copy, PartialEq, Eq)]
pub struct RegionAxisCoordinates {
    pub start_coord: i16,
    pub peak_coord: i16,
    pub end_coord: i16,
}

impl DeepView for RegionAxisCoordinates {
    type V = RegionAxisCoordinates;

    open spec fn deep_view(&self) -> RegionAxisCoordinates {
        *self
    }
}

/// Three big-endian `i16`: start, peak, end.
pub open spec fn spec_region_axis(data: Seq<u8>, pos: int) -> Result<(RegionAxisCoordinates, int), Error> {
    match spec_i16(data, pos) {
        Err(e) => Err(e),
        Ok((s, p1)) => match spec_i16(data, p1) {
            Err(e) => Err(e),
            Ok((pk, p2)) => match spec_i16(data, p2) {
                Err(e) => Err(e),
                Ok((en, p3)) => Ok((RegionAxisCoordinates { start_coord: s, peak_coord: pk, end_coord: en }, p3)),
            },
        },
    }
}

impl Decode for RegionAxisCoordinates {
    open spec fn spec_decode(data: Seq<u8>, pos: int) -> Result<(RegionAxisCoordinates, int), Error> {
        spec_region_axis(data, pos)
    }

    proof fn lemma_decode_bounds(data: Seq<u8>, pos: int) {
        lemma_i16(data, pos, 0);
        lemma_i16(data, pos + 2, 0);
        lemma_i16(data, pos + 4, 0);
    }

    proof fn lemma_decode_prefix(data: Seq<u8>, pos: int, k: int) {
        lemma_i16(data, pos, k);
        lemma_i16(data, pos + 2, k);
        lemma_i16(data, pos + 4, k);
    }

    fn decode(de: &mut Deserializer) -> (r: Result<RegionAxisCoordinates, Error>) {
        let start_coord = de.read_i16()?;
        let peak_coord = de.read_i16()?;
        let end_coord = de.read_i16()?;
        Ok(RegionAxisCoordinates { start_coord, peak_coord, end_coord })
    }
}

/// The deltas of the items that vary, one row per item and one column per
/// region that the block refers to.
#[derive(Debug, PartialEq)]
pub struct ItemVariationData {
    pub region_indexes: Vec<u16>,
    pub delta_values: Vec<Vec<i16>>,
}

/// What an item variation data block holds, as sequences.
pub struct ItemVariationDataModel {
    pub region_indexes: Seq<u16>,
    pub delta_values: Seq<Seq<i16>>,
}

impl DeepView for ItemVariationData {
    type V = ItemVariationDataModel;

    open spec fn deep_view(&self) -> ItemVariationDataModel {
        ItemVariationDataModel {
            region_indexes: self.region_indexes@,
            delta_values: self.delta_values.deep_view(),
        }
    }
}

/// Bytes taken as signed values, widened.
pub open spec fn widen(bs: Seq<i8>) -> Seq<i16> {
    bs.map_values(|b: i8| b as i16)
}

/// One row of `cols` deltas: the first `words` of two bytes, the rest of one.
pub open spec fn spec_row(data: Seq<u8>, pos: int, cols: nat, words: nat) -> Result<(Seq<i16>, int), Error> {
    match spec_counted::<i16>(data, pos, words) {
        Err(e) => Err(e),
        Ok((ws, p)) => match spec_counted::<i8>(data, p, (cols - words) as nat) {
            Err(e) => Err(e),
            Ok((bs, q)) => Ok((ws + widen(bs), q)),
        },
    }
}

/// `n` rows, one after another.
pub open spec fn spec_rows(data: Seq<u8>, pos: int, n: nat, cols: nat, words: nat) -> Result<(Seq<Seq<i16>>, int), Error>
    decreases n,
{
    if n == 0 {
        Ok((seq![], pos))
    } else {
        match spec_row(data, pos, cols, words) {
            Ok((row, p)) => prepend(seq![row], spec_rows(data, p, (n - 1) as nat, cols, words)),
            Err(e) => Err(e),
        }
    }
}

/// A block from its region indexes and the parse of its rows.
pub open spec fn with_region_indexes(ris: Seq<u16>, rows: Result<(Seq<Seq<i16>>, int), Error>) -> Result<
    (ItemVariationDataModel, int),
    Error,
> {
    match rows {
        Err(e) => Err(e),
        Ok((rows, q)) => Ok((ItemVariationDataModel { region_indexes: ris, delta_values: rows }, q)),
    }
}

/// An item variation data block: the item count, the count of word-sized
/// columns, the region index count, the region indexes, then the rows. More
/// word-sized columns than regions is `CountMismatch`.
pub open spec fn spec_item_variation_data(data: Seq<u8>, pos: int) -> Result<(ItemVariationDataModel, int), Error> {
    match spec_u16(data, pos) {
        Err(e) => Err(e),
        Ok((item_count, p1)) => match spec_u16(data, p1) {
            Err(e) => Err(e),
            Ok((word_count, p2)) => match spec_u16(data, p2) {
                Err(e) => Err(e),
                Ok((region_count, p3)) => if word_count > region_count {
                    Err(Error::CountMismatch)
                } else {
                    match spec_counted::<u16>(data, p3, region_count as nat) {
                        Err(e) => Err(e),
                        Ok((ris, p4)) => with_region_indexes(
                            ris,
                            spec_rows(data, p4, item_count as nat, region_count as nat, word_count as nat),
                        ),
                    }
                },
            },
        },
    }
}

/// A row ends within the buffer and has `cols` deltas.
pub proof fn lemma_row(data: Seq<u8>, pos: int, cols: nat, words: nat, k: int)
    requires
        0 <= pos <= data.len(),
        words <= cols,
    ensures
        spec_row(data, pos, cols, words) is Ok ==> pos <= spec_row(data, pos, cols, words)->Ok_0.1 <= data.len()
            && spec_row(data, pos, cols, words)->Ok_0.0.len() == cols,
        spec_row(data, pos, cols, words) is Ok && pos <= k <= data.len() ==> spec_row(data.take(k), pos, cols, words)
            == truncated(spec_row(data, pos, cols, words), k),
{
    lemma_counted_bounds::<i16>(data, pos, words);
    if let Ok((ws, p)) = spec_counted::<i16>(data, pos, words) {
        lemma_counted_bounds::<i8>(data, p, (cols - words) as nat);
        if spec_row(data, pos, cols, words) is Ok && pos <= k <= data.len() {
            lemma_counted_prefix::<i16>(data, pos, words, k);
            if p <= k {
                lemma_counted_prefix::<i8>(data, p, (cols - words) as nat, k);
            }
        }
    }
}

/// Rows end within the buffer, each with `cols` deltas.
pub proof fn lemma_rows(data: Seq<u8>, pos: int, n: nat, cols: nat, words: nat, k: int)
    requires
        0 <= pos <= data.len(),
        words <= cols,
    ensures
        spec_rows(data, pos, n, cols, words) is Ok ==> {
            let (rows, q) = spec_rows(data, pos, n, cols, words)->Ok_0;
            &&& pos <= q <= data.len()
            &&& rows.len() == n
            &&& forall|i: int| 0 <= i < rows.len() ==> (#[trigger] rows[i]).len() == cols
        },
        spec_rows(data, pos, n, cols, words) is Ok && pos <= k <= data.len() ==> spec_rows(data.take(k), pos, n, cols, words)
            == truncated(spec_rows(data, pos, n, cols, words), k),
    decreases n,
{
    if n > 0 {
        lemma_row(data, pos, cols, words, k);
        if let Ok((row, p)) = spec_row(data, pos, cols, words) {
            lemma_rows(data, p, (n - 1) as nat, cols, words, k);
            if let Ok((rest, q)) = spec_rows(data, p, (n - 1) as nat, cols, words) {
                let rows = seq![row] + rest;
                assert forall|i: int| 0 <= i < rows.len() implies (#[trigger] rows[i]).len() == cols by {
                    if i > 0 {
                        assert(rows[i] == rest[i - 1]);
                    }
                }
            }
        }
    }
}

/// Every row of a decoded item variation data block has one delta per region
/// index of the block.
pub proof fn lemma_rows_match_regions(data: Seq<u8>, pos: int)
    requires
        0 <= pos <= data.len(),
    ensures
        spec_item_variation_data(data, pos) is Ok ==> {
            let m = spec_item_variation_data(data, pos)->Ok_0.0;
            forall|i: int| 0 <= i < m.delta_values.len() ==> (#[trigger] m.delta_values[i]).len() == m.region_indexes.len()
        },
{
    lemma_u16(data, pos, 0);
    lemma_u16(data, pos + 2, 0);
    lemma_u16(data, pos + 4, 0);
    if let Ok((item_count, p1)) = spec_u16(data, pos) {
        if let Ok((word_count, p2)) = spec_u16(data, p1) {
            if let Ok((region_count, p3)) = spec_u16(data, p2) {
                if word_count <= region_count {
                    lemma_counted_bounds::<u16>(data, p3, region_count as nat);
                    if let Ok((ris, p4)) = spec_counted::<u16>(data, p3, region_count as nat) {
                        lemma_rows(data, p4, item_count as nat, region_count as nat, word_count as nat, 0);
                    }
                }
            }
        }
    }
}

/// Reads one row of `cols` deltas, the first `words` of them word-sized.
fn read_row(de: &mut Deserializer, cols: u16, words: u16) -> (r: Result<Vec<i16>, Error>)
    requires
        words <= cols,
    ensures
        final(de).data() == old(de).data(),
        match r {
            Ok(v) => spec_row(old(de).data(), old(de).pos(), cols as nat, words as nat) == Ok::<(Seq<i16>, int), Error>(
                (v@, final(de).pos()),
            ),
            Err(e) => spec_row(old(de).data(), old(de).pos(), cols as nat, words as nat) == Err::<
                (Seq<i16>, int),
                Error,
            >(e),
        },
{
    let mut row = CountedDeserializer::with_len(words as usize).deserialize::<i16>(de)?;
    let bytes = CountedDeserializer::with_len((cols - words) as usize).deserialize::<i8>(de)?;
    let ghost ws = row@;
    proof {
        assert(row.deep_view() =~= ws);
    }
    let mut i: usize = 0;
    while i < bytes.len()
        invariant
            i <= bytes.len(),
            row@ =~= ws + widen(bytes@.subrange(0, i as int)),
        decreases bytes.len() - i,
    {
        row.push(bytes[i] as i16);
        proof {
            assert(bytes@.subrange(0, i + 1) =~= bytes@.subrange(0, i as int).push(bytes@[i as int]));
        }
        i = i + 1;
    }
    proof {
        assert(bytes@.subrange(0, bytes@.len() as int) =~= bytes@);
        assert(bytes.deep_view() =~= bytes@);
    }
    Ok(row)
}

impl Decode for ItemVariationData {
    open spec fn spec_decode(data: Seq<u8>, pos: int) -> Result<(ItemVariationDataModel, int), Error> {
        spec_item_variation_data(data, pos)
    }

    proof fn lemma_decode_bounds(data: Seq<u8>, pos: int) {
        lemma_u16(data, pos, 0);
        lemma_u16(data, pos + 2, 0);
        lemma_u16(data, pos + 4, 0);
        if let Ok((item_count, p1)) = spec_u16(data, pos) {
            if let Ok((word_count, p2)) = spec_u16(data, p1) {
                if let Ok((region_count, p3)) = spec_u16(data, p2) {
                    if word_count <= region_count {
                        lemma_counted_bounds::<u16>(data, p3, region_count as nat);
                        if let Ok((ris, p4)) = spec_counted::<u16>(data, p3, region_count as nat) {
                            lemma_rows(data, p4, item_count as nat, region_count as nat, word_count as nat, 0);
                        }
                    }
                }
            }
        }
    }

    proof fn lemma_decode_prefix(data: Seq<u8>, pos: int, k: int) {
        lemma_u16(data, pos, k);
        lemma_u16(data, pos + 2, k);
        lemma_u16(data, pos + 4, k);
        let (item_count, p1) = spec_u16(data, pos)->Ok_0;
        let (word_count, p2) = spec_u16(data, p1)->Ok_0;
        let (region_count, p3) = spec_u16(data, p2)->Ok_0;
        lemma_counted_bounds::<u16>(data, p3, region_count as nat);
        if p3 <= k {
            lemma_counted_prefix::<u16>(data, p3, region_count as nat, k);
        }
        let (ris, p4) = spec_counted::<u16>(data, p3, region_count as nat)->Ok_0;
        lemma_rows(data, p4, item_count as nat, region_count as nat, word_count as nat, k);
    }

    fn decode(de: &mut Deserializer) -> (r: Result<ItemVariationData, Error>) {
        let item_count = de.read_u16()?;
        let word_count = de.read_u16()?;
        let region_count = de.read_u16()?;
        if word_count > region_count {
            return Err(Error::CountMismatch);
        }
        let region_indexes = CountedDeserializer::with_len(region_count as usize).deserialize::<u16>(de)?;
        proof {
            assert(region_indexes.deep_view() =~= region_indexes@);
        }
        let ghost p4 = de.pos();
        let ghost ris = region_indexes@;
        assert(spec_item_variation_data(old(de).data(), old(de).pos()) == with_region_indexes(
            ris,
            spec_rows(old(de).data(), p4, item_count as nat, region_count as nat, word_count as nat),
        ));
        let mut delta_values: Vec<Vec<i16>> = Vec::new();
        let mut i: u16 = 0;
        while i < item_count
            invariant
                i <= item_count,
                word_count <= region_count,
                de.data() == old(de).data(),
                ris == region_indexes@,
                spec_item_variation_data(old(de).data(), old(de).pos()) == with_region_indexes(
                    ris,
                    spec_rows(old(de).data(), p4, item_count as nat, region_count as nat, word_count as nat),
                ),
                spec_rows(old(de).data(), p4, item_count as nat, region_count as nat, word_count as nat) == prepend(
                    delta_values.deep_view(),
                    spec_rows(de.data(), de.pos(), (item_count - i) as nat, region_count as nat, word_count as nat),
                ),
            decreases item_count - i,
        {
            let ghost before = delta_values.deep_view();
            let row = read_row(de, region_count, word_count)?;
            let ghost rv = row@;
            assert(row.deep_view() =~= rv);
            proof {
                lemma_prepend_twice(
                    before,
                    seq![rv],
                    spec_rows(de.data(), de.pos(), (item_count - i - 1) as nat, region_count as nat, word_count as nat),
                );
            }
            delta_values.push(row);
            proof {
                assert(delta_values.deep_view() =~= before + seq![rv]);
            }
            i = i + 1;
        }
        proof {
            assert(delta_values.deep_view() + seq![] =~= delta_values.deep_view());
        }
        Ok(ItemVariationData { region_indexes, delta_values })
    }
}

/// Regions over the design space, and the blocks of deltas that refer to
/// them by index.
#[derive(Debug, PartialEq)]
pub struct ItemVariationStore {
    pub format: u16,
    pub axis_count: u16,
    pub variation_regions: Vec<Vec<RegionAxisCoordinates>>,
    pub variation_data: Vec<ItemVariationData>,
}

/// What an item variation store holds, as sequences.
pub struct ItemVariationStoreModel {
    pub format: u16,
    pub axis_count: u16,
    pub variation_regions: Seq<Seq<RegionAxisCoordinates>>,
    pub variation_data: Seq<ItemVariationDataModel>,
}

impl DeepView for ItemVariationStore {
    type V = ItemVariationStoreModel;

    open spec fn deep_view(&self) -> ItemVariationStoreModel {
        ItemVariationStoreModel {
            format: self.format,
            axis_count: self.axis_count,
            variation_regions: self.variation_regions.deep_view(),
            variation_data: self.variation_data.deep_view(),
        }
    }
}

/// `n` regions of `axis_count` axes each.
pub open spec fn spec_regions(data: Seq<u8>, pos: int, n: nat, axis_count: nat) -> Result<
    (Seq<Seq<RegionAxisCoordinates>>, int),
    Error,
>
    decreases n,
{
    if n == 0 {
        Ok((seq![], pos))
    } else {
        match spec_counted::<RegionAxisCoordinates>(data, pos, axis_count) {
            Ok((r, p)) => prepend(seq![r], spec_regions(data, p, (n - 1) as nat, axis_count)),
            Err(e) => Err(e),
        }
    }
}

/// The head of a store: its format, the offset of its region list, its
/// count of data blocks and their offsets. The offsets only describe the
/// layout: the parts follow one another.
pub open spec fn spec_store_head(data: Seq<u8>, pos: int) -> Result<((u16, u16), int), Error> {
    match spec_u16(data, pos) {
        Err(e) => Err(e),
        Ok((format, p1)) => match spec_u32(data, p1) {
            Err(e) => Err(e),
            Ok((_offset, p2)) => match spec_u16(data, p2) {
                Err(e) => Err(e),
                Ok((data_count, p3)) => match spec_counted::<u32>(data, p3, data_count as nat) {
                    Err(e) => Err(e),
                    Ok((_offsets, p4)) => Ok(((format, data_count), p4)),
                },
            },
        },
    }
}

/// The region list: the axis count, the region count, then the regions.
pub open spec fn spec_region_list(data: Seq<u8>, pos: int) -> Result<((u16, Seq<Seq<RegionAxisCoordinates>>), int), Error> {
    match spec_u16(data, pos) {
        Err(e) => Err(e),
        Ok((axis_count, p1)) => match spec_u16(data, p1) {
            Err(e) => Err(e),
            Ok((region_count, p2)) => match spec_regions(data, p2, region_count as nat, axis_count as nat) {
                Err(e) => Err(e),
                Ok((regions, p3)) => Ok(((axis_count, regions), p3)),
            },
        },
    }
}

/// A whole item variation store: head, region list, then the data blocks.
pub open spec fn spec_item_variation_store(data: Seq<u8>, pos: int) -> Result<(ItemVariationStoreModel, int), Error> {
    match spec_store_head(data, pos) {
        Err(e) => Err(e),
        Ok(((format, data_count), p1)) => match spec_region_list(data, p1) {
            Err(e) => Err(e),
            Ok(((axis_count, regions), p2)) => match spec_counted::<ItemVariationData>(data, p2, data_count as nat) {
                Err(e) => Err(e),
                Ok((blocks, p3)) => Ok(
                    (
                        ItemVariationStoreModel {
                            format,
                            axis_count,
                            variation_regions: regions,
                            variation_data: blocks,
                        },
                        p3,
                    ),
                ),
            },
        },
    }
}

/// Regions end within the buffer, and read nothing past their end.
pub proof fn lemma_regions(data: Seq<u8>, pos: int, n: nat, axis_count: nat, k: int)
    requires
        0 <= pos <= data.len(),
    ensures
        spec_regions(data, pos, n, axis_count) is Ok ==> pos <= spec_regions(data, pos, n, axis_count)->Ok_0.1 <= data.len(),
        spec_regions(data, pos, n, axis_count) is Ok && pos <= k <= data.len() ==> spec_regions(data.take(k), pos, n, axis_count)
            == truncated(spec_regions(data, pos, n, axis_count), k),
    decreases n,
{
    if n > 0 {
        lemma_counted_bounds::<RegionAxisCoordinates>(data, pos, axis_count);
        if let Ok((r, p)) = spec_counted::<RegionAxisCoordinates>(data, pos, axis_count) {
            lemma_regions(data, p, (n - 1) as nat, axis_count, k);
            if spec_regions(data, pos, n, axis_count) is Ok && pos <= k <= data.len() {
                lemma_counted_prefix::<RegionAxisCoordinates>(data, pos, axis_count, k);
            }
        }
    }
}

/// The head ends within the buffer, and reads nothing past its end.
pub proof fn lemma_store_head(data: Seq<u8>, pos: int, k: int)
    ensures
        spec_store_head(data, pos) is Ok ==> 0 <= pos < spec_store_head(data, pos)->Ok_0.1 <= data.len(),
        spec_store_head(data, pos) is Ok && 0 <= pos <= k <= data.len() ==> spec_store_head(data.take(k), pos)
            == truncated(spec_store_head(data, pos), k),
{
    lemma_u16(data, pos, k);
    lemma_scalar(data, pos + 2, 4, |b: Seq<u8>| be_u32(b), k);
    lemma_u16(data, pos + 6, k);
    if let Ok((data_count, p3)) = spec_u16(data, pos + 6) {
        lemma_counted_bounds::<u32>(data, p3, data_count as nat);
        if spec_store_head(data, pos) is Ok && 0 <= pos <= k <= data.len() && p3 <= k {
            lemma_counted_prefix::<u32>(data, p3, data_count as nat, k);
        }
    }
}

/// The region list ends within the buffer, and reads nothing past its end.
pub proof fn lemma_region_list(data: Seq<u8>, pos: int, k: int)
    ensures
        spec_region_list(data, pos) is Ok ==> 0 <= pos < spec_region_list(data, pos)->Ok_0.1 <= data.len(),
        spec_region_list(data, pos) is Ok && 0 <= pos <= k <= data.len() ==> spec_region_list(data.take(k), pos)
            == truncated(spec_region_list(data, pos), k),
{
    lemma_u16(data, pos, k);
    lemma_u16(data, pos + 2, k);
    if let Ok((axis_count, p1)) = spec_u16(data, pos) {
        if let Ok((region_count, p2)) = spec_u16(data, p1) {
            lemma_regions(data, p2, region_count as nat, axis_count as nat, k);
        }
    }
}

/// Reads `n` regions of `axis_count` axes each.
fn read_regions(de: &mut Deserializer, n: u16, axis_count: u16) -> (r: Result<Vec<Vec<RegionAxisCoordinates>>, Error>)
    ensures
        final(de).data() == old(de).data(),
        match r {
            Ok(v) => spec_regions(old(de).data(), old(de).pos(), n as nat, axis_count as nat) == Ok::<
                (Seq<Seq<RegionAxisCoordinates>>, int),
                Error,
            >((v.deep_view(), final(de).pos())),
            Err(e) => spec_regions(old(de).data(), old(de).pos(), n as nat, axis_count as nat) == Err::<
                (Seq<Seq<RegionAxisCoordinates>>, int),
                Error,
            >(e),
        },
{
    let axes = CountedDeserializer::with_len(axis_count as usize);
    let mut regions: Vec<Vec<RegionAxisCoordinates>> = Vec::new();
    let mut i: u16 = 0;
    while i < n
        invariant
            i <= n,
            axes.count() == axis_count,
            de.data() == old(de).data(),
            spec_regions(old(de).data(), old(de).pos(), n as nat, axis_count as nat) == prepend(
                regions.deep_view(),
                spec_regions(de.data(), de.pos(), (n - i) as nat, axis_count as nat),
            ),
        decreases n - i,
    {
        let ghost before = regions.deep_view();
        let region = axes.deserialize::<RegionAxisCoordinates>(de)?;
        let ghost rv = region.deep_view();
        proof {
            lemma_prepend_twice(
                before,
                seq![rv],
                spec_regions(de.data(), de.pos(), (n - i - 1) as nat, axis_count as nat),
            );
        }
        regions.push(region);
        proof {
            assert(regions.deep_view() =~= before + seq![rv]);
        }
        i = i + 1;
    }
    proof {
        assert(regions.deep_view() + seq![] =~= regions.deep_view());
    }
    Ok(regions)
}

impl Decode for ItemVariationStore {
    open spec fn spec_decode(data: Seq<u8>, pos: int) -> Result<(ItemVariationStoreModel, int), Error> {
        spec_item_variation_store(data, pos)
    }

    proof fn lemma_decode_bounds(data: Seq<u8>, pos: int) {
        lemma_store_head(data, pos, 0);
        if let Ok(((format, data_count), p1)) = spec_store_head(data, pos) {
            lemma_region_list(data, p1, 0);
            if let Ok(((axis_count, regions), p2)) = spec_region_list(data, p1) {
                lemma_counted_bounds::<ItemVariationData>(data, p2, data_count as nat);
            }
        }
    }

    proof fn lemma_decode_prefix(data: Seq<u8>, pos: int, k: int) {
        lemma_store_head(data, pos, k);
        let ((format, data_count), p1) = spec_store_head(data, pos)->Ok_0;
        lemma_region_list(data, p1, k);
        let ((axis_count, regions), p2) = spec_region_list(data, p1)->Ok_0;
        lemma_counted_bounds::<ItemVariationData>(data, p2, data_count as nat);
        if p2 <= k {
            lemma_counted_prefix::<ItemVariationData>(data, p2, data_count as nat, k);
        }
    }

    fn decode(de: &mut Deserializer) -> (r: Result<ItemVariationStore, Error>) {
        let format = de.read_u16()?;
        let _region_list_offset = de.read_u32()?;
        let data_count = de.read_u16()?;
        let _data_offsets = CountedDeserializer::with_len(data_count as usize).deserialize::<u32>(de)?;
        let axis_count = de.read_u16()?;
        let region_count = de.read_u16()?;
        let variation_regions = read_regions(de, region_count, axis_count)?;
        let variation_data = CountedDeserializer::with_len(data_count as usize).deserialize::<ItemVariationData>(de)?;
        Ok(ItemVariationStore { format, axis_count, variation_regions, variation_data })
    }
}

} // verus!
