//! The header of one tuple variation: its size, flags and the coordinates of
//! the region it applies to.
use crate::de::{
    lemma_counted_bounds, lemma_counted_prefix, lemma_u16, spec_counted, spec_u16, truncated, CountedDeserializer,
    Deserializer,
};
use crate::error::Error;
use vstd::prelude::*;

verus! {

/// The packed flags-and-index field of a tuple variation header.
#[derive(Debug, Clone, Copy, PartialEq, Eq)]
pub struct TupleIndexFlags {
    pub bits: u16,
}

/// The flag bit: the header holds its own peak tuple.
pub const EMBEDDED_PEAK_TUPLE: u16 = 0x8000;

/// The flag bit: the header holds intermediate start and end tuples.
pub const INTERMEDIATE_REGION: u16 = 0x4000;

/// The flag bit: the variation has its own point set.
pub const PRIVATE_POINT_NUMBERS: u16 = 0x2000;

/// The bits that index the shared tuples when the peak is not embedded.
pub const TUPLE_INDEX_MASK: u16 = 0x0fff;

impl TupleIndexFlags {
    /// Whether a peak tuple follows in the header.
    pub fn embedded_peak_tuple(&self) -> (r: bool)
        ensures
            r == (self.bits & 0x8000 != 0),
    {
        self.bits & EMBEDDED_PEAK_TUPLE != 0
    }

    /// Whether intermediate start and end tuples follow in the header.
    pub fn intermediate_region(&self) -> (r: bool)
        ensures
            r == (self.bits & 0x4000 != 0),
    {
        self.bits & INTERMEDIATE_REGION != 0
    }

    /// Whether the variation has a point set of its own.
    pub fn private_point_numbers(&self) -> (r: bool)
        ensures
            r == (self.bits & 0x2000 != 0),
    {
        self.bits & PRIVATE_POINT_NUMBERS != 0
    }

    /// The index into the shared tuples, in the low twelve bits.
    pub fn tuple_index(&self) -> (r: u16)
        ensures
            r == self.bits & 0x0fff,
    {
        self.bits & TUPLE_INDEX_MASK
    }
}

/// The header of one tuple variation. Coordinates are normalized values in
/// 2.14 fixed point, as stored.
#[derive(Debug, PartialEq)]
pub struct TupleVariationHeader {
    pub size: u16,
    pub flags: TupleIndexFlags,
    pub peak_tuple: Option<Vec<i16>>,
    pub start_tuple: Option<Vec<i16>>,
    pub end_tuple: Option<Vec<i16>>,
}

/// What a header holds, with sequences for its tuples.
pub struct HeaderModel {
    pub size: u16,
    pub flags: u16,
    pub peak_tuple: Option<Seq<i16>>,
    pub start_tuple: Option<Seq<i16>>,
    pub end_tuple: Option<Seq<i16>>,
}

/// The sequence view of an optional tuple.
pub open spec fn tuple_view(t: Option<Vec<i16>>) -> Option<Seq<i16>> {
    match t {
        Some(v) => Some(v@),
        None => None,
    }
}

impl DeepView for TupleVariationHeader {
    type V = HeaderModel;

    open spec fn deep_view(&self) -> HeaderModel {
        HeaderModel {
            size: self.size,
            flags: self.flags.bits,
            peak_tuple: tuple_view(self.peak_tuple),
            start_tuple: tuple_view(self.start_tuple),
            end_tuple: tuple_view(self.end_tuple),
        }
    }
}

/// A tuple of `axis_count` coordinates where `present`, else nothing read.
pub open spec fn spec_tuple(data: Seq<u8>, pos: int, present: bool, axis_count: nat) -> Result<
    (Option<Seq<i16>>, int),
    Error,
> {
    if present {
        match spec_counted::<i16>(data, pos, axis_count) {
            Ok((s, q)) => Ok((Some(s), q)),
            Err(e) => Err(e),
        }
    } else {
        Ok((None, pos))
    }
}

/// A header: its size, its flags, then the tuples that the flags announce.
pub open spec fn spec_header(data: Seq<u8>, pos: int, axis_count: nat) -> Result<(HeaderModel, int), Error> {
    match spec_u16(data, pos) {
        Err(e) => Err(e),
        Ok((size, p1)) => match spec_u16(data, p1) {
            Err(e) => Err(e),
            Ok((bits, p2)) => match spec_tuple(data, p2, bits & 0x8000 != 0, axis_count) {
                Err(e) => Err(e),
                Ok((peak, p3)) => match spec_tuple(data, p3, bits & 0x4000 != 0, axis_count) {
                    Err(e) => Err(e),
                    Ok((start, p4)) => match spec_tuple(data, p4, bits & 0x4000 != 0, axis_count) {
                        Err(e) => Err(e),
                        Ok((end, p5)) => Ok(
                            (
                                HeaderModel {
                                    size,
                                    flags: bits,
                                    peak_tuple: peak,
                                    start_tuple: start,
                                    end_tuple: end,
                                },
                                p5,
                            ),
                        ),
                    },
                },
            },
        },
    }
}

/// A tuple ends within the buffer, and reads nothing past its end.
pub proof fn lemma_tuple(data: Seq<u8>, pos: int, present: bool, axis_count: nat, k: int)
    requires
        0 <= pos <= data.len(),
    ensures
        spec_tuple(data, pos, present, axis_count) is Ok ==> pos <= spec_tuple(data, pos, present, axis_count)->Ok_0.1
            <= data.len(),
        spec_tuple(data, pos, present, axis_count) is Ok && pos <= k <= data.len() ==> spec_tuple(
            data.take(k),
            pos,
            present,
            axis_count,
        ) == truncated(spec_tuple(data, pos, present, axis_count), k),
{
    lemma_counted_bounds::<i16>(data, pos, axis_count);
    if present && spec_tuple(data, pos, present, axis_count) is Ok && pos <= k <= data.len() {
        lemma_counted_prefix::<i16>(data, pos, axis_count, k);
    }
}

/// A header ends within the buffer, and reads nothing past its end.
pub proof fn lemma_header(data: Seq<u8>, pos: int, axis_count: nat, k: int)
    requires
        0 <= pos <= data.len(),
    ensures
        spec_header(data, pos, axis_count) is Ok ==> pos < spec_header(data, pos, axis_count)->Ok_0.1 <= data.len(),
        spec_header(data, pos, axis_count) is Ok && pos <= k <= data.len() ==> spec_header(data.take(k), pos, axis_count)
            == truncated(spec_header(data, pos, axis_count), k),
{
    lemma_u16(data, pos, k);
    lemma_u16(data, pos + 2, k);
    if let Ok((bits, p2)) = spec_u16(data, pos + 2) {
        lemma_tuple(data, p2, bits & 0x8000 != 0, axis_count, k);
        if let Ok((peak, p3)) = spec_tuple(data, p2, bits & 0x8000 != 0, axis_count) {
            lemma_tuple(data, p3, bits & 0x4000 != 0, axis_count, k);
            if let Ok((start, p4)) = spec_tuple(data, p3, bits & 0x4000 != 0, axis_count) {
                lemma_tuple(data, p4, bits & 0x4000 != 0, axis_count, k);
            }
        }
    }
}

/// Cutting the bytes of a header that decodes anywhere before its end makes
/// it fail with `Eof`.
pub proof fn lemma_header_truncated(data: Seq<u8>, axis_count: nat, k: int)
    requires
        spec_header(data, 0, axis_count) is Ok,
        0 <= k < spec_header(data, 0, axis_count)->Ok_0.1,
    ensures
        spec_header(data.take(k), 0, axis_count) == Err::<(HeaderModel, int), Error>(Error::Eof),
{
    lemma_header(data, 0, axis_count, k);
}

/// Reads a tuple of `axis_count` coordinates where `present`.
fn read_tuple(de: &mut Deserializer, present: bool, axis_count: u16) -> (r: Result<Option<Vec<i16>>, Error>)
    ensures
        final(de).data() == old(de).data(),
        match r {
            Ok(t) => spec_tuple(old(de).data(), old(de).pos(), present, axis_count as nat) == Ok::<
                (Option<Seq<i16>>, int),
                Error,
            >((tuple_view(t), final(de).pos())),
            Err(e) => spec_tuple(old(de).data(), old(de).pos(), present, axis_count as nat) == Err::<
                (Option<Seq<i16>>, int),
                Error,
            >(e),
        },
{
    if present {
        let v = CountedDeserializer::with_len(axis_count as usize).deserialize::<i16>(de)?;
        proof {
            assert(v.deep_view() =~= v@);
        }
        Ok(Some(v))
    } else {
        Ok(None)
    }
}

/// Reads tuple variation headers of a font with `axis_count` axes.
pub struct TupleVariationHeaderDeserializer {
    pub axis_count: u16,
}

impl TupleVariationHeaderDeserializer {
    /// Reads one header.
    pub fn deserialize(&self, de: &mut Deserializer) -> (r: Result<TupleVariationHeader, Error>)
        ensures
            final(de).data() == old(de).data(),
            match r {
                Ok(h) => spec_header(old(de).data(), old(de).pos(), self.axis_count as nat) == Ok::<
                    (HeaderModel, int),
                    Error,
                >((h.deep_view(), final(de).pos())),
                Err(e) => spec_header(old(de).data(), old(de).pos(), self.axis_count as nat) == Err::<
                    (HeaderModel, int),
                    Error,
                >(e),
            },
    {
        let size = de.read_u16()?;
        let flags = TupleIndexFlags { bits: de.read_u16()? };
        let peak_tuple = read_tuple(de, flags.embedded_peak_tuple(), self.axis_count)?;
        let start_tuple = read_tuple(de, flags.intermediate_region(), self.axis_count)?;
        let end_tuple = read_tuple(de, flags.intermediate_region(), self.axis_count)?;
        Ok(TupleVariationHeader { size, flags, peak_tuple, start_tuple, end_tuple })
    }
}

} // verus!
