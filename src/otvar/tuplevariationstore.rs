//! A tuple variation store: the headers of a table's variations, an optional
//! shared point set, and the points and deltas of each variation.
use crate::de::{lemma_prepend_twice, lemma_u16, prepend, spec_u16, truncated, Deserializer};
use crate::error::Error;
use crate::otvar::packeddeltas::{lemma_delta_runs_prefix, spec_delta_runs, PackedDeltasDeserializer};
use crate::otvar::packedpoints::{lemma_packed_points_prefix, spec_packed_points, PackedPointsDeserializer};
use crate::otvar::tuplevariationheader::{
    lemma_header, spec_header, HeaderModel, TupleVariationHeader, TupleVariationHeaderDeserializer,
};
use crate::otvar::Delta;
use vstd::prelude::*;

verus! {

/// The variations of one table, in the order of their headers, each with one
/// delta per point of its point set.
pub struct TupleVariationStore(pub Vec<(TupleVariationHeader, Vec<Delta>)>);

impl DeepView for TupleVariationStore {
    type V = Seq<(HeaderModel, Seq<Delta>)>;

    open spec fn deep_view(&self) -> Seq<(HeaderModel, Seq<Delta>)> {
        self.0.deep_view()
    }
}

/// One decoded variation: its header, its point set (`None` for every
/// point) and its deltas.
pub type VariationModel = (HeaderModel, Option<Seq<u16>>, Seq<Delta>);

/// The variations without their point sets.
pub open spec fn without_points(vs: Seq<VariationModel>) -> Seq<(HeaderModel, Seq<Delta>)> {
    vs.map_values(|v: VariationModel| (v.0, v.2))
}

/// The sequence view of an optional point list.
pub open spec fn points_view(p: Option<Vec<u16>>) -> Option<Seq<u16>> {
    match p {
        Some(v) => Some(v@),
        None => None,
    }
}

/// How many points a point set selects, `None` being every one of
/// `point_count`.
pub open spec fn effective_point_count(points: Option<Seq<u16>>, point_count: u16) -> nat {
    match points {
        Some(s) => s.len(),
        None => point_count as nat,
    }
}

/// `n` headers, one after another.
pub open spec fn spec_headers(data: Seq<u8>, pos: int, n: nat, axis_count: nat) -> Result<(Seq<HeaderModel>, int), Error>
    decreases n,
{
    if n == 0 {
        Ok((seq![], pos))
    } else {
        match spec_header(data, pos, axis_count) {
            Ok((h, p)) => prepend(seq![h], spec_headers(data, p, (n - 1) as nat, axis_count)),
            Err(e) => Err(e),
        }
    }
}

/// The point set of a variation: its own where it has one, else the shared
/// one.
pub open spec fn spec_variation_points(
    data: Seq<u8>,
    pos: int,
    private: bool,
    shared: Option<Seq<u16>>,
    point_count: u16,
) -> Result<(Option<Seq<u16>>, int), Error> {
    if private {
        spec_packed_points(data, pos, point_count)
    } else {
        Ok((shared, pos))
    }
}

/// The deltas of `count` points: X then Y runs zipped where `two_axis`, else
/// one run.
pub open spec fn spec_deltas(data: Seq<u8>, pos: int, count: nat, two_axis: bool) -> Result<(Seq<Delta>, int), Error> {
    match spec_delta_runs(data, pos, count) {
        Err(e) => Err(e),
        Ok((xs, p)) => if two_axis {
            match spec_delta_runs(data, p, count) {
                Err(e) => Err(e),
                Ok((ys, q)) => Ok((Seq::new(count, |i: int| Delta::Delta2D((xs[i], ys[i]))), q)),
            }
        } else {
            Ok((Seq::new(count, |i: int| Delta::Delta1D(xs[i])), p))
        },
    }
}

/// The point set and deltas of the variation that header `h` begins.
pub open spec fn spec_variation(
    data: Seq<u8>,
    pos: int,
    h: HeaderModel,
    shared: Option<Seq<u16>>,
    two_axis: bool,
    point_count: u16,
) -> Result<(VariationModel, int), Error> {
    match spec_variation_points(data, pos, h.flags & 0x2000 != 0, shared, point_count) {
        Err(e) => Err(e),
        Ok((pts, p)) => match spec_deltas(data, p, effective_point_count(pts, point_count), two_axis) {
            Err(e) => Err(e),
            Ok((ds, q)) => Ok(((h, pts, ds), q)),
        },
    }
}

/// The variation of each header in turn.
pub open spec fn spec_variations(
    data: Seq<u8>,
    pos: int,
    headers: Seq<HeaderModel>,
    shared: Option<Seq<u16>>,
    two_axis: bool,
    point_count: u16,
) -> Result<(Seq<VariationModel>, int), Error>
    decreases headers.len(),
{
    if headers.len() == 0 {
        Ok((seq![], pos))
    } else {
        match spec_variation(data, pos, headers[0], shared, two_axis, point_count) {
            Err(e) => Err(e),
            Ok((v, q)) => prepend(
                seq![v],
                spec_variations(data, q, headers.drop_first(), shared, two_axis, point_count),
            ),
        }
    }
}

/// A whole store, with the point set of each variation: the packed count
/// (tuple count in the low twelve bits, shared points flagged by the top
/// bit), the data offset, the headers, the shared point set where flagged,
/// then the variations.
pub open spec fn spec_store_with_points(
    data: Seq<u8>,
    pos: int,
    axis_count: u16,
    two_axis: bool,
    point_count: u16,
) -> Result<(Seq<VariationModel>, int), Error> {
    match spec_u16(data, pos) {
        Err(e) => Err(e),
        Ok((packed, p1)) => match spec_u16(data, p1) {
            Err(e) => Err(e),
            Ok((_offset, p2)) => match spec_headers(data, p2, (packed & 0x0fff) as nat, axis_count as nat) {
                Err(e) => Err(e),
                Ok((hs, p3)) => {
                    let shared = if packed & 0x8000 != 0 {
                        spec_packed_points(data, p3, point_count)
                    } else {
                        Ok((None, p3))
                    };
                    match shared {
                        Err(e) => Err(e),
                        Ok((sp, p4)) => spec_variations(data, p4, hs, sp, two_axis, point_count),
                    }
                },
            },
        },
    }
}

/// A whole store, as its headers and deltas.
pub open spec fn spec_store(data: Seq<u8>, pos: int, axis_count: u16, two_axis: bool, point_count: u16) -> Result<
    (Seq<(HeaderModel, Seq<Delta>)>, int),
    Error,
> {
    match spec_store_with_points(data, pos, axis_count, two_axis, point_count) {
        Ok((vs, q)) => Ok((without_points(vs), q)),
        Err(e) => Err(e),
    }
}

/// Headers end within the buffer, and read nothing past their end.
pub proof fn lemma_headers(data: Seq<u8>, pos: int, n: nat, axis_count: nat, k: int)
    requires
        0 <= pos <= data.len(),
    ensures
        spec_headers(data, pos, n, axis_count) is Ok ==> pos <= spec_headers(data, pos, n, axis_count)->Ok_0.1 <= data.len(),
        spec_headers(data, pos, n, axis_count) is Ok && pos <= k <= data.len() ==> spec_headers(data.take(k), pos, n, axis_count)
            == truncated(spec_headers(data, pos, n, axis_count), k),
    decreases n,
{
    if n > 0 {
        lemma_header(data, pos, axis_count, k);
        if let Ok((h, p)) = spec_header(data, pos, axis_count) {
            lemma_headers(data, p, (n - 1) as nat, axis_count, k);
        }
    }
}

/// The deltas of a variation end within the buffer, read nothing past their
/// end, and are one per point.
pub proof fn lemma_deltas(data: Seq<u8>, pos: int, count: nat, two_axis: bool, k: int)
    requires
        0 <= pos <= data.len(),
    ensures
        spec_deltas(data, pos, count, two_axis) is Ok ==> pos <= spec_deltas(data, pos, count, two_axis)->Ok_0.1 <= data.len()
            && spec_deltas(data, pos, count, two_axis)->Ok_0.0.len() == count,
        spec_deltas(data, pos, count, two_axis) is Ok && pos <= k <= data.len() ==> spec_deltas(data.take(k), pos, count, two_axis)
            == truncated(spec_deltas(data, pos, count, two_axis), k),
{
    lemma_delta_runs_prefix(data, pos, count, k);
    if let Ok((xs, p)) = spec_delta_runs(data, pos, count) {
        lemma_delta_runs_prefix(data, p, count, k);
    }
}

/// A variation ends within the buffer, and reads nothing past its end.
pub proof fn lemma_variation(
    data: Seq<u8>,
    pos: int,
    h: HeaderModel,
    shared: Option<Seq<u16>>,
    two_axis: bool,
    point_count: u16,
    k: int,
)
    requires
        0 <= pos <= data.len(),
    ensures
        spec_variation(data, pos, h, shared, two_axis, point_count) is Ok ==> {
            let (v, q) = spec_variation(data, pos, h, shared, two_axis, point_count)->Ok_0;
            &&& pos <= q <= data.len()
            &&& v.2.len() == effective_point_count(v.1, point_count)
        },
        spec_variation(data, pos, h, shared, two_axis, point_count) is Ok && pos <= k <= data.len() ==> spec_variation(
            data.take(k),
            pos,
            h,
            shared,
            two_axis,
            point_count,
        ) == truncated(spec_variation(data, pos, h, shared, two_axis, point_count), k),
{
    lemma_packed_points_prefix(data, pos, point_count, k);
    if let Ok((pts, p)) = spec_variation_points(data, pos, h.flags & 0x2000 != 0, shared, point_count) {
        lemma_deltas(data, p, effective_point_count(pts, point_count), two_axis, k);
    }
}

/// Variations end within the buffer, read nothing past their end, and each
/// has one delta per point of its point set.
pub proof fn lemma_variations(
    data: Seq<u8>,
    pos: int,
    headers: Seq<HeaderModel>,
    shared: Option<Seq<u16>>,
    two_axis: bool,
    point_count: u16,
    k: int,
)
    requires
        0 <= pos <= data.len(),
    ensures
        spec_variations(data, pos, headers, shared, two_axis, point_count) is Ok ==> {
            let (vs, q) = spec_variations(data, pos, headers, shared, two_axis, point_count)->Ok_0;
            &&& pos <= q <= data.len()
            &&& forall|i: int| 0 <= i < vs.len() ==> (#[trigger] vs[i]).2.len() == effective_point_count(vs[i].1, point_count)
        },
        spec_variations(data, pos, headers, shared, two_axis, point_count) is Ok && pos <= k <= data.len() ==> spec_variations(
            data.take(k),
            pos,
            headers,
            shared,
            two_axis,
            point_count,
        ) == truncated(spec_variations(data, pos, headers, shared, two_axis, point_count), k),
    decreases headers.len(),
{
    if headers.len() > 0 {
        lemma_variation(data, pos, headers[0], shared, two_axis, point_count, k);
        if let Ok((v, p)) = spec_variation(data, pos, headers[0], shared, two_axis, point_count) {
            lemma_variations(data, p, headers.drop_first(), shared, two_axis, point_count, k);
            if let Ok((rest, q)) = spec_variations(data, p, headers.drop_first(), shared, two_axis, point_count) {
                let vs = seq![v] + rest;
                assert forall|i: int| 0 <= i < vs.len() implies (#[trigger] vs[i]).2.len() == effective_point_count(
                    vs[i].1,
                    point_count,
                ) by {
                    if i > 0 {
                        assert(vs[i] == rest[i - 1]);
                    }
                }
            }
        }
    }
}

/// A store ends within the buffer, and reads nothing past its end.
pub proof fn lemma_store(data: Seq<u8>, pos: int, axis_count: u16, two_axis: bool, point_count: u16, k: int)
    requires
        0 <= pos <= data.len(),
    ensures
        spec_store_with_points(data, pos, axis_count, two_axis, point_count) is Ok ==> {
            let (vs, q) = spec_store_with_points(data, pos, axis_count, two_axis, point_count)->Ok_0;
            &&& pos < q <= data.len()
            &&& forall|i: int| 0 <= i < vs.len() ==> (#[trigger] vs[i]).2.len() == effective_point_count(vs[i].1, point_count)
        },
        spec_store_with_points(data, pos, axis_count, two_axis, point_count) is Ok && pos <= k <= data.len()
            ==> spec_store_with_points(data.take(k), pos, axis_count, two_axis, point_count) == truncated(
            spec_store_with_points(data, pos, axis_count, two_axis, point_count),
            k,
        ),
{
    lemma_u16(data, pos, k);
    lemma_u16(data, pos + 2, k);
    if let Ok((packed, p1)) = spec_u16(data, pos) {
        if let Ok((_offset, p2)) = spec_u16(data, p1) {
            lemma_headers(data, p2, (packed & 0x0fff) as nat, axis_count as nat, k);
            if let Ok((hs, p3)) = spec_headers(data, p2, (packed & 0x0fff) as nat, axis_count as nat) {
                lemma_packed_points_prefix(data, p3, point_count, k);
                let shared = if packed & 0x8000 != 0 {
                    spec_packed_points(data, p3, point_count)
                } else {
                    Ok((None, p3))
                };
                if let Ok((sp, p4)) = shared {
                    lemma_variations(data, p4, hs, sp, two_axis, point_count, k);
                }
            }
        }
    }
}

/// Every variation of a decoded store has exactly as many deltas as its
/// point set has points: the points it lists, or all `point_count` of them
/// where it selects every point.
pub proof fn lemma_delta_count(data: Seq<u8>, pos: int, axis_count: u16, two_axis: bool, point_count: u16)
    requires
        0 <= pos <= data.len(),
    ensures
        spec_store_with_points(data, pos, axis_count, two_axis, point_count) is Ok ==> {
            let vs = spec_store_with_points(data, pos, axis_count, two_axis, point_count)->Ok_0.0;
            forall|i: int| 0 <= i < vs.len() ==> (#[trigger] vs[i]).2.len() == effective_point_count(vs[i].1, point_count)
        },
{
    lemma_store(data, pos, axis_count, two_axis, point_count, pos);
}

/// Cutting the bytes of a store that decodes anywhere before its end makes
/// it fail with `Eof`.
pub proof fn lemma_store_truncated(data: Seq<u8>, axis_count: u16, two_axis: bool, point_count: u16, k: int)
    requires
        spec_store(data, 0, axis_count, two_axis, point_count) is Ok,
        0 <= k < spec_store(data, 0, axis_count, two_axis, point_count)->Ok_0.1,
    ensures
        spec_store(data.take(k), 0, axis_count, two_axis, point_count) == Err::<(Seq<(HeaderModel, Seq<Delta>)>, int), Error>(
            Error::Eof,
        ),
{
    lemma_store(data, 0, axis_count, two_axis, point_count, k);
}

/// Reads the deltas of `count` points.
fn read_deltas(de: &mut Deserializer, count: usize, two_axis: bool) -> (r: Result<Vec<Delta>, Error>)
    ensures
        final(de).data() == old(de).data(),
        match r {
            Ok(v) => spec_deltas(old(de).data(), old(de).pos(), count as nat, two_axis) == Ok::<(Seq<Delta>, int), Error>(
                (v@, final(de).pos()),
            ),
            Err(e) => spec_deltas(old(de).data(), old(de).pos(), count as nat, two_axis) == Err::<
                (Seq<Delta>, int),
                Error,
            >(e),
        },
{
    let runs = PackedDeltasDeserializer { num_points: count };
    let xs = runs.deserialize(de)?.0;
    let mut deltas: Vec<Delta> = Vec::new();
    if two_axis {
        let ys = runs.deserialize(de)?.0;
        let mut i: usize = 0;
        while i < count
            invariant
                i <= count,
                xs@.len() == count,
                ys@.len() == count,
                deltas@ =~= Seq::new(i as nat, |k: int| Delta::Delta2D((xs@[k], ys@[k]))),
            decreases count - i,
        {
            deltas.push(Delta::Delta2D((xs[i], ys[i])));
            i = i + 1;
        }
    } else {
        let mut i: usize = 0;
        while i < count
            invariant
                i <= count,
                xs@.len() == count,
                deltas@ =~= Seq::new(i as nat, |k: int| Delta::Delta1D(xs@[k])),
            decreases count - i,
        {
            deltas.push(Delta::Delta1D(xs[i]));
            i = i + 1;
        }
    }
    Ok(deltas)
}

/// Reads tuple variation stores of a table with `axis_count` axes and
/// `point_count` points; `is_gvar` asks for two-axis deltas.
pub struct TupleVariationStoreDeserializer {
    pub axis_count: u16,
    pub is_gvar: bool,
    pub point_count: u16,
}

/// Reads `count` headers.
fn read_headers(de: &mut Deserializer, count: u16, axis_count: u16) -> (r: Result<Vec<TupleVariationHeader>, Error>)
    ensures
        final(de).data() == old(de).data(),
        match r {
            Ok(v) => spec_headers(old(de).data(), old(de).pos(), count as nat, axis_count as nat) == Ok::<
                (Seq<HeaderModel>, int),
                Error,
            >((v.deep_view(), final(de).pos())),
            Err(e) => spec_headers(old(de).data(), old(de).pos(), count as nat, axis_count as nat) == Err::<
                (Seq<HeaderModel>, int),
                Error,
            >(e),
        },
{
    let header_reader = TupleVariationHeaderDeserializer { axis_count };
    let mut headers: Vec<TupleVariationHeader> = Vec::new();
    let mut i: u16 = 0;
    while i < count
        invariant
            i <= count,
            header_reader.axis_count == axis_count,
            de.data() == old(de).data(),
            spec_headers(old(de).data(), old(de).pos(), count as nat, axis_count as nat) == prepend(
                headers.deep_view(),
                spec_headers(de.data(), de.pos(), (count - i) as nat, axis_count as nat),
            ),
        decreases count - i,
    {
        let ghost before = headers.deep_view();
        let h = header_reader.deserialize(de)?;
        let ghost hv = h.deep_view();
        proof {
            lemma_prepend_twice(
                before,
                seq![hv],
                spec_headers(de.data(), de.pos(), (count - i - 1) as nat, axis_count as nat),
            );
        }
        headers.push(h);
        proof {
            assert(headers.deep_view() =~= before + seq![hv]);
        }
        i = i + 1;
    }
    proof {
        assert(headers.deep_view() + seq![] =~= headers.deep_view());
    }
    Ok(headers)
}

/// Reads the point set, where the header has its own, and the deltas of one
/// variation.
fn read_variation(
    de: &mut Deserializer,
    header: &TupleVariationHeader,
    shared: &Option<Vec<u16>>,
    two_axis: bool,
    point_count: u16,
) -> (r: Result<Vec<Delta>, Error>)
    ensures
        final(de).data() == old(de).data(),
        match r {
            Ok(ds) => {
                let s = spec_variation(
                    old(de).data(),
                    old(de).pos(),
                    header.deep_view(),
                    points_view(*shared),
                    two_axis,
                    point_count,
                );
                &&& s is Ok
                &&& s->Ok_0.0.0 == header.deep_view()
                &&& s->Ok_0.0.2 == ds@
                &&& s->Ok_0.1 == final(de).pos()
            },
            Err(e) => spec_variation(
                old(de).data(),
                old(de).pos(),
                header.deep_view(),
                points_view(*shared),
                two_axis,
                point_count,
            ) == Err::<(VariationModel, int), Error>(e),
        },
{
    let n: usize = if header.flags.private_point_numbers() {
        let private_points = PackedPointsDeserializer { point_count }.deserialize(de)?;
        match &private_points.points {
            Some(v) => v.len(),
            None => point_count as usize,
        }
    } else {
        match shared {
            Some(v) => v.len(),
            None => point_count as usize,
        }
    };
    read_deltas(de, n, two_axis)
}

impl TupleVariationStoreDeserializer {
    /// Reads one store.
    pub fn deserialize(&self, de: &mut Deserializer) -> (r: Result<TupleVariationStore, Error>)
        ensures
            final(de).data() == old(de).data(),
            match r {
                Ok(v) => spec_store(old(de).data(), old(de).pos(), self.axis_count, self.is_gvar, self.point_count)
                    == Ok::<(Seq<(HeaderModel, Seq<Delta>)>, int), Error>((v.deep_view(), final(de).pos())),
                Err(e) => spec_store(old(de).data(), old(de).pos(), self.axis_count, self.is_gvar, self.point_count)
                    == Err::<(Seq<(HeaderModel, Seq<Delta>)>, int), Error>(e),
            },
    {
        let ghost data = de.data();
        let packed = de.read_u16()?;
        let count = packed & 0x0fff;
        let points_are_shared = packed & 0x8000 != 0;
        let _data_offset = de.read_u16()?;
        let mut headers = read_headers(de, count, self.axis_count)?;
        let ghost hs = headers.deep_view();
        let shared: Option<Vec<u16>> = if points_are_shared {
            PackedPointsDeserializer { point_count: self.point_count }.deserialize(de)?.points
        } else {
            None
        };
        let ghost sp: Option<Seq<u16>> = points_view(shared);
        let ghost p4 = de.pos();
        assert(spec_store_with_points(data, old(de).pos(), self.axis_count, self.is_gvar, self.point_count)
            == spec_variations(data, p4, hs, sp, self.is_gvar, self.point_count));
        let mut variations: Vec<(TupleVariationHeader, Vec<Delta>)> = Vec::new();
        let ghost mut done: Seq<VariationModel> = seq![];
        while headers.len() > 0
            invariant
                de.data() == data,
                data == old(de).data(),
                sp == points_view(shared),
                spec_store_with_points(data, old(de).pos(), self.axis_count, self.is_gvar, self.point_count)
                    == spec_variations(data, p4, hs, sp, self.is_gvar, self.point_count),
                variations.deep_view() =~= without_points(done),
                spec_variations(data, p4, hs, sp, self.is_gvar, self.point_count) == prepend(
                    done,
                    spec_variations(data, de.pos(), headers.deep_view(), sp, self.is_gvar, self.point_count),
                ),
            decreases headers.len(),
        {
            let ghost rest = headers.deep_view();
            let header = headers.remove(0);
            proof {
                assert(headers.deep_view() =~= rest.drop_first());
            }
            assert(header.deep_view() == rest[0]);
            let ghost at = de.pos();
            let deltas = read_variation(de, &header, &shared, self.is_gvar, self.point_count)?;
            let ghost item: VariationModel = spec_variation(data, at, rest[0], sp, self.is_gvar, self.point_count)->Ok_0.0;
            let ghost old_done = done;
            let ghost old_v = variations.deep_view();
            let ghost hv = header.deep_view();
            let ghost dd = deltas@;
            assert(deltas.deep_view() =~= dd);
            proof {
                lemma_prepend_twice(
                    done,
                    seq![item],
                    spec_variations(data, de.pos(), headers.deep_view(), sp, self.is_gvar, self.point_count),
                );
                done = done + seq![item];
            }
            variations.push((header, deltas));
            proof {
                assert(variations.deep_view() =~= old_v.push((hv, dd)));
                assert(without_points(done) =~= without_points(old_done).push((item.0, item.2)));
                assert(variations.deep_view() =~= without_points(done));
            }
        }
        proof {
            assert(done + seq![] =~= done);
        }
        Ok(TupleVariationStore(variations))
    }
}

} // verus!
