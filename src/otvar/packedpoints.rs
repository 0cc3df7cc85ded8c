//! Packed point numbers: a run-length encoding of an ascending set of point
//! indices.
use crate::de::{lemma_prepend_twice, lemma_u16, lemma_u8, prepend, spec_u16, spec_u8, truncated, Deserializer};
use crate::error::Error;
use vstd::prelude::*;

verus! {

/// A set of point indices, ascending; `None` selects every point.
pub struct PackedPoints {
    pub points: Option<Vec<u16>>,
}

impl DeepView for PackedPoints {
    type V = Option<Seq<u16>>;

    open spec fn deep_view(&self) -> Option<Seq<u16>> {
        match self.points {
            Some(v) => Some(v@),
            None => None,
        }
    }
}

/// The number of points that the set declares: one byte below 0x80, else two
/// bytes with the top bit cleared.
pub open spec fn spec_point_total(data: Seq<u8>, pos: int) -> Result<(nat, int), Error> {
    match spec_u8(data, pos) {
        Ok((b0, p)) => if b0 & 0x80 == 0 {
            Ok((b0 as nat, p))
        } else {
            match spec_u8(data, p) {
                Ok((b1, q)) => Ok(((b0 & 0x7f) as nat * 256 + b1 as nat, q)),
                Err(e) => Err(e),
            }
        },
        Err(e) => Err(e),
    }
}

/// The point index that `delta` leads to from `last`, the previous index
/// (negative before the first, which counts from zero).
pub open spec fn next_point(last: int, delta: int) -> int {
    if last < 0 {
        delta
    } else {
        last + delta
    }
}

/// One delta of a run, of two bytes or of one.
pub open spec fn spec_point_delta(data: Seq<u8>, pos: int, words: bool) -> Result<(int, int), Error> {
    if words {
        match spec_u16(data, pos) {
            Ok((v, q)) => Ok((v as int, q)),
            Err(e) => Err(e),
        }
    } else {
        match spec_u8(data, pos) {
            Ok((v, q)) => Ok((v as int, q)),
            Err(e) => Err(e),
        }
    }
}

/// The `len` indices of one run after `last`; an index that does not rise
/// or reaches `point_count` is `InvalidPoint`.
pub open spec fn spec_point_run(
    data: Seq<u8>,
    pos: int,
    len: nat,
    words: bool,
    last: int,
    point_count: int,
) -> Result<(Seq<u16>, int), Error>
    decreases len,
{
    if len == 0 {
        Ok((seq![], pos))
    } else {
        match spec_point_delta(data, pos, words) {
            Ok((d, p)) => {
                let idx = next_point(last, d);
                if idx <= last || idx >= point_count {
                    Err(Error::InvalidPoint)
                } else {
                    prepend(seq![idx as u16], spec_point_run(data, p, (len - 1) as nat, words, idx, point_count))
                }
            },
            Err(e) => Err(e),
        }
    }
}

/// Runs until `remaining` indices have come; a run longer than what is left
/// is `CountMismatch`.
pub open spec fn spec_point_runs(data: Seq<u8>, pos: int, remaining: nat, last: int, point_count: int) -> Result<
    (Seq<u16>, int),
    Error,
>
    decreases remaining,
{
    if remaining == 0 {
        Ok((seq![], pos))
    } else {
        match spec_u8(data, pos) {
            Ok((h, p)) => {
                let len = (h & 0x7f) as nat + 1;
                if len > remaining {
                    Err(Error::CountMismatch)
                } else {
                    match spec_point_run(data, p, len, h & 0x80 != 0, last, point_count) {
                        Ok((pts, q)) => prepend(
                            pts,
                            spec_point_runs(data, q, (remaining - len) as nat, pts.last() as int, point_count),
                        ),
                        Err(e) => Err(e),
                    }
                }
            },
            Err(e) => Err(e),
        }
    }
}

/// A packed point set: `None` (every point) where the count is zero, else
/// the indices of its runs.
pub open spec fn spec_packed_points(data: Seq<u8>, pos: int, point_count: u16) -> Result<(Option<Seq<u16>>, int), Error> {
    match spec_point_total(data, pos) {
        Ok((n, p)) => if n == 0 {
            Ok((None, p))
        } else {
            match spec_point_runs(data, p, n, -1, point_count as int) {
                Ok((s, q)) => Ok((Some(s), q)),
                Err(e) => Err(e),
            }
        },
        Err(e) => Err(e),
    }
}

/// Indices that rise strictly, each above `last` and below `point_count`.
pub open spec fn ascending_within(s: Seq<u16>, last: int, point_count: int) -> bool {
    &&& forall|i: int| 0 <= i < s.len() ==> last < #[trigger] s[i] as int && s[i] < point_count
    &&& forall|i: int, j: int| 0 <= i < j < s.len() ==> #[trigger] s[i] < #[trigger] s[j]
}

/// A run yields `len` rising indices between `last` and `point_count`.
pub proof fn lemma_point_run(data: Seq<u8>, pos: int, len: nat, words: bool, last: int, point_count: int)
    requires
        -1 <= last,
        point_count <= 0x1_0000,
    ensures
        spec_point_run(data, pos, len, words, last, point_count) is Ok ==> {
            let s = spec_point_run(data, pos, len, words, last, point_count)->Ok_0.0;
            s.len() == len && ascending_within(s, last, point_count)
        },
    decreases len,
{
    if len > 0 {
        if let Ok((d, p)) = spec_point_delta(data, pos, words) {
            let idx = next_point(last, d);
            if !(idx <= last || idx >= point_count) {
                lemma_point_run(data, p, (len - 1) as nat, words, idx, point_count);
                if let Ok((rest, q)) = spec_point_run(data, p, (len - 1) as nat, words, idx, point_count) {
                    let s = seq![idx as u16] + rest;
                    assert forall|i: int, j: int| 0 <= i < j < s.len() implies s[i] < s[j] by {
                        if i > 0 {
                            assert(s[i] == rest[i - 1]);
                        }
                        assert(s[j] == rest[j - 1]);
                    }
                    assert forall|i: int| 0 <= i < s.len() implies last < #[trigger] s[i] as int && s[i] < point_count by {
                        if i > 0 {
                            assert(s[i] == rest[i - 1]);
                        }
                    }
                }
            }
        }
    }
}

/// The runs yield `remaining` rising indices between `last` and
/// `point_count`.
pub proof fn lemma_point_runs(data: Seq<u8>, pos: int, remaining: nat, last: int, point_count: int)
    requires
        -1 <= last,
        point_count <= 0x1_0000,
    ensures
        spec_point_runs(data, pos, remaining, last, point_count) is Ok ==> {
            let s = spec_point_runs(data, pos, remaining, last, point_count)->Ok_0.0;
            s.len() == remaining && ascending_within(s, last, point_count)
        },
    decreases remaining,
{
    if remaining > 0 {
        if let Ok((h, p)) = spec_u8(data, pos) {
            let len = (h & 0x7f) as nat + 1;
            if len <= remaining {
                lemma_point_run(data, p, len, h & 0x80 != 0, last, point_count);
                if let Ok((pts, q)) = spec_point_run(data, p, len, h & 0x80 != 0, last, point_count) {
                    let l = pts.last() as int;
                    lemma_point_runs(data, q, (remaining - len) as nat, l, point_count);
                    if let Ok((rest, r)) = spec_point_runs(data, q, (remaining - len) as nat, l, point_count) {
                        let s = pts + rest;
                        assert forall|i: int, j: int| 0 <= i < j < s.len() implies s[i] < s[j] by {
                            if j >= pts.len() {
                                assert(s[j] == rest[j - pts.len()]);
                                if i < pts.len() {
                                    assert(s[i] <= pts[pts.len() - 1]);
                                } else {
                                    assert(s[i] == rest[i - pts.len()]);
                                }
                            }
                        }
                        assert forall|i: int| 0 <= i < s.len() implies last < #[trigger] s[i] as int && s[i] < point_count by {
                            if i >= pts.len() {
                                assert(s[i] == rest[i - pts.len()]);
                            }
                        }
                    }
                }
            }
        }
    }
}

/// Every packed point set that decodes lists its indices strictly rising,
/// each below the number of points.
pub proof fn lemma_points_ascending(data: Seq<u8>, pos: int, point_count: u16)
    ensures
        spec_packed_points(data, pos, point_count) matches Ok((Some(s), _)) ==> ascending_within(
            s,
            -1,
            point_count as int,
        ),
{
    if let Ok((n, p)) = spec_point_total(data, pos) {
        lemma_point_runs(data, p, n, -1, point_count as int);
    }
}

/// A delta ends within the buffer, and reads nothing past its end.
pub proof fn lemma_point_delta(data: Seq<u8>, pos: int, words: bool, k: int)
    requires
        0 <= pos <= data.len(),
    ensures
        spec_point_delta(data, pos, words) is Ok ==> pos < spec_point_delta(data, pos, words)->Ok_0.1 <= data.len(),
        spec_point_delta(data, pos, words) is Ok && pos <= k <= data.len() ==> spec_point_delta(data.take(k), pos, words)
            == truncated(spec_point_delta(data, pos, words), k),
{
    lemma_u8(data, pos, k);
    lemma_u16(data, pos, k);
}

/// A run ends within the buffer, and reads nothing past its end.
pub proof fn lemma_point_run_prefix(data: Seq<u8>, pos: int, len: nat, words: bool, last: int, point_count: int, k: int)
    requires
        0 <= pos <= data.len(),
    ensures
        spec_point_run(data, pos, len, words, last, point_count) is Ok ==> pos <= spec_point_run(
            data,
            pos,
            len,
            words,
            last,
            point_count,
        )->Ok_0.1 <= data.len(),
        spec_point_run(data, pos, len, words, last, point_count) is Ok && pos <= k <= data.len() ==> spec_point_run(
            data.take(k),
            pos,
            len,
            words,
            last,
            point_count,
        ) == truncated(spec_point_run(data, pos, len, words, last, point_count), k),
    decreases len,
{
    if len > 0 {
        lemma_point_delta(data, pos, words, k);
        if let Ok((d, p)) = spec_point_delta(data, pos, words) {
            lemma_point_run_prefix(data, p, (len - 1) as nat, words, next_point(last, d), point_count, k);
        }
    }
}

/// The runs end within the buffer, and read nothing past their end.
pub proof fn lemma_point_runs_prefix(data: Seq<u8>, pos: int, remaining: nat, last: int, point_count: int, k: int)
    requires
        0 <= pos <= data.len(),
    ensures
        spec_point_runs(data, pos, remaining, last, point_count) is Ok ==> pos <= spec_point_runs(
            data,
            pos,
            remaining,
            last,
            point_count,
        )->Ok_0.1 <= data.len(),
        spec_point_runs(data, pos, remaining, last, point_count) is Ok && pos <= k <= data.len() ==> spec_point_runs(
            data.take(k),
            pos,
            remaining,
            last,
            point_count,
        ) == truncated(spec_point_runs(data, pos, remaining, last, point_count), k),
    decreases remaining,
{
    if remaining > 0 {
        lemma_u8(data, pos, k);
        if let Ok((h, p)) = spec_u8(data, pos) {
            let len = (h & 0x7f) as nat + 1;
            lemma_point_run_prefix(data, p, len, h & 0x80 != 0, last, point_count, k);
            if let Ok((pts, q)) = spec_point_run(data, p, len, h & 0x80 != 0, last, point_count) {
                if len <= remaining {
                    lemma_point_runs_prefix(data, q, (remaining - len) as nat, pts.last() as int, point_count, k);
                }
            }
        }
    }
}

/// A packed point set ends within the buffer, and reads nothing past its
/// end.
pub proof fn lemma_packed_points_prefix(data: Seq<u8>, pos: int, point_count: u16, k: int)
    requires
        0 <= pos <= data.len(),
    ensures
        spec_packed_points(data, pos, point_count) is Ok ==> pos < spec_packed_points(data, pos, point_count)->Ok_0.1
            <= data.len(),
        spec_packed_points(data, pos, point_count) is Ok && pos <= k <= data.len() ==> spec_packed_points(
            data.take(k),
            pos,
            point_count,
        ) == truncated(spec_packed_points(data, pos, point_count), k),
{
    lemma_u8(data, pos, k);
    lemma_u8(data, pos + 1, k);
    if let Ok((n, p)) = spec_point_total(data, pos) {
        lemma_point_runs_prefix(data, p, n, -1, point_count as int, k);
    }
}

/// Cutting the bytes of a packed point set that decodes anywhere before its
/// end makes it fail with `Eof`.
pub proof fn lemma_points_truncated(data: Seq<u8>, point_count: u16, k: int)
    requires
        spec_packed_points(data, 0, point_count) is Ok,
        0 <= k < spec_packed_points(data, 0, point_count)->Ok_0.1,
    ensures
        spec_packed_points(data.take(k), 0, point_count) == Err::<(Option<Seq<u16>>, int), Error>(Error::Eof),
{
    lemma_packed_points_prefix(data, 0, point_count, k);
}

/// Reads one run of `len` indices after `last`.
fn read_point_run(de: &mut Deserializer, len: u16, words: bool, last: i32, point_count: u16) -> (r: Result<
    Vec<u16>,
    Error,
>)
    requires
        -1 <= last < point_count,
    ensures
        final(de).data() == old(de).data(),
        match r {
            Ok(v) => spec_point_run(old(de).data(), old(de).pos(), len as nat, words, last as int, point_count as int)
                == Ok::<(Seq<u16>, int), Error>((v@, final(de).pos())),
            Err(e) => spec_point_run(old(de).data(), old(de).pos(), len as nat, words, last as int, point_count as int)
                == Err::<(Seq<u16>, int), Error>(e),
        },
{
    let mut run: Vec<u16> = Vec::new();
    let mut i: u16 = 0;
    let mut prev: i32 = last;
    while i < len
        invariant
            i <= len,
            -1 <= prev < point_count,
            de.data() == old(de).data(),
            spec_point_run(old(de).data(), old(de).pos(), len as nat, words, last as int, point_count as int)
                == prepend(run@, spec_point_run(de.data(), de.pos(), (len - i) as nat, words, prev as int, point_count as int)),
        decreases len - i,
    {
        let ghost before = run@;
        let ghost at = de.pos();
        let d: i32 = if words {
            de.read_u16()? as i32
        } else {
            de.read_u8()? as i32
        };
        let idx: i32 = if prev < 0 {
            d
        } else {
            prev + d
        };
        assert(spec_point_delta(de.data(), at, words) == Ok::<(int, int), Error>((d as int, de.pos())));
        assert(next_point(prev as int, d as int) == idx);
        if idx <= prev || idx >= point_count as i32 {
            return Err(Error::InvalidPoint);
        }
        proof {
            lemma_prepend_twice(
                before,
                seq![idx as u16],
                spec_point_run(de.data(), de.pos(), (len - i - 1) as nat, words, idx as int, point_count as int),
            );
        }
        run.push(idx as u16);
        proof {
            assert(run@ =~= before + seq![idx as u16]);
        }
        prev = idx;
        i = i + 1;
    }
    proof {
        assert(run@ + seq![] =~= run@);
    }
    Ok(run)
}

/// Reads packed point sets of a table with `point_count` points.
pub struct PackedPointsDeserializer {
    pub point_count: u16,
}

impl PackedPointsDeserializer {
    /// Reads one packed point set.
    pub fn deserialize(&self, de: &mut Deserializer) -> (r: Result<PackedPoints, Error>)
        ensures
            final(de).data() == old(de).data(),
            match r {
                Ok(v) => spec_packed_points(old(de).data(), old(de).pos(), self.point_count) == Ok::<
                    (Option<Seq<u16>>, int),
                    Error,
                >((v.deep_view(), final(de).pos())),
                Err(e) => spec_packed_points(old(de).data(), old(de).pos(), self.point_count) == Err::<
                    (Option<Seq<u16>>, int),
                    Error,
                >(e),
            },
            r matches Ok(PackedPoints { points: Some(v) }) ==> ascending_within(v@, -1, self.point_count as int),
    {
        proof {
            lemma_points_ascending(de.data(), de.pos(), self.point_count);
        }
        let b0 = de.read_u8()?;
        let total: u16 = if b0 & 0x80 == 0 {
            b0 as u16
        } else {
            let b1 = de.read_u8()?;
            ((b0 & 0x7f) as u16) * 256 + b1 as u16
        };
        assert(spec_point_total(old(de).data(), old(de).pos()) == Ok::<(nat, int), Error>((total as nat, de.pos())));
        if total == 0 {
            return Ok(PackedPoints { points: None });
        }
        let ghost start = de.pos();
        let mut points: Vec<u16> = Vec::new();
        let mut remaining: u16 = total;
        let mut last: i32 = -1;
        while remaining > 0
            invariant
                -1 <= last < self.point_count,
                de.data() == old(de).data(),
                total > 0,
                spec_point_total(old(de).data(), old(de).pos()) == Ok::<(nat, int), Error>((total as nat, start)),
                spec_point_runs(de.data(), start, total as nat, -1, self.point_count as int) == prepend(
                    points@,
                    spec_point_runs(de.data(), de.pos(), remaining as nat, last as int, self.point_count as int),
                ),
            decreases remaining,
        {
            let h = de.read_u8()?;
            let len: u16 = (h & 0x7f) as u16 + 1;
            if len > remaining {
                return Err(Error::CountMismatch);
            }
            let ghost before = points@;
            let ghost run_start = de.pos();
            proof {
                lemma_point_run(de.data(), de.pos(), len as nat, h & 0x80 != 0, last as int, self.point_count as int);
            }
            let mut run = read_point_run(de, len, h & 0x80 != 0, last, self.point_count)?;
            last = run[run.len() - 1] as i32;
            proof {
                lemma_prepend_twice(
                    before,
                    run@,
                    spec_point_runs(de.data(), de.pos(), (remaining - len) as nat, last as int, self.point_count as int),
                );
            }
            points.append(&mut run);
            remaining = remaining - len;
        }
        proof {
            assert(points@ + seq![] =~= points@);
        }
        Ok(PackedPoints { points: Some(points) })
    }
}

} // verus!
