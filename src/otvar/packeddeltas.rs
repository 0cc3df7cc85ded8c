//! Packed deltas: a run-length encoding of signed values with a shortcut for
//! runs of zeros.
use crate::de::{lemma_i16, lemma_prepend_twice, lemma_u8, prepend, spec_i16, spec_u8, truncated, Deserializer};
use crate::error::Error;
use vstd::prelude::*;

verus! {

/// The deltas of one axis, one per point of the set they come with.
pub struct PackedDeltas(pub Vec<i16>);

impl DeepView for PackedDeltas {
    type V = Seq<i16>;

    open spec fn deep_view(&self) -> Seq<i16> {
        self.0@
    }
}

/// One value of a run: a big-endian word, or a byte taken as signed.
pub open spec fn spec_delta_value(data: Seq<u8>, pos: int, words: bool) -> Result<(i16, int), Error> {
    if words {
        spec_i16(data, pos)
    } else {
        match spec_u8(data, pos) {
            Ok((b, q)) => Ok(((b as i8) as i16, q)),
            Err(e) => Err(e),
        }
    }
}

/// `n` values of one width.
pub open spec fn spec_delta_values(data: Seq<u8>, pos: int, n: nat, words: bool) -> Result<(Seq<i16>, int), Error>
    decreases n,
{
    if n == 0 {
        Ok((seq![], pos))
    } else {
        match spec_delta_value(data, pos, words) {
            Ok((v, p)) => prepend(seq![v], spec_delta_values(data, p, (n - 1) as nat, words)),
            Err(e) => Err(e),
        }
    }
}

/// `n` zeros.
pub open spec fn zeros(n: nat) -> Seq<i16> {
    Seq::new(n, |i: int| 0i16)
}

/// Runs until `remaining` deltas have come. A header byte gives, from the
/// top, whether the run is of zeros, whether its values are words, and its
/// length less one in the low six bits; a run longer than what is left is
/// cut to fit, and only the values kept are read.
pub open spec fn spec_delta_runs(data: Seq<u8>, pos: int, remaining: nat) -> Result<(Seq<i16>, int), Error>
    decreases remaining,
{
    if remaining == 0 {
        Ok((seq![], pos))
    } else {
        match spec_u8(data, pos) {
            Ok((h, p)) => {
                let len = (h & 0x3f) as nat + 1;
                let take = if len < remaining {
                    len
                } else {
                    remaining
                };
                if h & 0x80 != 0 {
                    prepend(zeros(take), spec_delta_runs(data, p, (remaining - take) as nat))
                } else {
                    match spec_delta_values(data, p, take, h & 0x40 != 0) {
                        Ok((vs, q)) => prepend(vs, spec_delta_runs(data, q, (remaining - take) as nat)),
                        Err(e) => Err(e),
                    }
                }
            },
            Err(e) => Err(e),
        }
    }
}

/// A run of values yields `n` of them.
pub proof fn lemma_delta_values_len(data: Seq<u8>, pos: int, n: nat, words: bool)
    ensures
        spec_delta_values(data, pos, n, words) is Ok ==> spec_delta_values(data, pos, n, words)->Ok_0.0.len() == n,
    decreases n,
{
    if n > 0 {
        if let Ok((v, p)) = spec_delta_value(data, pos, words) {
            lemma_delta_values_len(data, p, (n - 1) as nat, words);
        }
    }
}

/// Packed deltas that decode are exactly as many as were asked for.
pub proof fn lemma_delta_runs_len(data: Seq<u8>, pos: int, remaining: nat)
    ensures
        spec_delta_runs(data, pos, remaining) is Ok ==> spec_delta_runs(data, pos, remaining)->Ok_0.0.len() == remaining,
    decreases remaining,
{
    if remaining > 0 {
        if let Ok((h, p)) = spec_u8(data, pos) {
            let len = (h & 0x3f) as nat + 1;
            let take = if len < remaining {
                len
            } else {
                remaining
            };
            if h & 0x80 != 0 {
                lemma_delta_runs_len(data, p, (remaining - take) as nat);
            } else {
                lemma_delta_values_len(data, p, take, h & 0x40 != 0);
                if let Ok((vs, q)) = spec_delta_values(data, p, take, h & 0x40 != 0) {
                    lemma_delta_runs_len(data, q, (remaining - take) as nat);
                }
            }
        }
    }
}

/// A value ends within the buffer, and reads nothing past its end.
pub proof fn lemma_delta_value(data: Seq<u8>, pos: int, words: bool, k: int)
    requires
        0 <= pos <= data.len(),
    ensures
        spec_delta_value(data, pos, words) is Ok ==> pos < spec_delta_value(data, pos, words)->Ok_0.1 <= data.len(),
        spec_delta_value(data, pos, words) is Ok && pos <= k <= data.len() ==> spec_delta_value(data.take(k), pos, words)
            == truncated(spec_delta_value(data, pos, words), k),
{
    lemma_u8(data, pos, k);
    lemma_i16(data, pos, k);
}

/// Values end within the buffer, and read nothing past their end.
pub proof fn lemma_delta_values_prefix(data: Seq<u8>, pos: int, n: nat, words: bool, k: int)
    requires
        0 <= pos <= data.len(),
    ensures
        spec_delta_values(data, pos, n, words) is Ok ==> pos <= spec_delta_values(data, pos, n, words)->Ok_0.1 <= data.len(),
        spec_delta_values(data, pos, n, words) is Ok && pos <= k <= data.len() ==> spec_delta_values(data.take(k), pos, n, words)
            == truncated(spec_delta_values(data, pos, n, words), k),
    decreases n,
{
    if n > 0 {
        lemma_delta_value(data, pos, words, k);
        if let Ok((v, p)) = spec_delta_value(data, pos, words) {
            lemma_delta_values_prefix(data, p, (n - 1) as nat, words, k);
        }
    }
}

/// Packed deltas end within the buffer, and read nothing past their end.
pub proof fn lemma_delta_runs_prefix(data: Seq<u8>, pos: int, remaining: nat, k: int)
    requires
        0 <= pos <= data.len(),
    ensures
        spec_delta_runs(data, pos, remaining) is Ok ==> pos <= spec_delta_runs(data, pos, remaining)->Ok_0.1 <= data.len(),
        spec_delta_runs(data, pos, remaining) is Ok && pos <= k <= data.len() ==> spec_delta_runs(data.take(k), pos, remaining)
            == truncated(spec_delta_runs(data, pos, remaining), k),
    decreases remaining,
{
    if remaining > 0 {
        lemma_u8(data, pos, k);
        if let Ok((h, p)) = spec_u8(data, pos) {
            let len = (h & 0x3f) as nat + 1;
            let take = if len < remaining {
                len
            } else {
                remaining
            };
            if h & 0x80 != 0 {
                lemma_delta_runs_prefix(data, p, (remaining - take) as nat, k);
            } else {
                lemma_delta_values_prefix(data, p, take, h & 0x40 != 0, k);
                if let Ok((vs, q)) = spec_delta_values(data, p, take, h & 0x40 != 0) {
                    lemma_delta_runs_prefix(data, q, (remaining - take) as nat, k);
                }
            }
        }
    }
}

/// Cutting the bytes of packed deltas that decode anywhere before their end
/// makes them fail with `Eof`.
pub proof fn lemma_deltas_truncated(data: Seq<u8>, num_points: nat, k: int)
    requires
        spec_delta_runs(data, 0, num_points) is Ok,
        0 <= k < spec_delta_runs(data, 0, num_points)->Ok_0.1,
    ensures
        spec_delta_runs(data.take(k), 0, num_points) == Err::<(Seq<i16>, int), Error>(Error::Eof),
{
    lemma_delta_runs_prefix(data, 0, num_points, k);
}

/// Reads `n` values of one width.
fn read_delta_values(de: &mut Deserializer, n: usize, words: bool) -> (r: Result<Vec<i16>, Error>)
    ensures
        final(de).data() == old(de).data(),
        match r {
            Ok(v) => spec_delta_values(old(de).data(), old(de).pos(), n as nat, words) == Ok::<(Seq<i16>, int), Error>(
                (v@, final(de).pos()),
            ),
            Err(e) => spec_delta_values(old(de).data(), old(de).pos(), n as nat, words) == Err::<
                (Seq<i16>, int),
                Error,
            >(e),
        },
{
    let mut vals: Vec<i16> = Vec::new();
    let mut i: usize = 0;
    while i < n
        invariant
            i <= n,
            de.data() == old(de).data(),
            spec_delta_values(old(de).data(), old(de).pos(), n as nat, words) == prepend(
                vals@,
                spec_delta_values(de.data(), de.pos(), (n - i) as nat, words),
            ),
        decreases n - i,
    {
        let ghost before = vals@;
        let v: i16 = if words {
            de.read_i16()?
        } else {
            de.read_u8()? as i8 as i16
        };
        proof {
            lemma_prepend_twice(before, seq![v], spec_delta_values(de.data(), de.pos(), (n - i - 1) as nat, words));
        }
        vals.push(v);
        proof {
            assert(vals@ =~= before + seq![v]);
        }
        i = i + 1;
    }
    proof {
        assert(vals@ + seq![] =~= vals@);
    }
    Ok(vals)
}

/// Reads packed deltas for a set of `num_points` points.
pub struct PackedDeltasDeserializer {
    pub num_points: usize,
}

impl PackedDeltasDeserializer {
    /// Reads runs until `num_points` deltas have come.
    pub fn deserialize(&self, de: &mut Deserializer) -> (r: Result<PackedDeltas, Error>)
        ensures
            final(de).data() == old(de).data(),
            match r {
                Ok(v) => spec_delta_runs(old(de).data(), old(de).pos(), self.num_points as nat) == Ok::<
                    (Seq<i16>, int),
                    Error,
                >((v.deep_view(), final(de).pos())),
                Err(e) => spec_delta_runs(old(de).data(), old(de).pos(), self.num_points as nat) == Err::<
                    (Seq<i16>, int),
                    Error,
                >(e),
            },
            r is Ok ==> r->Ok_0.0@.len() == self.num_points,
    {
        proof {
            lemma_delta_runs_len(de.data(), de.pos(), self.num_points as nat);
        }
        let mut deltas: Vec<i16> = Vec::new();
        let mut remaining: usize = self.num_points;
        while remaining > 0
            invariant
                remaining <= self.num_points,
                de.data() == old(de).data(),
                spec_delta_runs(old(de).data(), old(de).pos(), self.num_points as nat) == prepend(
                    deltas@,
                    spec_delta_runs(de.data(), de.pos(), remaining as nat),
                ),
            decreases remaining,
        {
            let h = de.read_u8()?;
            let len: usize = (h & 0x3f) as usize + 1;
            let take: usize = if len < remaining {
                len
            } else {
                remaining
            };
            let ghost before = deltas@;
            if h & 0x80 != 0 {
                let mut j: usize = 0;
                while j < take
                    invariant
                        j <= take,
                        deltas@ == before + zeros(j as nat),
                    decreases take - j,
                {
                    deltas.push(0);
                    proof {
                        assert(deltas@ =~= before + zeros((j + 1) as nat));
                    }
                    j = j + 1;
                }
                proof {
                    lemma_prepend_twice(
                        before,
                        zeros(take as nat),
                        spec_delta_runs(de.data(), de.pos(), (remaining - take) as nat),
                    );
                }
            } else {
                let mut vals = read_delta_values(de, take, h & 0x40 != 0)?;
                proof {
                    lemma_prepend_twice(
                        before,
                        vals@,
                        spec_delta_runs(de.data(), de.pos(), (remaining - take) as nat),
                    );
                }
                deltas.append(&mut vals);
            }
            remaining = remaining - take;
        }
        proof {
            assert(deltas@ + seq![] =~= deltas@);
        }
        Ok(PackedDeltas(deltas))
    }
}

} // verus!
