//! A forward-only cursor over a byte buffer, and big-endian decoding of the
//! values read from it.
use crate::error::Error;
use vstd::prelude::*;

verus! {

/// A read position over an immutable byte buffer.
pub struct Deserializer<'de> {
    input: &'de [u8],
    ptr: usize,
}

impl<'de> Deserializer<'de> {
    /// The whole buffer.
    pub closed spec fn data(&self) -> Seq<u8> {
        self.input@
    }

    /// The offset of the next byte to be read.
    pub closed spec fn pos(&self) -> int {
        self.ptr as int
    }

    /// A cursor at the start of `input`.
    pub fn from_bytes(input: &'de [u8]) -> (r: Self)
        ensures
            r.data() == input@,
            r.pos() == 0,
    {
        Deserializer { input, ptr: 0 }
    }

    /// The offset of the next byte to be read.
    pub fn position(&self) -> (r: usize)
        ensures
            r as int == self.pos(),
    {
        self.ptr
    }

    /// Whether no byte is left to read.
    pub fn is_at_end(&self) -> (r: bool)
        ensures
            r == (self.pos() >= self.data().len()),
    {
        self.ptr >= self.input.len()
    }

    /// Returns the next `bytes` bytes and moves past them, or fails with
    /// `Eof`, moving nowhere, when fewer remain.
    pub fn consume(&mut self, bytes: usize) -> (r: Result<&'de [u8], Error>)
        ensures
            final(self).data() == old(self).data(),
            r is Ok <==> old(self).pos() + bytes <= old(self).data().len(),
            match r {
                Ok(s) => s@ == old(self).data().subrange(old(self).pos(), old(self).pos() + bytes)
                    && final(self).pos() == old(self).pos() + bytes,
                Err(e) => e == Error::Eof && final(self).pos() == old(self).pos(),
            },
    {
        if self.ptr <= self.input.len() && bytes <= self.input.len() - self.ptr {
            let subslice = vstd::slice::slice_subrange(self.input, self.ptr, self.ptr + bytes);
            self.ptr = self.ptr + bytes;
            Ok(subslice)
        } else {
            Err(Error::Eof)
        }
    }
}

/// The `n` bytes at `pos`, and the offset after them; `Eof` where the
/// buffer holds fewer.
pub open spec fn spec_bytes(data: Seq<u8>, pos: int, n: int) -> Result<(Seq<u8>, int), Error> {
    if 0 <= pos && 0 <= n && pos + n <= data.len() {
        Ok((data.subrange(pos, pos + n), pos + n))
    } else {
        Err(Error::Eof)
    }
}

/// The big-endian value of two bytes.
pub open spec fn be_u16(b: Seq<u8>) -> u16 {
    (b[0] as int * 0x100 + b[1] as int) as u16
}

/// The big-endian value of four bytes.
pub open spec fn be_u32(b: Seq<u8>) -> u32 {
    (b[0] as int * 0x100_0000 + b[1] as int * 0x1_0000 + b[2] as int * 0x100 + b[3] as int) as u32
}

/// The big-endian value of eight bytes.
pub open spec fn be_u64(b: Seq<u8>) -> u64 {
    (be_u32(b) as int * 0x1_0000_0000 + be_u32(b.subrange(4, 8)) as int) as u64
}

/// Reads a fixed-width value of `n` bytes, converted by `f`.
pub open spec fn spec_scalar<T>(data: Seq<u8>, pos: int, n: int, f: spec_fn(Seq<u8>) -> T) -> Result<(T, int), Error> {
    match spec_bytes(data, pos, n) {
        Ok((b, q)) => Ok((f(b), q)),
        Err(e) => Err(e),
    }
}

/// A byte.
pub open spec fn spec_u8(data: Seq<u8>, pos: int) -> Result<(u8, int), Error> {
    spec_scalar(data, pos, 1, |b: Seq<u8>| b[0])
}

/// A big-endian `u16`.
pub open spec fn spec_u16(data: Seq<u8>, pos: int) -> Result<(u16, int), Error> {
    spec_scalar(data, pos, 2, |b: Seq<u8>| be_u16(b))
}

/// A big-endian `i16`.
pub open spec fn spec_i16(data: Seq<u8>, pos: int) -> Result<(i16, int), Error> {
    spec_scalar(data, pos, 2, |b: Seq<u8>| be_u16(b) as i16)
}

/// A big-endian `u32`.
pub open spec fn spec_u32(data: Seq<u8>, pos: int) -> Result<(u32, int), Error> {
    spec_scalar(data, pos, 4, |b: Seq<u8>| be_u32(b))
}

/// Whether an exec result agrees with the expected parse, `end` being the
/// cursor's position after the call.
pub open spec fn decoded<T: DeepView>(r: Result<T, Error>, expected: Result<(T::V, int), Error>, end: int) -> bool {
    match r {
        Ok(v) => expected == Ok::<(T::V, int), Error>((v.deep_view(), end)),
        Err(e) => expected == Err::<(T::V, int), Error>(e),
    }
}

/// What a parse that succeeded on `data` gives on the first `k` bytes of it:
/// the same where it ended within them, else `Eof`.
pub open spec fn truncated<V>(r: Result<(V, int), Error>, k: int) -> Result<(V, int), Error> {
    match r {
        Ok((v, q)) => if q <= k {
            Ok((v, q))
        } else {
            Err(Error::Eof)
        },
        Err(e) => Err(e),
    }
}

impl<'de> Deserializer<'de> {
    /// Reads one byte.
    pub fn read_u8(&mut self) -> (r: Result<u8, Error>)
        ensures
            final(self).data() == old(self).data(),
            decoded(r, spec_u8(old(self).data(), old(self).pos()), final(self).pos()),
    {
        let b = self.consume(1)?;
        Ok(b[0])
    }

    /// Reads a byte as a signed value.
    pub fn read_i8(&mut self) -> (r: Result<i8, Error>)
        ensures
            final(self).data() == old(self).data(),
            decoded(r, spec_scalar(old(self).data(), old(self).pos(), 1, |b: Seq<u8>| b[0] as i8), final(self).pos()),
    {
        let b = self.consume(1)?;
        Ok(b[0] as i8)
    }

    /// Reads a boolean byte: true iff it is not zero.
    pub fn parse_bool(&mut self) -> (r: Result<bool, Error>)
        ensures
            final(self).data() == old(self).data(),
            decoded(r, spec_scalar(old(self).data(), old(self).pos(), 1, |b: Seq<u8>| b[0] > 0), final(self).pos()),
    {
        let b = self.consume(1)?;
        if b[0] > 0 {
            Ok(true)
        } else {
            Ok(false)
        }
    }

    /// Reads a big-endian `u16`.
    pub fn read_u16(&mut self) -> (r: Result<u16, Error>)
        ensures
            final(self).data() == old(self).data(),
            decoded(r, spec_u16(old(self).data(), old(self).pos()), final(self).pos()),
    {
        let b = self.consume(2)?;
        Ok((b[0] as u16) * 0x100 + b[1] as u16)
    }

    /// Reads a big-endian `i16`.
    pub fn read_i16(&mut self) -> (r: Result<i16, Error>)
        ensures
            final(self).data() == old(self).data(),
            decoded(r, spec_i16(old(self).data(), old(self).pos()), final(self).pos()),
    {
        let v = self.read_u16()?;
        Ok(v as i16)
    }

    /// Reads a big-endian `u32`.
    pub fn read_u32(&mut self) -> (r: Result<u32, Error>)
        ensures
            final(self).data() == old(self).data(),
            decoded(r, spec_u32(old(self).data(), old(self).pos()), final(self).pos()),
    {
        let b = self.consume(4)?;
        Ok((b[0] as u32) * 0x100_0000 + (b[1] as u32) * 0x1_0000 + (b[2] as u32) * 0x100 + b[3] as u32)
    }

    /// Reads a big-endian `i32`.
    pub fn read_i32(&mut self) -> (r: Result<i32, Error>)
        ensures
            final(self).data() == old(self).data(),
            decoded(r, spec_scalar(old(self).data(), old(self).pos(), 4, |b: Seq<u8>| be_u32(b) as i32), final(self).pos()),
    {
        let v = self.read_u32()?;
        Ok(v as i32)
    }

    /// Reads a big-endian `u64`.
    pub fn read_u64(&mut self) -> (r: Result<u64, Error>)
        ensures
            final(self).data() == old(self).data(),
            decoded(r, spec_scalar(old(self).data(), old(self).pos(), 8, |b: Seq<u8>| be_u64(b)), final(self).pos()),
    {
        let ghost start = self.pos();
        let b = self.consume(8)?;
        let hi = (b[0] as u32) * 0x100_0000 + (b[1] as u32) * 0x1_0000 + (b[2] as u32) * 0x100 + b[3] as u32;
        let lo = (b[4] as u32) * 0x100_0000 + (b[5] as u32) * 0x1_0000 + (b[6] as u32) * 0x100 + b[7] as u32;
        proof {
            let bs = self.data().subrange(start, start + 8);
            assert(bs.subrange(4, 8) =~= seq![b@[4], b@[5], b@[6], b@[7]]);
        }
        Ok((hi as u64) * 0x1_0000_0000 + lo as u64)
    }

    /// Reads a big-endian `i64`.
    pub fn read_i64(&mut self) -> (r: Result<i64, Error>)
        ensures
            final(self).data() == old(self).data(),
            decoded(r, spec_scalar(old(self).data(), old(self).pos(), 8, |b: Seq<u8>| be_u64(b) as i64), final(self).pos()),
    {
        let v = self.read_u64()?;
        Ok(v as i64)
    }
}

/// A value that can be read from a cursor with no context but the bytes.
pub trait Decode: Sized + DeepView {
    /// The value that the bytes at `pos` encode, and the offset after them.
    spec fn spec_decode(data: Seq<u8>, pos: int) -> Result<(Self::V, int), Error>;

    /// A successful decode consumes at least one byte, within the buffer.
    proof fn lemma_decode_bounds(data: Seq<u8>, pos: int)
        ensures
            Self::spec_decode(data, pos) is Ok ==> 0 <= pos < Self::spec_decode(data, pos)->Ok_0.1
                <= data.len(),
    ;

    /// A decode reads nothing past the offset where it ends.
    proof fn lemma_decode_prefix(data: Seq<u8>, pos: int, k: int)
        requires
            0 <= pos <= k <= data.len(),
            Self::spec_decode(data, pos) is Ok,
        ensures
            Self::spec_decode(data.take(k), pos) == truncated(Self::spec_decode(data, pos), k),
    ;

    /// Reads one value.
    fn decode(de: &mut Deserializer) -> (r: Result<Self, Error>)
        ensures
            final(de).data() == old(de).data(),
            decoded(r, Self::spec_decode(old(de).data(), old(de).pos()), final(de).pos()),
    ;
}

/// A fixed-width read ends `n` bytes on, and reads only those bytes.
pub proof fn lemma_scalar<T>(data: Seq<u8>, pos: int, n: int, f: spec_fn(Seq<u8>) -> T, k: int)
    requires
        n > 0,
    ensures
        spec_scalar(data, pos, n, f) is Ok ==> 0 <= pos < spec_scalar(data, pos, n, f)->Ok_0.1 <= data.len()
            && spec_scalar(data, pos, n, f)->Ok_0.1 == pos + n,
        0 <= pos <= k <= data.len() ==> spec_scalar(data.take(k), pos, n, f) == truncated(spec_scalar(data, pos, n, f), k),
{
    if 0 <= pos <= k <= data.len() && pos + n <= k {
        assert(data.take(k).subrange(pos, pos + n) =~= data.subrange(pos, pos + n));
    }
}

/// A `u16` ends two bytes on, and reads only those bytes.
pub proof fn lemma_u16(data: Seq<u8>, pos: int, k: int)
    ensures
        spec_u16(data, pos) is Ok ==> 0 <= pos && spec_u16(data, pos)->Ok_0.1 == pos + 2 <= data.len(),
        0 <= pos <= k <= data.len() ==> spec_u16(data.take(k), pos) == truncated(spec_u16(data, pos), k),
{
    lemma_scalar(data, pos, 2, |b: Seq<u8>| be_u16(b), k);
}

/// An `i16` ends two bytes on, and reads only those bytes.
pub proof fn lemma_i16(data: Seq<u8>, pos: int, k: int)
    ensures
        spec_i16(data, pos) is Ok ==> 0 <= pos && spec_i16(data, pos)->Ok_0.1 == pos + 2 <= data.len(),
        0 <= pos <= k <= data.len() ==> spec_i16(data.take(k), pos) == truncated(spec_i16(data, pos), k),
{
    lemma_scalar(data, pos, 2, |b: Seq<u8>| be_u16(b) as i16, k);
}

/// A byte ends one byte on, and reads only that byte.
pub proof fn lemma_u8(data: Seq<u8>, pos: int, k: int)
    ensures
        spec_u8(data, pos) is Ok ==> 0 <= pos && spec_u8(data, pos)->Ok_0.1 == pos + 1 <= data.len(),
        0 <= pos <= k <= data.len() ==> spec_u8(data.take(k), pos) == truncated(spec_u8(data, pos), k),
{
    lemma_scalar(data, pos, 1, |b: Seq<u8>| b[0], k);
}

impl Decode for u8 {
    open spec fn spec_decode(data: Seq<u8>, pos: int) -> Result<(u8, int), Error> {
        spec_u8(data, pos)
    }

    proof fn lemma_decode_bounds(data: Seq<u8>, pos: int) {
        lemma_scalar(data, pos, 1, |b: Seq<u8>| b[0], 0);
    }

    proof fn lemma_decode_prefix(data: Seq<u8>, pos: int, k: int) {
        lemma_scalar(data, pos, 1, |b: Seq<u8>| b[0], k);
    }

    fn decode(de: &mut Deserializer) -> (r: Result<u8, Error>) {
        de.read_u8()
    }
}

impl Decode for i8 {
    open spec fn spec_decode(data: Seq<u8>, pos: int) -> Result<(i8, int), Error> {
        spec_scalar(data, pos, 1, |b: Seq<u8>| b[0] as i8)
    }

    proof fn lemma_decode_bounds(data: Seq<u8>, pos: int) {
        lemma_scalar(data, pos, 1, |b: Seq<u8>| b[0] as i8, 0);
    }

    proof fn lemma_decode_prefix(data: Seq<u8>, pos: int, k: int) {
        lemma_scalar(data, pos, 1, |b: Seq<u8>| b[0] as i8, k);
    }

    fn decode(de: &mut Deserializer) -> (r: Result<i8, Error>) {
        de.read_i8()
    }
}

impl Decode for bool {
    open spec fn spec_decode(data: Seq<u8>, pos: int) -> Result<(bool, int), Error> {
        spec_scalar(data, pos, 1, |b: Seq<u8>| b[0] > 0)
    }

    proof fn lemma_decode_bounds(data: Seq<u8>, pos: int) {
        lemma_scalar(data, pos, 1, |b: Seq<u8>| b[0] > 0, 0);
    }

    proof fn lemma_decode_prefix(data: Seq<u8>, pos: int, k: int) {
        lemma_scalar(data, pos, 1, |b: Seq<u8>| b[0] > 0, k);
    }

    fn decode(de: &mut Deserializer) -> (r: Result<bool, Error>) {
        de.parse_bool()
    }
}

impl Decode for u16 {
    open spec fn spec_decode(data: Seq<u8>, pos: int) -> Result<(u16, int), Error> {
        spec_u16(data, pos)
    }

    proof fn lemma_decode_bounds(data: Seq<u8>, pos: int) {
        lemma_scalar(data, pos, 2, |b: Seq<u8>| be_u16(b), 0);
    }

    proof fn lemma_decode_prefix(data: Seq<u8>, pos: int, k: int) {
        lemma_scalar(data, pos, 2, |b: Seq<u8>| be_u16(b), k);
    }

    fn decode(de: &mut Deserializer) -> (r: Result<u16, Error>) {
        de.read_u16()
    }
}

impl Decode for i16 {
    open spec fn spec_decode(data: Seq<u8>, pos: int) -> Result<(i16, int), Error> {
        spec_i16(data, pos)
    }

    proof fn lemma_decode_bounds(data: Seq<u8>, pos: int) {
        lemma_scalar(data, pos, 2, |b: Seq<u8>| be_u16(b) as i16, 0);
    }

    proof fn lemma_decode_prefix(data: Seq<u8>, pos: int, k: int) {
        lemma_scalar(data, pos, 2, |b: Seq<u8>| be_u16(b) as i16, k);
    }

    fn decode(de: &mut Deserializer) -> (r: Result<i16, Error>) {
        de.read_i16()
    }
}

impl Decode for u32 {
    open spec fn spec_decode(data: Seq<u8>, pos: int) -> Result<(u32, int), Error> {
        spec_u32(data, pos)
    }

    proof fn lemma_decode_bounds(data: Seq<u8>, pos: int) {
        lemma_scalar(data, pos, 4, |b: Seq<u8>| be_u32(b), 0);
    }

    proof fn lemma_decode_prefix(data: Seq<u8>, pos: int, k: int) {
        lemma_scalar(data, pos, 4, |b: Seq<u8>| be_u32(b), k);
    }

    fn decode(de: &mut Deserializer) -> (r: Result<u32, Error>) {
        de.read_u32()
    }
}

impl Decode for i32 {
    open spec fn spec_decode(data: Seq<u8>, pos: int) -> Result<(i32, int), Error> {
        spec_scalar(data, pos, 4, |b: Seq<u8>| be_u32(b) as i32)
    }

    proof fn lemma_decode_bounds(data: Seq<u8>, pos: int) {
        lemma_scalar(data, pos, 4, |b: Seq<u8>| be_u32(b) as i32, 0);
    }

    proof fn lemma_decode_prefix(data: Seq<u8>, pos: int, k: int) {
        lemma_scalar(data, pos, 4, |b: Seq<u8>| be_u32(b) as i32, k);
    }

    fn decode(de: &mut Deserializer) -> (r: Result<i32, Error>) {
        de.read_i32()
    }
}

impl Decode for u64 {
    open spec fn spec_decode(data: Seq<u8>, pos: int) -> Result<(u64, int), Error> {
        spec_scalar(data, pos, 8, |b: Seq<u8>| be_u64(b))
    }

    proof fn lemma_decode_bounds(data: Seq<u8>, pos: int) {
        lemma_scalar(data, pos, 8, |b: Seq<u8>| be_u64(b), 0);
    }

    proof fn lemma_decode_prefix(data: Seq<u8>, pos: int, k: int) {
        lemma_scalar(data, pos, 8, |b: Seq<u8>| be_u64(b), k);
    }

    fn decode(de: &mut Deserializer) -> (r: Result<u64, Error>) {
        de.read_u64()
    }
}

impl Decode for i64 {
    open spec fn spec_decode(data: Seq<u8>, pos: int) -> Result<(i64, int), Error> {
        spec_scalar(data, pos, 8, |b: Seq<u8>| be_u64(b) as i64)
    }

    proof fn lemma_decode_bounds(data: Seq<u8>, pos: int) {
        lemma_scalar(data, pos, 8, |b: Seq<u8>| be_u64(b) as i64, 0);
    }

    proof fn lemma_decode_prefix(data: Seq<u8>, pos: int, k: int) {
        lemma_scalar(data, pos, 8, |b: Seq<u8>| be_u64(b) as i64, k);
    }

    fn decode(de: &mut Deserializer) -> (r: Result<i64, Error>) {
        de.read_i64()
    }
}

/// Puts `head` before the values of a parse that yields a sequence.
pub open spec fn prepend<V>(head: Seq<V>, r: Result<(Seq<V>, int), Error>) -> Result<(Seq<V>, int), Error> {
    match r {
        Ok((vs, q)) => Ok((head + vs, q)),
        Err(e) => Err(e),
    }
}

/// The value of a parse, without the offset where it ended.
pub open spec fn value_of<V>(r: Result<(V, int), Error>) -> Result<V, Error> {
    match r {
        Ok((v, _)) => Ok(v),
        Err(e) => Err(e),
    }
}

/// Two prepends in a row are one.
pub proof fn lemma_prepend_twice<V>(a: Seq<V>, b: Seq<V>, r: Result<(Seq<V>, int), Error>)
    ensures
        prepend(a, prepend(b, r)) == prepend(a + b, r),
{
    if let Ok((vs, q)) = r {
        assert(a + (b + vs) =~= (a + b) + vs);
    }
}

/// `n` values of `T`, one after another.
pub open spec fn spec_counted<T: Decode>(data: Seq<u8>, pos: int, n: nat) -> Result<(Seq<T::V>, int), Error>
    decreases n,
{
    if n == 0 {
        Ok((seq![], pos))
    } else {
        match T::spec_decode(data, pos) {
            Ok((v, p)) => prepend(seq![v], spec_counted::<T>(data, p, (n - 1) as nat)),
            Err(e) => Err(e),
        }
    }
}

/// Values of `T`, one after another, until the buffer ends.
pub open spec fn spec_to_end<T: Decode>(data: Seq<u8>, pos: int) -> Result<(Seq<T::V>, int), Error>
    decreases data.len() - pos,
{
    if pos >= data.len() {
        Ok((seq![], pos))
    } else {
        match T::spec_decode(data, pos) {
            Ok((v, p)) => if p <= pos || p > data.len() {
                Err(Error::InvalidTag)
            } else {
                prepend(seq![v], spec_to_end::<T>(data, p))
            },
            Err(e) => Err(e),
        }
    }
}

/// A counted sequence ends within the buffer, no earlier than it starts.
pub proof fn lemma_counted_bounds<T: Decode>(data: Seq<u8>, pos: int, n: nat)
    requires
        0 <= pos <= data.len(),
    ensures
        spec_counted::<T>(data, pos, n) is Ok ==> pos <= spec_counted::<T>(data, pos, n)->Ok_0.1 <= data.len(),
        spec_counted::<T>(data, pos, n) is Ok ==> spec_counted::<T>(data, pos, n)->Ok_0.0.len() == n,
    decreases n,
{
    if n > 0 {
        T::lemma_decode_bounds(data, pos);
        if let Ok((v, p)) = T::spec_decode(data, pos) {
            lemma_counted_bounds::<T>(data, p, (n - 1) as nat);
        }
    }
}

/// A counted sequence reads nothing past the offset where it ends.
pub proof fn lemma_counted_prefix<T: Decode>(data: Seq<u8>, pos: int, n: nat, k: int)
    requires
        0 <= pos <= k <= data.len(),
        spec_counted::<T>(data, pos, n) is Ok,
    ensures
        spec_counted::<T>(data.take(k), pos, n) == truncated(spec_counted::<T>(data, pos, n), k),
    decreases n,
{
    if n > 0 {
        T::lemma_decode_bounds(data, pos);
        T::lemma_decode_prefix(data, pos, k);
        let (v, p) = T::spec_decode(data, pos)->Ok_0;
        lemma_counted_bounds::<T>(data, p, (n - 1) as nat);
        if p <= k {
            lemma_counted_prefix::<T>(data, p, (n - 1) as nat, k);
        }
    }
}

/// Cutting the bytes of a value that decodes anywhere before its end makes
/// it fail with `Eof`: no value is ever made of part of its bytes.
pub proof fn lemma_truncated<T: Decode>(data: Seq<u8>, k: int)
    requires
        T::spec_decode(data, 0) is Ok,
        0 <= k < T::spec_decode(data, 0)->Ok_0.1,
    ensures
        T::spec_decode(data.take(k), 0) == Err::<(T::V, int), Error>(Error::Eof),
{
    T::lemma_decode_bounds(data, 0);
    T::lemma_decode_prefix(data, 0, k);
}

impl<T: Decode> Decode for Option<T> {
    /// An optional value is always read: whether it is there at all is for
    /// the caller to decide, from flags read earlier.
    open spec fn spec_decode(data: Seq<u8>, pos: int) -> Result<(Option<T::V>, int), Error> {
        match T::spec_decode(data, pos) {
            Ok((v, p)) => Ok((Some(v), p)),
            Err(e) => Err(e),
        }
    }

    proof fn lemma_decode_bounds(data: Seq<u8>, pos: int) {
        T::lemma_decode_bounds(data, pos);
    }

    proof fn lemma_decode_prefix(data: Seq<u8>, pos: int, k: int) {
        T::lemma_decode_prefix(data, pos, k);
    }

    fn decode(de: &mut Deserializer) -> (r: Result<Option<T>, Error>) {
        let v = T::decode(de)?;
        Ok(Some(v))
    }
}

/// Reads a sequence whose length the caller knows from context.
pub struct CountedDeserializer {
    len: usize,
}

impl CountedDeserializer {
    /// The number of values to read.
    pub closed spec fn count(&self) -> nat {
        self.len as nat
    }

    /// A reader of `len` values.
    pub fn with_len(len: usize) -> (r: Self)
        ensures
            r.count() == len,
    {
        CountedDeserializer { len }
    }

    /// Reads exactly `count()` values of `T`.
    pub fn deserialize<T: Decode>(&self, de: &mut Deserializer) -> (r: Result<Vec<T>, Error>)
        ensures
            final(de).data() == old(de).data(),
            decoded(r, spec_counted::<T>(old(de).data(), old(de).pos(), self.count()), final(de).pos()),
    {
        let mut res: Vec<T> = Vec::new();
        let mut i: usize = 0;
        while i < self.len
            invariant
                i <= self.len,
                de.data() == old(de).data(),
                spec_counted::<T>(old(de).data(), old(de).pos(), self.count()) == prepend(
                    res.deep_view(),
                    spec_counted::<T>(de.data(), de.pos(), (self.count() - i) as nat),
                ),
            decreases self.len - i,
        {
            let ghost before = res.deep_view();
            let ghost rest = (self.count() - i - 1) as nat;
            let v = T::decode(de)?;
            proof {
                lemma_prepend_twice(before, seq![v.deep_view()], spec_counted::<T>(de.data(), de.pos(), rest));
            }
            res.push(v);
            proof {
                assert(res.deep_view() =~= before + seq![v.deep_view()]);
            }
            i = i + 1;
        }
        proof {
            assert(res.deep_view() + seq![] =~= res.deep_view());
        }
        Ok(res)
    }
}

/// Reads values of `T` until the buffer ends.
pub fn deserialize_to_end<T: Decode>(de: &mut Deserializer) -> (r: Result<Vec<T>, Error>)
    ensures
        final(de).data() == old(de).data(),
        decoded(r, spec_to_end::<T>(old(de).data(), old(de).pos()), final(de).pos()),
{
    let mut res: Vec<T> = Vec::new();
    while !de.is_at_end()
        invariant
            de.data() == old(de).data(),
            spec_to_end::<T>(old(de).data(), old(de).pos()) == prepend(
                res.deep_view(),
                spec_to_end::<T>(de.data(), de.pos()),
            ),
        decreases de.data().len() - de.pos(),
    {
        let ghost before = res.deep_view();
        let ghost start = de.pos();
        proof {
            T::lemma_decode_bounds(de.data(), de.pos());
        }
        let v = T::decode(de)?;
        proof {
            lemma_prepend_twice(before, seq![v.deep_view()], spec_to_end::<T>(de.data(), de.pos()));
        }
        res.push(v);
        proof {
            assert(res.deep_view() =~= before + seq![v.deep_view()]);
        }
    }
    proof {
        assert(res.deep_view() + seq![] =~= res.deep_view());
    }
    Ok(res)
}

/// Decodes a `T` from the start of `s`. Bytes after it are left unread.
pub fn from_bytes<T: Decode>(s: &[u8]) -> (r: Result<T, Error>)
    ensures
        match r {
            Ok(v) => value_of(T::spec_decode(s@, 0)) == Ok::<T::V, Error>(v.deep_view()),
            Err(e) => T::spec_decode(s@, 0) == Err::<(T::V, int), Error>(e),
        },
{
    let mut deserializer = Deserializer::from_bytes(s);
    T::decode(&mut deserializer)
}

/// Decodes a `T` that must fill `s` exactly: bytes left after it give
/// `TrailingBytes`.
pub fn from_bytes_strict<T: Decode>(s: &[u8]) -> (r: Result<T, Error>)
    ensures
        match T::spec_decode(s@, 0) {
            Ok((v, q)) => if q == s@.len() {
                r is Ok && r->Ok_0.deep_view() == v
            } else {
                r == Err::<T, Error>(Error::TrailingBytes)
            },
            Err(e) => r == Err::<T, Error>(e),
        },
{
    let mut deserializer = Deserializer::from_bytes(s);
    proof {
        T::lemma_decode_bounds(s@, 0);
    }
    let t = T::decode(&mut deserializer)?;
    if deserializer.is_at_end() {
        Ok(t)
    } else {
        Err(Error::TrailingBytes)
    }
}

/// The shapes of value that a decode may be asked for.
#[derive(Debug, Clone, Copy, PartialEq, Eq)]
pub enum Primitive {
    Bool,
    U8,
    I8,
    U16,
    I16,
    U32,
    I32,
    U64,
    I64,
    F32,
    F64,
    Char,
    Str,
    Bytes,
    Unit,
    Dict,
    Enum,
    Any,
}

/// A decoded primitive value.
#[derive(Debug, Clone, Copy, PartialEq, Eq)]
pub enum Scalar {
    Bool(bool),
    U8(u8),
    I8(i8),
    U16(u16),
    I16(i16),
    U32(u32),
    I32(i32),
    U64(u64),
    I64(i64),
}

impl DeepView for Scalar {
    type V = Scalar;

    open spec fn deep_view(&self) -> Scalar {
        *self
    }
}

/// A parse of `T`, its value wrapped by `f`.
pub open spec fn wrap<T>(r: Result<(T, int), Error>, f: spec_fn(T) -> Scalar) -> Result<(Scalar, int), Error> {
    match r {
        Ok((v, q)) => Ok((f(v), q)),
        Err(e) => Err(e),
    }
}

/// The value of shape `kind` at `pos`. Floating point and text are never
/// guessed at (`UnsupportedPrimitive`); units, dictionaries, enums and untyped
/// values have no encoding in this format (`InvalidTag`). Neither reads a
/// byte.
pub open spec fn spec_primitive(data: Seq<u8>, pos: int, kind: Primitive) -> Result<(Scalar, int), Error> {
    match kind {
        Primitive::Bool => wrap(<bool as Decode>::spec_decode(data, pos), |v: bool| Scalar::Bool(v)),
        Primitive::U8 => wrap(<u8 as Decode>::spec_decode(data, pos), |v: u8| Scalar::U8(v)),
        Primitive::I8 => wrap(<i8 as Decode>::spec_decode(data, pos), |v: i8| Scalar::I8(v)),
        Primitive::U16 => wrap(<u16 as Decode>::spec_decode(data, pos), |v: u16| Scalar::U16(v)),
        Primitive::I16 => wrap(<i16 as Decode>::spec_decode(data, pos), |v: i16| Scalar::I16(v)),
        Primitive::U32 => wrap(<u32 as Decode>::spec_decode(data, pos), |v: u32| Scalar::U32(v)),
        Primitive::I32 => wrap(<i32 as Decode>::spec_decode(data, pos), |v: i32| Scalar::I32(v)),
        Primitive::U64 => wrap(<u64 as Decode>::spec_decode(data, pos), |v: u64| Scalar::U64(v)),
        Primitive::I64 => wrap(<i64 as Decode>::spec_decode(data, pos), |v: i64| Scalar::I64(v)),
        Primitive::F32 | Primitive::F64 | Primitive::Char | Primitive::Str | Primitive::Bytes => Err(
            Error::UnsupportedPrimitive,
        ),
        Primitive::Unit | Primitive::Dict | Primitive::Enum | Primitive::Any => Err(Error::InvalidTag),
    }
}

impl<'de> Deserializer<'de> {
    /// Reads a value of shape `kind`.
    pub fn deserialize_primitive(&mut self, kind: Primitive) -> (r: Result<Scalar, Error>)
        ensures
            final(self).data() == old(self).data(),
            decoded(r, spec_primitive(old(self).data(), old(self).pos(), kind), final(self).pos()),
    {
        match kind {
            Primitive::Bool => Ok(Scalar::Bool(self.parse_bool()?)),
            Primitive::U8 => Ok(Scalar::U8(self.read_u8()?)),
            Primitive::I8 => Ok(Scalar::I8(self.read_i8()?)),
            Primitive::U16 => Ok(Scalar::U16(self.read_u16()?)),
            Primitive::I16 => Ok(Scalar::I16(self.read_i16()?)),
            Primitive::U32 => Ok(Scalar::U32(self.read_u32()?)),
            Primitive::I32 => Ok(Scalar::I32(self.read_i32()?)),
            Primitive::U64 => Ok(Scalar::U64(self.read_u64()?)),
            Primitive::I64 => Ok(Scalar::I64(self.read_i64()?)),
            Primitive::F32 | Primitive::F64 | Primitive::Char | Primitive::Str | Primitive::Bytes => Err(
                Error::UnsupportedPrimitive,
            ),
            Primitive::Unit | Primitive::Dict | Primitive::Enum | Primitive::Any => Err(Error::InvalidTag),
        }
    }

    /// Reads a value of shape `kind` and wraps it: whether an optional value
    /// is there is decided by the caller, never by the stream.
    pub fn deserialize_option(&mut self, kind: Primitive) -> (r: Result<Option<Scalar>, Error>)
        ensures
            final(self).data() == old(self).data(),
            decoded(
                r,
                match spec_primitive(old(self).data(), old(self).pos(), kind) {
                    Ok((v, q)) => Ok::<(Option<Scalar>, int), Error>((Some(v), q)),
                    Err(e) => Err(e),
                },
                final(self).pos(),
            ),
    {
        let v = self.deserialize_primitive(kind)?;
        Ok(Some(v))
    }
}

} // verus!
