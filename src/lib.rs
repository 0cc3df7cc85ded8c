//! Decoding of the packed binary structures that OpenType variable fonts use
//! to describe how outlines and metrics vary across design-space axes.
//!
//! `de` holds the byte cursor and the generic decode engine: big-endian
//! scalars, optional values, counted sequences and sequences bounded by the
//! end of the buffer. `otvar` holds the variation structures, each decoded by
//! a deserializer that carries the context its bytes do not (axis count,
//! point count, dimensionality of deltas).
pub mod de;
pub mod error;
pub mod otvar;
