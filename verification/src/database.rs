//! The store's wire-level value handling: resource ids travel
//! through the storage driver as signed 8-byte columns, and arrive
//! as raw big-endian bytes that must decode to the unsigned id.

use vstd::prelude::*;

verus! {

/// An error raised while decoding a stored value.
#[derive(Debug)]
pub struct SqlError(pub String);

impl SqlError {
    pub fn new(s: &str) -> (r: Self)
        ensures
            r.0@ == s@,
    {
        SqlError(s.to_owned())
    }

    /// The error's message.
    pub fn message(&self) -> (r: String)
        ensures
            r@ == self.0@,
    {
        self.0.clone()
    }
}

/// A resource id as the storage layer carries it.
#[derive(Debug, Clone, Copy, PartialEq, Eq, Structural, Hash)]
pub struct U64(pub u64);

/// The value of eight big-endian bytes.
pub open spec fn be_u64(s: Seq<u8>) -> u64
    recommends
        s.len() >= 8,
{
    (s[0] * 0x100_0000_0000_0000 + s[1] * 0x1_0000_0000_0000 + s[2] * 0x100_0000_0000 + s[3]
        * 0x1_0000_0000 + s[4] * 0x100_0000 + s[5] * 0x1_0000 + s[6] * 0x100 + s[7]) as u64
}

impl U64 {
    /// Decode a raw stored value: the first eight bytes, big endian,
    /// as the storage layer's byte order has them.  A null column or
    /// one shorter than eight bytes is rejected with the matching
    /// message.
    pub fn from_sql(bytes: Option<&[u8]>) -> (r: Result<U64, SqlError>)
        ensures
            match bytes {
                None => r matches Err(e) && e.0@ == "unexpected null"@,
                Some(b) => if b@.len() >= 8 {
                    r == Ok::<U64, SqlError>(U64(be_u64(b@)))
                } else {
                    r matches Err(e) && e.0@ == "failed to fill whole buffer"@
                },
            },
    {
        let b = match bytes {
            Some(b) => b,
            None => {
                return Err(SqlError::new("unexpected null"));
            },
        };
        if b.len() < 8 {
            return Err(SqlError::new("failed to fill whole buffer"));
        }
        let v: u64 = (b[0] as u64) * 0x100_0000_0000_0000 + (b[1] as u64) * 0x1_0000_0000_0000 + (
        b[2] as u64) * 0x100_0000_0000 + (b[3] as u64) * 0x1_0000_0000 + (b[4] as u64) * 0x100_0000
            + (b[5] as u64) * 0x1_0000 + (b[6] as u64) * 0x100 + (b[7] as u64);
        Ok(U64(v))
    }

    /// The plain id.
    pub fn value(self) -> (r: u64)
        ensures
            r == self.0,
    {
        self.0
    }
}

} // verus!
