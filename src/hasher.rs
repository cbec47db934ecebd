//! A hasher for integer keys that uses the integer itself as the hash.
use vstd::prelude::*;

verus! {

/// Builds `IntHash` hashers.
#[derive(Clone, Copy, Debug, Default, PartialEq, Eq)]
pub struct IntHasher;

/// The hash of an integer key is the integer itself; byte strings are folded
/// in eight bits at a time.
#[derive(Clone, Copy, Debug, Default, PartialEq, Eq)]
pub struct IntHash(pub u64);

impl std::hash::BuildHasher for IntHasher {
    type Hasher = IntHash;

    fn build_hasher(&self) -> IntHash {
        IntHash(0)
    }
}

impl std::hash::Hasher for IntHash {
    fn finish(&self) -> u64 {
        self.0
    }

    fn write(&mut self, bytes: &[u8]) {
        let mut i: usize = 0;
        while i < bytes.len()
            decreases bytes@.len() - i,
        {
            self.0 = (self.0 << 8u64) | bytes[i] as u64;
            i += 1;
        }
    }

    fn write_u8(&mut self, n: u8) {
        self.0 = n as u64;
    }

    fn write_u16(&mut self, n: u16) {
        self.0 = n as u64;
    }

    fn write_u32(&mut self, n: u32) {
        self.0 = n as u64;
    }

    fn write_u64(&mut self, n: u64) {
        self.0 = n;
    }

    fn write_usize(&mut self, n: usize) {
        self.0 = n as u64;
    }

    fn write_i8(&mut self, n: i8) {
        self.0 = n as u64;
    }

    fn write_i16(&mut self, n: i16) {
        self.0 = n as u64;
    }

    fn write_i32(&mut self, n: i32) {
        self.0 = n as u64;
    }

    fn write_i64(&mut self, n: i64) {
        self.0 = n as u64;
    }

    fn write_isize(&mut self, n: isize) {
        self.0 = n as u64;
    }
}

} // verus!
