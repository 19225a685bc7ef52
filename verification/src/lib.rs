//! A constant-time unsigned integer library.
//!
//! Multi-precision unsigned integers are stored as little-endian sequences
//! of fixed-width limbs. The limb-level primitives avoid any branching or
//! memory access that depends on operand values; the hex codec at the I/O
//! boundary is deliberately not constant-time.

pub mod base;
pub mod cuint32;
pub mod hex;
pub mod limbs;
pub mod uint;
pub mod util;
