//! Exact arbitrary-precision integers and decimals, and an opaque byte
//! blob, with their textual and fixed-width binary encodings.
pub mod bigint;
pub mod bytes;
pub mod decimal;
pub mod text;

pub use bigint::{BigInt, BigIntOutOfRangeError, BigIntParseError, BigIntSign};
pub use decimal::{BigDecimal, BigDecimalParseError};
pub use bytes::{Bytes, BytesParseError};
