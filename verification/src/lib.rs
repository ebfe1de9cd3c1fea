//! Exact arithmetic on unsigned, signed and fractional numbers of any size,
//! with one rounding-mode protocol shared by every operation that rounds.

pub mod chars;
pub mod comparison;
pub mod integer;
pub mod log_base_2;
pub mod natural;
pub mod random;
pub mod rational;
pub mod rounding_modes;
pub mod strings;
