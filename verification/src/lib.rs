//! Newton's-law-of-cooling model for a beverage can, in fixed-point
//! arithmetic.
//!
//! Physical quantities are carried as integers in micro-units: a
//! temperature of 25.0 degrees Celsius is `25_000_000` micro-degrees, an
//! area of 0.0134 square metres is `13_400` micro-square-metres, and so
//! on.  The dimensionless factor `e^(-k*t*60)` of the law is approximated
//! by a binary fixed-point function whose exact value the contracts pin
//! down, and whose qualitative behaviour (initial value, monotone decay,
//! convergence to ambient) is proved as public lemmas.

pub mod config;
pub mod display;
pub mod model;
pub mod volume;
