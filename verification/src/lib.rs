//! Colours in two colour spaces, RGB and HSL, with an equality that holds
//! across the two.
//!
//! [`Color`] is the value type. [`rgb_to_hsl`] converts an RGB colour to
//! HSL, and `==` compares two colours of either kind: two RGB colours by
//! their channels, any other pair in HSL. There is no conversion from HSL
//! to RGB.
//!
//! The conversion works in binary floating-point arithmetic of 24
//! significant digits, which [`rounding`] carries out on integers.
//! [`convert`] holds the conversion and says, step by step, what it
//! computes. [`rounding_facts`] and [`convert_facts`] hold what is proved of
//! the two, and [`samples`] works the conversion out for single colours.

pub mod color;
pub mod convert;
pub mod convert_facts;
pub mod rounding;
pub mod rounding_facts;
pub mod samples;

pub use color::Color;
pub use convert::rgb_to_hsl;
