//! Renders decimal floating-point literals as their IEEE 754 bit patterns,
//! in binary (sign / exponent / mantissa fields) or hexadecimal (32-bit words).
pub mod bits;
pub mod encode;
