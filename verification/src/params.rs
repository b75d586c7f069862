//! Parameter providers for the sequence engine.

pub mod joe_kuo_d6;

pub use joe_kuo_d6::JoeKuoD6;
pub use joe_kuo_d6::JoeKuoD6Dim;
