pub mod codec;
pub mod dict;
pub mod numbers;
pub mod round_trip;
pub mod soundness;
pub mod spaces;
pub mod texts;
