//! Indexed storage that reads as a default value wherever nothing was
//! written: [`DefaultVec`], which grows on demand, and [`FlagVec`], which
//! packs small unsigned values of a fixed bit width into the words of one.

pub mod default_vec;
pub mod flag_vec;
pub mod packing;

pub use default_vec::{ConstDefault, DefaultVec};
pub use flag_vec::{DynamicFlagVec, FlagLength, FlagVec, StaticFlagVec};
