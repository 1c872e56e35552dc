//! Convert a [Value](crate::data::value::Value) to `Marquage` text.
pub mod config;
pub mod generator;
pub mod generators;
pub mod round_trip;

pub use config::Config;
pub use generator::Generator;
pub use generators::{PrettyConfig, PrettyGenerator};
