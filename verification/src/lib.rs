pub mod codec;
pub mod config;
pub mod error;
pub mod responses;
pub mod store;

pub use crate::config::KlineConfig;
pub use crate::error::KlineError;
pub use crate::store::Kline;
