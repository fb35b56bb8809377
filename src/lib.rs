use vstd::prelude::*;

pub mod capabilities;
pub mod message;
pub mod model;

pub use capabilities::{default_capabilities, ModelCapabilities};
pub use message::{Message, MessageContent, MessageRole};
pub use model::{LimitExceeded, Model, ModelConfig, TokensCountFactors};

verus! {

} // verus!
