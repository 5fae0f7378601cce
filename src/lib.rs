//! Fixed-layout binary codec for the breeding program's account records,
//! the decoder for its instruction payloads, and the decisions its handlers
//! make over them.

pub mod error;
pub mod instruction;
pub mod layout;
pub mod processor;
pub mod state;

pub use error::DecodeError;
pub use instruction::BreedInstruction;
pub use layout::Identifier;
pub use processor::{Processor, UpdateRejected};
pub use state::{BreedingState, ChildNFTData, NFTData, PlatformData};
