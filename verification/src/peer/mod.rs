//! Reads answered by the peer pool.

pub mod backend;
pub mod block;
pub mod bundle;
pub mod connect;
pub mod corroboration;
pub mod frames;
pub mod light_client;
pub mod ordering;
pub mod peaks;
pub mod plurality;
pub mod pool;
pub mod puzzle;
pub mod reads;
pub mod selection;
pub mod set_agreement;
pub mod translate;
pub mod walk;

pub use backend::PeerBackend;
pub use corroboration::OptAnswer;
pub use light_client::{ChiaLightClient, LightClientProvider, SubmitOutcome};
pub use pool::PeerRequirement;
pub use set_agreement::{HeightedSet, SetAnswer, SetProjection};
