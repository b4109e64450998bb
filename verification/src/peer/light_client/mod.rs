//! A light client that follows one peer session.

pub mod cache;
pub mod client;
pub mod drive;
pub mod error;
pub mod fetcher;
pub mod outcome;
pub mod provider;

pub use client::ChiaLightClient;
pub use outcome::SubmitOutcome;
pub use provider::LightClientProvider;
