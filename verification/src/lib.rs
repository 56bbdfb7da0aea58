//! Coin selection for a Bitcoin wallet.
//!
//! Given the coins that a wallet must spend, the coins that it may spend, a
//! fee rate and a target amount, the library picks the inputs of a
//! transaction, decides whether the surplus becomes a change output, and
//! scores the result. Every function is verified with Verus against the
//! contract that it states.
//!
//! [`selection::get_selection`] is the entry point. The ways to pick coins
//! implement [`strategy::CoinSelectionAlgorithm`]:
//! [`largest_first::LargestFirstCoinSelection`],
//! [`oldest_first::OldestFirstCoinSelection`],
//! [`branch_and_bound::BranchAndBoundCoinSelection`] and
//! [`single_random_draw::SingleRandomDrawCoinSelection`].

pub mod branch_and_bound;
pub mod database;
pub mod error;
pub mod excess;
pub mod exhaustion;
pub mod fee_rate;
pub mod largest_first;
pub mod oldest_first;
pub mod output_group;
pub mod selection;
pub mod single_random_draw;
pub mod sorting;
pub mod strategy;
pub mod sums;
pub mod types;
pub mod waste;

pub use branch_and_bound::BranchAndBoundCoinSelection;
pub use database::Database;
pub use error::Error;
pub use excess::{decide_change, Excess};
pub use fee_rate::FeeRate;
pub use largest_first::LargestFirstCoinSelection;
pub use oldest_first::OldestFirstCoinSelection;
pub use output_group::OutputGroup;
pub use selection::{get_selection, CoinSelectionResult};
pub use single_random_draw::SingleRandomDrawCoinSelection;
pub use strategy::CoinSelectionAlgorithm;
pub use waste::Waste;
