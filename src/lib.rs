//! Core of a batch-auction settlement driver: settlement calldata decoding,
//! surplus and fee accounting, external prices, a block-indexed liquidity
//! cache, risk-adjusted scoring and the decision logic of the monitoring and
//! token-quality components.

pub mod abi_encoding;
pub mod alerter;
pub mod bad_token;
pub mod bignat;
pub mod calldata;
pub mod external_prices;
pub mod lru;
pub mod recent_block_cache;
pub mod score;
pub mod settlement;
pub mod settlement_rater;
pub mod solution;
pub mod uint;
