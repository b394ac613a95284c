//! AUM oracle logic: consensus of messenger reports, Solana and Binance data
//! handling, AUM and time-weighted exchange rate arithmetic, and the lock
//! state machine.
pub mod items;
pub mod decimal;
pub mod strings;
pub mod consensus;
pub mod sequences;
pub mod jupiter;
pub mod jupiter_cleanup;
pub mod jupiter_consensus;
pub mod binance;
pub mod twaer;
pub mod aum;
pub mod waitosaur;
pub mod receiver;
pub mod jupiter_receiver;
pub mod sample_data;
pub mod jupiter_aum;
