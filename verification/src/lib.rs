//! A lottery-style Bitcoin mining pool that speaks Stratum V2.
//!
//! Every miner names its own payout address: a block it finds pays the whole
//! subsidy and fees to that address. This crate is the pool's logic, the part
//! that decides and computes: job and coinbase construction, the Mining
//! Protocol's answers, template handling, configuration and the bookkeeping of
//! shares. Sockets, files and the database engine live in the program around it.
pub mod bytes;
pub mod coinbase;
pub mod config;
pub mod db;
pub mod hexadecimal;
pub mod jobs;
pub mod keys;
pub mod merkle;
pub mod messages;
pub mod node_ipc;
pub mod noise_connection;
pub mod rpc;
pub mod shares;
pub mod stratum_sv2;
pub mod template_client;
