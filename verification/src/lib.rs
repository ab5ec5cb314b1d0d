//! Verified core of hexfetch: HEX on-chain data decoding, day-indexed
//! history bookkeeping, miner records, configuration limits and the small
//! text protocols (query strings, ETags, MIME types) used by the servers.

pub mod numeric;
pub mod text;
pub mod hex;
pub mod u256;
pub mod rpc;
pub mod calldata;
pub mod wallet;
pub mod miners;
pub mod history;
pub mod day_table;
pub mod repair;
pub mod daily;
pub mod dates;
pub mod web;
pub mod host;
pub mod device;
pub mod assets;

