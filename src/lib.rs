//! Adds the IP addresses found in DNS responses to nftables sets.
//!
//! The library holds the logic: rule parsing and suffix matching, DNS message
//! reading, dnstap envelope and Frame Streams control frame handling, and the
//! building of `nft` commands.
pub mod addr;
pub mod dispatch;
pub mod dns;
pub mod dnstap;
pub mod framestream;
pub mod nft;
pub mod packet;
pub mod rule;
pub mod socks;
pub mod text;
