//! Verified core of a DNSSEC chain-of-trust walker.
//!
//! The library models DNS names, zones and the cryptographic metadata
//! records involved in a delegation walk, and proves the walk's decision
//! logic: deriving the (parent, child) delegation steps for a target name,
//! selecting a usable nameserver address under an address-family policy,
//! building a zone from a decoded response, and matching delegation-signer
//! records against key-signing keys by key tag and algorithm.
//!
//! Network I/O (the actual DNS queries) lives outside the library; callers
//! hand in decoded responses as plain values.

mod name;
mod querier;
mod records;
mod zone_iterator;

pub use name::DnsName;
pub use querier::{IpFamilyMode, Nameserver, Querier, Trust, Zone};
pub use querier::{ds_records, dnskey_records, into_address, random_address, to_ns};
pub use records::{DnsRecord, DnsResponse, DnskeyRecord, DsRecord, IpAddress, RecordData};
pub use zone_iterator::{iter, ZoneIterator};
