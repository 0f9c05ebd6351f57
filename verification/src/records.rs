//! Plain-value models of the record data a delegation walk reads: IP
//! addresses, delegation-signer (DS) and key-signing (DNSKEY) metadata, and
//! decoded response sections. The key tag of a DNSKEY is computed here as a
//! pure function over the record's wire fields, per the standard sum-based
//! checksum over the encoded key.

use vstd::prelude::*;
use crate::name::DnsName;

verus! {

/// An IP address as a plain value: a 32-bit IPv4 address or a 128-bit IPv6
/// address, in network integer form.
#[derive(Clone, Copy, PartialEq, Eq, Structural, Debug)]
pub enum IpAddress {
    V4(u32),
    V6(u128),
}

/// The mathematical value of a delegation-signer record.
pub ghost struct DsModel {
    pub key_tag: u16,
    pub algorithm: u8,
    pub digest: Seq<u8>,
}

/// A delegation-signer record's metadata as published by a parent zone.
pub struct DsRecord {
    pub key_tag: u16,
    pub algorithm: u8,
    pub digest: Vec<u8>,
}

impl View for DsRecord {
    type V = DsModel;

    open spec fn view(&self) -> DsModel {
        DsModel { key_tag: self.key_tag, algorithm: self.algorithm, digest: self.digest@ }
    }
}

/// The mathematical value of a key-signing record.
pub ghost struct DnskeyModel {
    pub flags: u16,
    pub protocol: u8,
    pub algorithm: u8,
    pub public_key: Seq<u8>,
}

/// A key-signing record's wire fields as published by a child zone.
pub struct DnskeyRecord {
    pub flags: u16,
    pub protocol: u8,
    pub algorithm: u8,
    pub public_key: Vec<u8>,
}

impl View for DnskeyRecord {
    type V = DnskeyModel;

    open spec fn view(&self) -> DnskeyModel {
        DnskeyModel {
            flags: self.flags,
            protocol: self.protocol,
            algorithm: self.algorithm,
            public_key: self.public_key@,
        }
    }
}

/// The decoded data of one resource record, reduced to what the walk reads.
pub enum RecordData {
    Ns(DnsName),
    A(u32),
    Aaaa(u128),
    Ds(DsRecord),
    Dnskey(DnskeyRecord),
    Other,
}

/// One resource record: its owner name and its decoded data.
pub struct DnsRecord {
    pub name: DnsName,
    pub data: RecordData,
}

/// A decoded response: the three ordered record sections.
pub struct DnsResponse {
    pub answers: Vec<DnsRecord>,
    pub name_servers: Vec<DnsRecord>,
    pub additionals: Vec<DnsRecord>,
}

/// The wire encoding of a DNSKEY's record data: flags (two bytes, high byte
/// first), protocol, algorithm, then the key material.
pub open spec fn spec_dnskey_rdata(flags: u16, protocol: u8, algorithm: u8, key: Seq<u8>) -> Seq<u8> {
    seq![(flags / 256) as u8, (flags % 256) as u8, protocol, algorithm] + key
}

/// The checksum accumulator over a byte sequence: bytes at even positions
/// weigh 256, bytes at odd positions weigh 1.
pub open spec fn spec_weighted_sum(bytes: Seq<u8>) -> nat
    decreases bytes.len(),
{
    if bytes.len() == 0 {
        0
    } else {
        spec_weighted_sum(bytes.drop_last()) + (bytes.last() as nat) * (
        if (bytes.len() - 1) % 2 == 0 {
            256nat
        } else {
            1nat
        })
    }
}

/// The key tag of an encoded record: the accumulator plus its own upper
/// half-word, reduced to sixteen bits.
pub open spec fn spec_key_tag(bytes: Seq<u8>) -> u16 {
    (((spec_weighted_sum(bytes) + (spec_weighted_sum(bytes) / 0x10000) % 0x10000)) % 0x10000) as u16
}

/// The derived key tag of a key-signing record.
pub open spec fn spec_dnskey_tag(k: DnskeyModel) -> u16 {
    spec_key_tag(spec_dnskey_rdata(k.flags, k.protocol, k.algorithm, k.public_key))
}

/// Extending the input by one byte grows the accumulator by that byte under
/// its position's weight.
proof fn lemma_weighted_sum_push(bytes: Seq<u8>, b: u8)
    ensures
        spec_weighted_sum(bytes.push(b)) == spec_weighted_sum(bytes) + (b as nat) * (
        if bytes.len() % 2 == 0 {
            256nat
        } else {
            1nat
        }),
{
    assert(bytes.push(b).drop_last() =~= bytes);
    assert(bytes.push(b).last() == b);
}

impl DnskeyRecord {
    /// The record's derived key tag, computed over its wire encoding.
    pub fn calculate_key_tag(&self) -> (r: u16)
        ensures
            r == spec_dnskey_tag(self@),
    {
        let ghost rdata = spec_dnskey_rdata(self.flags, self.protocol, self.algorithm, self.public_key@);
        let mut acc: u128 = 0;
        let b0: u8 = (self.flags / 256) as u8;
        let b1: u8 = (self.flags % 256) as u8;
        proof {
            assert(rdata.take(0) =~= Seq::<u8>::empty());
            lemma_weighted_sum_push(rdata.take(0), b0);
            assert(rdata.take(1) =~= rdata.take(0).push(b0));
            lemma_weighted_sum_push(rdata.take(1), b1);
            assert(rdata.take(2) =~= rdata.take(1).push(b1));
            lemma_weighted_sum_push(rdata.take(2), self.protocol);
            assert(rdata.take(3) =~= rdata.take(2).push(self.protocol));
            lemma_weighted_sum_push(rdata.take(3), self.algorithm);
            assert(rdata.take(4) =~= rdata.take(3).push(self.algorithm));
        }
        acc = (b0 as u128) * 256;
        acc = acc + (b1 as u128);
        acc = acc + (self.protocol as u128) * 256;
        acc = acc + (self.algorithm as u128);
        assert(acc == spec_weighted_sum(rdata.take(4)));
        let mut i: usize = 0;
        while i < self.public_key.len()
            invariant
                0 <= i <= self.public_key.len(),
                rdata == spec_dnskey_rdata(self.flags, self.protocol, self.algorithm, self.public_key@),
                acc == spec_weighted_sum(rdata.take(4 + i)),
                acc <= (4 + i) * 65280,
            decreases self.public_key.len() - i,
        {
            let b = self.public_key[i];
            proof {
                lemma_weighted_sum_push(rdata.take(4 + i), b);
                assert(rdata.take(4 + i + 1) =~= rdata.take(4 + i).push(b));
                assert((4 + i) * 65280 + 65280 == (4 + i + 1) * 65280) by (nonlinear_arith);
                assert((4 + i + 1) * 65280 <= (4 + usize::MAX as nat) * 65280) by (nonlinear_arith)
                    requires i + 1 <= usize::MAX;
            }
            if i % 2 == 0 {
                acc = acc + (b as u128) * 256;
            } else {
                acc = acc + (b as u128);
            }
            i += 1;
        }
        assert(rdata.take(4 + self.public_key.len() as int) =~= rdata);
        let high: u128 = (acc / 0x10000) % 0x10000;
        let tag: u128 = (acc + high) % 0x10000;
        tag as u16
    }
}

} // verus!
