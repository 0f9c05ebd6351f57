use dnssec_walk::{
    ds_records, dnskey_records, iter, random_address, DnsName, DnsRecord, DnsResponse,
    DnskeyRecord, DsRecord, IpAddress, IpFamilyMode, Nameserver, Querier, RecordData, Trust,
};

fn name(labels: &[&str]) -> DnsName {
    let raw: Vec<Vec<u8>> = labels.iter().map(|l| l.as_bytes().to_vec()).collect();
    DnsName::new(raw).expect("well-formed name")
}

fn v4(a: u8, b: u8, c: u8, d: u8) -> IpAddress {
    IpAddress::V4(u32::from_be_bytes([a, b, c, d]))
}

fn empty_response() -> DnsResponse {
    DnsResponse { answers: Vec::new(), name_servers: Vec::new(), additionals: Vec::new() }
}

#[test]
fn test_iter_root() {
    let iter = iter(DnsName::root(), DnsName::root());
    let _ = iter;
}

#[test]
fn test_iter_path_pairs() {
    let target = name(&["child", "example"]);
    let origin = DnsName::root();
    let mut it = iter(target, origin);

    let (p0, c0) = it.next().expect("first pair");
    assert!(p0.same_name(&DnsName::root()));
    assert!(c0.same_name(&name(&["example"])));

    let (p1, c1) = it.next().expect("second pair");
    assert!(p1.same_name(&name(&["example"])));
    assert!(c1.same_name(&name(&["child", "example"])));

    assert!(it.next().is_none());
}

#[test]
fn test_iter_target_equals_origin() {
    let target = name(&["child", "example"]);
    let origin = name(&["child", "example"]);
    let mut it = iter(target, origin);
    assert!(it.next().is_none());
}

#[test]
fn test_iter_counts_labels_from_origin() {
    let target = name(&["a", "b", "c", "d"]);
    let origin = name(&["c", "d"]);
    let mut it = iter(target, origin);
    let mut steps: usize = 0;
    while let Some((parent, child)) = it.next() {
        let _ = parent;
        let _ = child;
        steps += 1;
    }
    assert_eq!(steps, 2);
}

#[test]
fn test_name_rejects_labels_outside_limits() {
    let oversized = vec![vec![b'x'; 64]];
    assert!(DnsName::new(oversized).is_none());
    let empty_label = vec![Vec::new()];
    assert!(DnsName::new(empty_label).is_none());
    let fine = vec![vec![b'x'; 63]];
    assert!(DnsName::new(fine).is_some());
}

#[test]
fn test_random_address_first_match_deterministic() {
    let ns1 = Nameserver::new(name(&["ns1", "example"]), Vec::new());
    let v6_addr = IpAddress::V6(u128::from_be_bytes([
        0x20, 0x01, 0x0d, 0xb8, 0, 0, 0, 0, 0, 0, 0, 0, 0, 0, 0, 1,
    ]));
    let ns2 = Nameserver::new(name(&["ns2", "example"]), vec![v6_addr, v4(192, 0, 2, 1)]);

    let first = random_address(vec![ns1.duplicate(), ns2.duplicate()], IpFamilyMode::Any);
    let second = random_address(vec![ns1.duplicate(), ns2.duplicate()], IpFamilyMode::Any);
    assert_eq!(first, second);
    assert_eq!(first, Some(v6_addr));

    let v4_only = random_address(vec![ns1, ns2], IpFamilyMode::Ipv4);
    assert_eq!(v4_only, Some(v4(192, 0, 2, 1)));
}

#[test]
fn test_random_address_ipv4_mode_skips_v6() {
    let v6_addr = IpAddress::V6(u128::from_be_bytes([
        0x20, 0x01, 0x0d, 0xb8, 0, 0, 0, 0, 0, 0, 0, 0, 0, 0, 0, 2,
    ]));
    let ns = Nameserver::new(name(&["ns1", "example"]), vec![v6_addr]);
    let picked = random_address(vec![ns], IpFamilyMode::Ipv4);
    assert_eq!(picked, None);
}

#[test]
fn test_key_tag_checksum_vectors() {
    let zeroes = DnskeyRecord { flags: 0, protocol: 0, algorithm: 0, public_key: Vec::new() };
    assert_eq!(zeroes.calculate_key_tag(), 0);

    let ones = DnskeyRecord { flags: 0xffff, protocol: 0xff, algorithm: 0xff, public_key: Vec::new() };
    assert_eq!(ones.calculate_key_tag(), 0xffff);

    let text = DnskeyRecord {
        flags: 0,
        protocol: 0,
        algorithm: 0,
        public_key: b"The quick brown fox jumps over the lazy dog".to_vec(),
    };
    assert_eq!(text.calculate_key_tag(), 0x8d5b);
}

fn matching_dnskey() -> DnskeyRecord {
    // Flags 257, protocol 3, algorithm 8 and this key sum to tag 12345.
    DnskeyRecord { flags: 257, protocol: 3, algorithm: 8, public_key: vec![44, 48] }
}

#[test]
fn test_query_trust_match_is_trusted() {
    let querier = Querier::new(IpFamilyMode::Any);
    let dnskey = matching_dnskey();
    assert_eq!(dnskey.calculate_key_tag(), 12345);
    let ds = DsRecord { key_tag: 12345, algorithm: 8, digest: vec![0xde, 0xad] };
    let verdict = querier.query_trust(&vec![ds], &vec![dnskey]);
    assert!(matches!(verdict, Trust::Trusted));
}

#[test]
fn test_query_trust_empty_ds_is_missing() {
    let querier = Querier::new(IpFamilyMode::Any);
    let verdict = querier.query_trust(&Vec::new(), &vec![matching_dnskey()]);
    match verdict {
        Trust::Untrusted(reason) => assert_eq!(reason, "missing DS"),
        Trust::Trusted => panic!("empty DS set must not be trusted"),
    }
}

#[test]
fn test_query_trust_algorithm_mismatch_is_missing() {
    let querier = Querier::new(IpFamilyMode::Any);
    let ds = DsRecord { key_tag: 12345, algorithm: 13, digest: Vec::new() };
    let verdict = querier.query_trust(&vec![ds], &vec![matching_dnskey()]);
    match verdict {
        Trust::Untrusted(reason) => assert_eq!(reason, "missing DS"),
        Trust::Trusted => panic!("algorithm mismatch must not be trusted"),
    }
}

#[test]
fn test_query_trust_tag_mismatch_is_missing() {
    let querier = Querier::new(IpFamilyMode::Any);
    let ds = DsRecord { key_tag: 12346, algorithm: 8, digest: Vec::new() };
    let verdict = querier.query_trust(&vec![ds], &vec![matching_dnskey()]);
    match verdict {
        Trust::Untrusted(reason) => assert_eq!(reason, "missing DS"),
        Trust::Trusted => panic!("tag mismatch must not be trusted"),
    }
}

#[test]
fn test_query_zone_collects_glue_per_nameserver() {
    let v6_addr = IpAddress::V6(u128::from_be_bytes([
        0x20, 0x01, 0x0d, 0xb8, 0, 0, 0, 0, 0, 0, 0, 0, 0, 0, 0, 1,
    ]));
    let response = DnsResponse {
        answers: vec![
            DnsRecord {
                name: name(&["example"]),
                data: RecordData::Ns(name(&["ns1", "example"])),
            },
            DnsRecord {
                name: name(&["example"]),
                data: RecordData::Ns(name(&["ns2", "example"])),
            },
        ],
        name_servers: Vec::new(),
        additionals: vec![
            DnsRecord {
                name: name(&["ns1", "example"]),
                data: RecordData::A(u32::from_be_bytes([192, 0, 2, 1])),
            },
            DnsRecord {
                name: name(&["ns2", "example"]),
                data: match v6_addr {
                    IpAddress::V6(raw) => RecordData::Aaaa(raw),
                    IpAddress::V4(_) => unreachable!(),
                },
            },
        ],
    };
    let querier = Querier::new(IpFamilyMode::Any);
    let zone = querier.query_zone(name(&["example"]), &response);
    let nameservers = zone.nameservers();
    assert_eq!(nameservers.len(), 2);
    assert_eq!(nameservers[0].addresses(), vec![v4(192, 0, 2, 1)]);
    assert_eq!(nameservers[1].addresses(), vec![v6_addr]);
}

#[test]
fn test_query_zone_deduplicates_ns_records() {
    // The same NS record appears in both the answer and the authority
    // section; the zone holds one entry for it.
    let response = DnsResponse {
        answers: vec![DnsRecord {
            name: name(&["example"]),
            data: RecordData::Ns(name(&["ns1", "example"])),
        }],
        name_servers: vec![
            DnsRecord {
                name: name(&["example"]),
                data: RecordData::Ns(name(&["ns1", "example"])),
            },
            DnsRecord {
                name: name(&["example"]),
                data: RecordData::Ns(name(&["ns2", "example"])),
            },
        ],
        additionals: vec![DnsRecord {
            name: name(&["ns1", "example"]),
            data: RecordData::A(u32::from_be_bytes([192, 0, 2, 1])),
        }],
    };
    let querier = Querier::new(IpFamilyMode::Any);
    let zone = querier.query_zone(name(&["example"]), &response);
    let nameservers = zone.nameservers();
    assert_eq!(nameservers.len(), 2);
    assert_eq!(nameservers[0].addresses(), vec![v4(192, 0, 2, 1)]);
    assert_eq!(nameservers[1].addresses(), Vec::new());
}

#[test]
fn test_end_to_end_two_hops() {
    let querier = Querier::new(IpFamilyMode::Any);

    // Root resolution: zone `.` with one nameserver at 192.36.148.17.
    let root_response = DnsResponse {
        answers: vec![DnsRecord {
            name: DnsName::root(),
            data: RecordData::Ns(name(&["i", "root-servers", "net"])),
        }],
        name_servers: Vec::new(),
        additionals: vec![DnsRecord {
            name: name(&["i", "root-servers", "net"]),
            data: RecordData::A(u32::from_be_bytes([192, 36, 148, 17])),
        }],
    };
    let root_zone = querier.query_zone(DnsName::root(), &root_response);

    let mut it = iter(name(&["child", "example"]), DnsName::root());

    // Hop 1: resolve `example.` via the root server's address.
    let (_parent1, child1) = it.next().expect("first hop");
    let hop1_addr = querier.begin_hop(&root_zone).expect("root has an address");
    assert_eq!(hop1_addr, v4(192, 36, 148, 17));
    let example_response = DnsResponse {
        answers: vec![DnsRecord {
            name: child1.duplicate(),
            data: RecordData::Ns(name(&["ns", "example"])),
        }],
        name_servers: Vec::new(),
        additionals: vec![DnsRecord {
            name: name(&["ns", "example"]),
            data: RecordData::A(u32::from_be_bytes([192, 0, 2, 53])),
        }],
    };
    let example_zone = querier.query_zone(child1, &example_response);

    // Hop 2: resolve `child.example.` via 192.0.2.53.
    let (parent2, child2) = it.next().expect("second hop");
    assert!(parent2.same_name(&name(&["example"])));
    assert!(child2.same_name(&name(&["child", "example"])));
    let hop2_addr = querier.begin_hop(&example_zone).expect("example has an address");
    assert_eq!(hop2_addr, v4(192, 0, 2, 53));
    let child_response = DnsResponse {
        answers: vec![DnsRecord {
            name: child2.duplicate(),
            data: RecordData::Ns(name(&["ns", "child", "example"])),
        }],
        name_servers: Vec::new(),
        additionals: vec![DnsRecord {
            name: name(&["ns", "child", "example"]),
            data: RecordData::A(u32::from_be_bytes([192, 0, 2, 99])),
        }],
    };
    let child_zone = querier.query_zone(child2.duplicate(), &child_response);

    // Trust check for hop 2: DS from the parent's server, DNSKEY from the
    // child's server.
    let parent_addr = querier.trust_server_address(&example_zone).expect("parent address");
    assert_eq!(parent_addr, v4(192, 0, 2, 53));
    let ds_response = DnsResponse {
        answers: vec![DnsRecord {
            name: child2.duplicate(),
            data: RecordData::Ds(DsRecord { key_tag: 12345, algorithm: 8, digest: vec![1, 2] }),
        }],
        name_servers: Vec::new(),
        additionals: Vec::new(),
    };
    let ds = ds_records(&ds_response);
    let child_addr = querier.trust_server_address(&child_zone).expect("child address");
    assert_eq!(child_addr, v4(192, 0, 2, 99));
    let dnskey_response = DnsResponse {
        answers: vec![DnsRecord { name: child2, data: RecordData::Dnskey(matching_dnskey()) }],
        name_servers: Vec::new(),
        additionals: Vec::new(),
    };
    let keys = dnskey_records(&dnskey_response);

    let verdict = querier.query_trust(&ds, &keys);
    assert!(matches!(verdict, Trust::Trusted));

    // The same hop with a non-matching DS tag is a missing-DS verdict.
    let bad_ds = vec![DsRecord { key_tag: 11111, algorithm: 8, digest: Vec::new() }];
    match querier.query_trust(&bad_ds, &keys) {
        Trust::Untrusted(reason) => assert_eq!(reason, "missing DS"),
        Trust::Trusted => panic!("mismatched DS must not be trusted"),
    }
}

#[test]
fn test_no_glue_delegation_reports_error_and_walk_continues() {
    let querier = Querier::new(IpFamilyMode::Any);
    // A delegation whose only nameserver has no resolved address.
    let glueless = DnsResponse {
        answers: vec![DnsRecord {
            name: name(&["example"]),
            data: RecordData::Ns(name(&["ns", "example"])),
        }],
        name_servers: Vec::new(),
        additionals: Vec::new(),
    };
    let zone = querier.query_zone(name(&["example"]), &glueless);

    let first = querier.begin_hop(&zone);
    assert_eq!(first.unwrap_err(), "no usable address found for nameserver");

    // The walk goes on: the next hop asks again and fails the same way
    // instead of crashing.
    let second = querier.begin_hop(&zone);
    assert_eq!(second.unwrap_err(), "no usable address found for nameserver");

    let trust_side = querier.trust_server_address(&zone);
    assert_eq!(trust_side.unwrap_err(), "no name server address found");
}

#[test]
fn test_dnskey_extraction_ignores_other_records() {
    let response = DnsResponse {
        answers: vec![
            DnsRecord { name: name(&["example"]), data: RecordData::A(1) },
            DnsRecord { name: name(&["example"]), data: RecordData::Dnskey(matching_dnskey()) },
        ],
        name_servers: Vec::new(),
        additionals: Vec::new(),
    };
    let keys = dnskey_records(&response);
    assert_eq!(keys.len(), 1);
    assert_eq!(keys[0].calculate_key_tag(), 12345);

    let ds = ds_records(&response);
    assert_eq!(ds.len(), 0);
}
