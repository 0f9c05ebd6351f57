//! Zones, nameservers, address-family selection and the delegation-signer
//! trust check.
//!
//! A zone is its name plus the nameservers discovered for it; a nameserver
//! is its name plus zero or more resolved addresses. Address selection is a
//! deterministic first-match scan under a family policy. The trust check
//! matches the delegation-signer records a parent publishes against the
//! key-signing records a child serves, by derived key tag and algorithm.

use vstd::prelude::*;
use crate::name::DnsName;
use crate::records::{DnsRecord, DnsResponse, DnskeyRecord, DsRecord, IpAddress, RecordData};
use crate::records::{spec_dnskey_tag, DnskeyModel, DsModel};

verus! {

/// The address-family policy for picking a nameserver address.
#[derive(Clone, Copy, PartialEq, Eq, Structural, Debug)]
pub enum IpFamilyMode {
    Any,
    Ipv4,
    Ipv6,
}

/// Whether an address is acceptable under a family policy.
pub open spec fn family_matches(a: IpAddress, mode: IpFamilyMode) -> bool {
    match mode {
        IpFamilyMode::Any => true,
        IpFamilyMode::Ipv4 => a is V4,
        IpFamilyMode::Ipv6 => a is V6,
    }
}

/// The mathematical value of a nameserver: its name's labels and its
/// resolved addresses, in order.
pub ghost struct NsModel {
    pub name: Seq<Seq<u8>>,
    pub addrs: Seq<IpAddress>,
}

/// An authoritative nameserver: its name and the addresses resolved for it
/// (possibly none, for a glueless delegation).
pub struct Nameserver {
    name: DnsName,
    addresses: Vec<IpAddress>,
}

impl View for Nameserver {
    type V = NsModel;

    closed spec fn view(&self) -> NsModel {
        NsModel { name: self.name.view(), addrs: self.addresses@ }
    }
}

/// The values of a list of nameservers.
pub open spec fn ns_views(s: Seq<Nameserver>) -> Seq<NsModel> {
    s.map_values(|n: Nameserver| n@)
}

impl Nameserver {
    /// Builds a nameserver entry from its name and resolved addresses.
    pub fn new(name: DnsName, addresses: Vec<IpAddress>) -> (r: Nameserver)
        ensures
            r@.name == name.view(),
            r@.addrs == addresses@,
    {
        Nameserver { name, addresses }
    }

    /// The addresses resolved for this nameserver, in discovery order.
    pub fn addresses(&self) -> (r: Vec<IpAddress>)
        ensures
            r@ == self@.addrs,
    {
        let mut out: Vec<IpAddress> = Vec::new();
        let mut i: usize = 0;
        while i < self.addresses.len()
            invariant
                0 <= i <= self.addresses.len(),
                out@ =~= self@.addrs.subrange(0, i as int),
            decreases self.addresses.len() - i,
        {
            out.push(self.addresses[i]);
            i += 1;
        }
        assert(out@ =~= self@.addrs);
        out
    }

    /// A fresh copy of the entry.
    pub fn duplicate(&self) -> (r: Nameserver)
        ensures
            r@ == self@,
    {
        Nameserver { name: self.name.duplicate(), addresses: self.addresses() }
    }
}

/// The mathematical value of a zone: its name's labels and the values of
/// its nameservers.
pub ghost struct ZoneModel {
    pub name: Seq<Seq<u8>>,
    pub nameservers: Seq<NsModel>,
}

/// A DNS zone: its name and the nameservers discovered for it. A zone with
/// no nameservers is valid but yields no usable address.
pub struct Zone {
    name: DnsName,
    nameservers: Vec<Nameserver>,
}

impl View for Zone {
    type V = ZoneModel;

    closed spec fn view(&self) -> ZoneModel {
        ZoneModel { name: self.name.view(), nameservers: ns_views(self.nameservers@) }
    }
}

impl Zone {
    /// The zone's nameserver entries, in discovery order.
    pub fn nameservers(&self) -> (r: Vec<Nameserver>)
        ensures
            ns_views(r@) == self@.nameservers,
    {
        let mut out: Vec<Nameserver> = Vec::new();
        let mut i: usize = 0;
        while i < self.nameservers.len()
            invariant
                0 <= i <= self.nameservers.len(),
                ns_views(out@) =~= ns_views(self.nameservers@).subrange(0, i as int),
            decreases self.nameservers.len() - i,
        {
            let ghost pre = out@;
            let entry = self.nameservers[i].duplicate();
            out.push(entry);
            proof {
                assert(out@ == pre.push(entry));
                assert(ns_views(out@) =~= ns_views(pre).push(entry@));
                assert(entry@ == ns_views(self.nameservers@)[i as int]);
                assert(ns_views(out@) =~= ns_views(self.nameservers@).subrange(0, i + 1));
            }
            i += 1;
        }
        assert(ns_views(out@) =~= ns_views(self.nameservers@));
        out
    }
}

/// The first address in the list acceptable under the policy, if any.
pub open spec fn first_family_match(addrs: Seq<IpAddress>, mode: IpFamilyMode) -> Option<IpAddress>
    decreases addrs.len(),
{
    if addrs.len() <= 0 {
        None
    } else if family_matches(addrs[0], mode) {
        Some(addrs[0])
    } else {
        first_family_match(addrs.skip(1), mode)
    }
}

/// The first acceptable address over the nameservers in list order, scanning
/// each nameserver's addresses in order.
pub open spec fn spec_select_address(nss: Seq<NsModel>, mode: IpFamilyMode) -> Option<IpAddress>
    decreases nss.len(),
{
    if nss.len() <= 0 {
        None
    } else {
        match first_family_match(nss[0].addrs, mode) {
            Some(a) => Some(a),
            None => spec_select_address(nss.skip(1), mode),
        }
    }
}

/// Picks a nameserver address under the family policy: the first address,
/// in nameserver order then address order, whose family the policy accepts.
/// Despite the name this is a deterministic first-match scan.
pub fn random_address(nameservers: Vec<Nameserver>, mode: IpFamilyMode) -> (r: Option<IpAddress>)
    ensures
        r == spec_select_address(ns_views(nameservers@), mode),
{
    let ghost nssv = ns_views(nameservers@);
    assert(nssv.skip(0) =~= nssv);
    let mut i: usize = 0;
    while i < nameservers.len()
        invariant
            0 <= i <= nameservers.len(),
            nssv == ns_views(nameservers@),
            nssv.len() == nameservers@.len(),
            spec_select_address(nssv, mode) == spec_select_address(nssv.skip(i as int), mode),
        decreases nameservers.len() - i,
    {
        let ns = &nameservers[i];
        assert(ns@ == nssv[i as int]);
        assert(nssv[i as int].addrs.skip(0) =~= nssv[i as int].addrs);
        let mut j: usize = 0;
        while j < ns.addresses.len()
            invariant
                0 <= j <= ns.addresses.len(),
                0 <= i < nameservers.len(),
                nssv == ns_views(nameservers@),
                nssv.len() == nameservers@.len(),
                ns@ == nssv[i as int],
                ns.addresses@ == nssv[i as int].addrs,
                spec_select_address(nssv, mode) == spec_select_address(nssv.skip(i as int), mode),
                first_family_match(nssv[i as int].addrs, mode) == first_family_match(
                    nssv[i as int].addrs.skip(j as int),
                    mode,
                ),
            decreases ns.addresses.len() - j,
        {
            let addr = ns.addresses[j];
            let ghost rest = nssv[i as int].addrs.skip(j as int);
            assert(rest[0] == nssv[i as int].addrs[j as int]);
            let accepted: bool = match mode {
                IpFamilyMode::Any => true,
                IpFamilyMode::Ipv4 => matches!(addr, IpAddress::V4(_)),
                IpFamilyMode::Ipv6 => matches!(addr, IpAddress::V6(_)),
            };
            assert(accepted == family_matches(addr, mode));
            if accepted {
                assert(first_family_match(rest, mode) == Some(addr));
                assert(first_family_match(nssv[i as int].addrs, mode) == Some(addr));
                assert(nssv.skip(i as int)[0] == nssv[i as int]);
                assert(spec_select_address(nssv.skip(i as int), mode) == Some(addr));
                return Some(addr);
            }
            assert(rest.skip(1) =~= nssv[i as int].addrs.skip(j + 1));
            j += 1;
        }
        assert(nssv[i as int].addrs.skip(ns.addresses@.len() as int) =~= Seq::<IpAddress>::empty());
        assert(first_family_match(nssv[i as int].addrs, mode) is None);
        assert(nssv.skip(i as int)[0] == nssv[i as int]);
        assert(nssv.skip(i as int).skip(1) =~= nssv.skip(i + 1));
        i += 1;
    }
    assert(nssv.skip(nameservers@.len() as int) =~= Seq::<NsModel>::empty());
    None
}

/// A match found anywhere in the list is what the scan returns first being
/// absent: the scan is empty exactly when no address is acceptable.
pub proof fn lemma_first_match_none(addrs: Seq<IpAddress>, mode: IpFamilyMode)
    ensures
        (first_family_match(addrs, mode) is None) <==> (forall|k: int|
            0 <= k < addrs.len() ==> !family_matches(#[trigger] addrs[k], mode)),
    decreases addrs.len(),
{
    if addrs.len() > 0 {
        lemma_first_match_none(addrs.skip(1), mode);
        assert(forall|k: int|
            0 <= k < addrs.skip(1).len() ==> #[trigger] addrs.skip(1)[k] == addrs[k + 1]);
        if !family_matches(addrs[0], mode) {
            if first_family_match(addrs.skip(1), mode) is None {
                assert(forall|k: int|
                    1 <= k < addrs.len() ==> !family_matches(#[trigger] addrs[k], mode)) by {
                    assert(forall|k: int|
                        1 <= k < addrs.len() ==> #[trigger] addrs[k] == addrs.skip(1)[k - 1]);
                }
            } else {
                assert(exists|k: int|
                    0 <= k < addrs.skip(1).len() && family_matches(
                        #[trigger] addrs.skip(1)[k],
                        mode,
                    ));
                let k = choose|k: int|
                    0 <= k < addrs.skip(1).len() && family_matches(
                        #[trigger] addrs.skip(1)[k],
                        mode,
                    );
                assert(family_matches(addrs[k + 1], mode));
            }
        }
    }
}

/// Selection over a nameserver list is empty exactly when no nameserver
/// holds an acceptable address.
pub proof fn lemma_select_address_none(nss: Seq<NsModel>, mode: IpFamilyMode)
    ensures
        (spec_select_address(nss, mode) is None) <==> (forall|i: int, k: int|
            0 <= i < nss.len() && 0 <= k < (#[trigger] nss[i].addrs).len()
                ==> !family_matches(#[trigger] nss[i].addrs[k], mode)),
    decreases nss.len(),
{
    if nss.len() > 0 {
        lemma_select_address_none(nss.skip(1), mode);
        lemma_first_match_none(nss[0].addrs, mode);
        assert(forall|i: int|
            0 <= i < nss.skip(1).len() ==> #[trigger] nss.skip(1)[i] == nss[i + 1]);
        if spec_select_address(nss, mode) is None {
            assert forall|i: int, k: int|
                0 <= i < nss.len() && 0 <= k < (#[trigger] nss[i].addrs).len() implies !family_matches(
                #[trigger] nss[i].addrs[k],
                mode,
            ) by {
                if i == 0 {
                } else {
                    assert(nss.skip(1)[i - 1] == nss[i]);
                }
            }
        } else {
            if first_family_match(nss[0].addrs, mode) is None {
                assert(!(spec_select_address(nss.skip(1), mode) is None));
                let (i, k) = choose|i: int, k: int|
                    0 <= i < nss.skip(1).len() && 0 <= k < (#[trigger] nss.skip(1)[i].addrs).len()
                        && family_matches(#[trigger] nss.skip(1)[i].addrs[k], mode);
                assert(nss.skip(1)[i] == nss[i + 1]);
                assert(family_matches(nss[i + 1].addrs[k], mode));
            }
        }
    }
}

/// Address selection is a pure function of the nameserver list and the
/// family mode: identical inputs always yield the identical result.
pub proof fn lemma_select_address_deterministic(
    a: Seq<NsModel>,
    b: Seq<NsModel>,
    mode: IpFamilyMode,
)
    requires
        a == b,
    ensures
        spec_select_address(a, mode) == spec_select_address(b, mode),
{
}

/// Under the IPv4-only policy a list holding only IPv6 addresses yields
/// nothing.
pub proof fn lemma_select_address_ipv4_only_v6(nss: Seq<NsModel>)
    requires
        forall|i: int, k: int|
            0 <= i < nss.len() && 0 <= k < (#[trigger] nss[i].addrs).len()
                ==> (#[trigger] nss[i].addrs[k]) is V6,
    ensures
        spec_select_address(nss, IpFamilyMode::Ipv4) is None,
{
    lemma_select_address_none(nss, IpFamilyMode::Ipv4);
}

/// The address carried by an address record, if it is one.
pub open spec fn spec_record_address(r: DnsRecord) -> Option<IpAddress> {
    match r.data {
        RecordData::A(a) => Some(IpAddress::V4(a)),
        RecordData::Aaaa(a) => Some(IpAddress::V6(a)),
        _ => None,
    }
}

/// The address carried by a record, when the record is an address record.
pub fn into_address(record: &DnsRecord) -> (r: Option<IpAddress>)
    ensures
        r == spec_record_address(*record),
{
    match &record.data {
        RecordData::A(a) => Some(IpAddress::V4(*a)),
        RecordData::Aaaa(a) => Some(IpAddress::V6(*a)),
        _ => None,
    }
}

/// The glue addresses for a nameserver name: the addresses of the address
/// records among `adds` owned by that name, in section order.
pub open spec fn spec_glue(adds: Seq<DnsRecord>, ns: Seq<Seq<u8>>) -> Seq<IpAddress>
    decreases adds.len(),
{
    if adds.len() == 0 {
        Seq::empty()
    } else {
        spec_glue(adds.drop_last(), ns) + (if adds.last().name.view() == ns
            && spec_record_address(adds.last()) is Some {
            seq![spec_record_address(adds.last()).unwrap()]
        } else {
            Seq::<IpAddress>::empty()
        })
    }
}

/// Whether an entry for this nameserver name is already present.
pub open spec fn spec_has_entry(nss: Seq<NsModel>, name: Seq<Seq<u8>>) -> bool {
    exists|k: int| 0 <= k < nss.len() && (#[trigger] nss[k]).name == name
}

/// The nameserver entries named by the NS records among `records`, in
/// order, each with its glue addresses from `adds`: one entry per distinct
/// NS record, a later record with an already-seen target name adding
/// nothing.
pub open spec fn spec_to_ns(records: Seq<DnsRecord>, adds: Seq<DnsRecord>) -> Seq<NsModel>
    decreases records.len(),
{
    if records.len() == 0 {
        Seq::empty()
    } else {
        let prev = spec_to_ns(records.drop_last(), adds);
        match records.last().data {
            RecordData::Ns(n) => if spec_has_entry(prev, n@) {
                prev
            } else {
                prev.push(NsModel { name: n@, addrs: spec_glue(adds, n@) })
            },
            _ => prev,
        }
    }
}

/// Collects the glue addresses for one nameserver name from the additional
/// section.
fn glue_addresses(additionals: &Vec<DnsRecord>, ns: &DnsName) -> (r: Vec<IpAddress>)
    ensures
        r@ == spec_glue(additionals@, ns.view()),
{
    let mut out: Vec<IpAddress> = Vec::new();
    let mut i: usize = 0;
    while i < additionals.len()
        invariant
            0 <= i <= additionals.len(),
            out@ =~= spec_glue(additionals@.take(i as int), ns.view()),
        decreases additionals.len() - i,
    {
        let record = &additionals[i];
        proof {
            assert(additionals@.take(i + 1).drop_last() =~= additionals@.take(i as int));
            assert(additionals@.take(i + 1).last() == additionals@[i as int]);
        }
        if record.name.same_name(ns) {
            match into_address(record) {
                Some(a) => {
                    out.push(a);
                },
                None => {},
            }
        }
        assert(out@ =~= spec_glue(additionals@.take(i + 1), ns.view()));
        i += 1;
    }
    assert(additionals@.take(additionals@.len() as int) =~= additionals@);
    out
}

/// Whether the list already holds an entry for this nameserver name.
fn has_ns_entry(out: &Vec<Nameserver>, n: &DnsName) -> (r: bool)
    ensures
        r == spec_has_entry(ns_views(out@), n@),
{
    let mut i: usize = 0;
    while i < out.len()
        invariant
            0 <= i <= out.len(),
            forall|k: int| 0 <= k < i ==> (#[trigger] ns_views(out@)[k]).name != n@,
        decreases out.len() - i,
    {
        if out[i].name.same_name(n) {
            assert(ns_views(out@)[i as int].name == n@);
            return true;
        }
        assert(ns_views(out@)[i as int].name != n@);
        i += 1;
    }
    false
}

/// Appends the nameserver entries found in one record section, continuing a
/// scan whose earlier records are `prefix`; an NS record whose target
/// already has an entry adds nothing.
fn collect_ns(
    records: &Vec<DnsRecord>,
    additionals: &Vec<DnsRecord>,
    out: &mut Vec<Nameserver>,
    Ghost(prefix): Ghost<Seq<DnsRecord>>,
)
    requires
        ns_views(old(out)@) == spec_to_ns(prefix, additionals@),
    ensures
        ns_views(final(out)@) == spec_to_ns(prefix + records@, additionals@),
{
    let mut i: usize = 0;
    while i < records.len()
        invariant
            0 <= i <= records.len(),
            ns_views(out@) =~= spec_to_ns(prefix + records@.take(i as int), additionals@),
        decreases records.len() - i,
    {
        let record = &records[i];
        proof {
            assert((prefix + records@.take(i + 1)).drop_last() =~= prefix + records@.take(
                i as int,
            ));
            assert((prefix + records@.take(i + 1)).last() == records@[i as int]);
        }
        let ghost pre = out@;
        match &record.data {
            RecordData::Ns(n) => {
                if !has_ns_entry(out, n) {
                    let addrs = glue_addresses(additionals, n);
                    let entry = Nameserver { name: n.duplicate(), addresses: addrs };
                    out.push(entry);
                    proof {
                        assert(out@ == pre.push(entry));
                        assert(ns_views(out@) =~= ns_views(pre).push(entry@));
                        assert(entry@ == NsModel { name: n@, addrs: spec_glue(additionals@, n@) });
                    }
                }
                assert(ns_views(out@) =~= spec_to_ns(
                    prefix + records@.take(i + 1),
                    additionals@,
                ));
            },
            _ => {
                assert(ns_views(out@) =~= spec_to_ns(
                    prefix + records@.take(i + 1),
                    additionals@,
                ));
            },
        }
        i += 1;
    }
    assert(prefix + records@.take(records@.len() as int) =~= prefix + records@);
}

/// Builds the nameserver list of a zone from a decoded response: one entry
/// per distinct NS record in the answer section followed by the authority
/// section, each with the glue addresses from the additional section owned
/// by the nameserver's name.
pub fn to_ns(response: &DnsResponse) -> (r: Vec<Nameserver>)
    ensures
        ns_views(r@) == spec_to_ns(
            response.answers@ + response.name_servers@,
            response.additionals@,
        ),
{
    let mut out: Vec<Nameserver> = Vec::new();
    proof {
        assert(ns_views(Seq::<Nameserver>::empty()) =~= Seq::<NsModel>::empty());
    }
    collect_ns(&response.answers, &response.additionals, &mut out, Ghost(Seq::empty()));
    proof {
        assert(Seq::<DnsRecord>::empty() + response.answers@ =~= response.answers@);
    }
    collect_ns(&response.name_servers, &response.additionals, &mut out, Ghost(response.answers@));
    out
}

/// The outcome of the trust check for one delegation step.
pub enum Trust {
    Trusted,
    Untrusted(String),
}

/// The values of a list of delegation-signer records.
pub open spec fn ds_views(s: Seq<DsRecord>) -> Seq<DsModel> {
    s.map_values(|d: DsRecord| d@)
}

/// The values of a list of key-signing records.
pub open spec fn key_views(s: Seq<DnskeyRecord>) -> Seq<DnskeyModel> {
    s.map_values(|k: DnskeyRecord| k@)
}

/// The delegation-signer records among a response's answers, in order.
pub open spec fn spec_ds_records(answers: Seq<DnsRecord>) -> Seq<DsModel>
    decreases answers.len(),
{
    if answers.len() == 0 {
        Seq::empty()
    } else {
        spec_ds_records(answers.drop_last()) + (match answers.last().data {
            RecordData::Ds(d) => seq![d@],
            _ => Seq::<DsModel>::empty(),
        })
    }
}

/// The key-signing records among a response's answers, in order.
pub open spec fn spec_dnskey_records(answers: Seq<DnsRecord>) -> Seq<DnskeyModel>
    decreases answers.len(),
{
    if answers.len() == 0 {
        Seq::empty()
    } else {
        spec_dnskey_records(answers.drop_last()) + (match answers.last().data {
            RecordData::Dnskey(k) => seq![k@],
            _ => Seq::<DnskeyModel>::empty(),
        })
    }
}

/// A fresh copy of a byte vector.
fn clone_bytes(a: &Vec<u8>) -> (r: Vec<u8>)
    ensures
        r@ == a@,
{
    let mut out: Vec<u8> = Vec::new();
    let mut i: usize = 0;
    while i < a.len()
        invariant
            0 <= i <= a.len(),
            out@ =~= a@.subrange(0, i as int),
        decreases a.len() - i,
    {
        out.push(a[i]);
        i += 1;
    }
    assert(out@ =~= a@);
    out
}

/// Extracts the delegation-signer records from a response's answer section.
pub fn ds_records(response: &DnsResponse) -> (r: Vec<DsRecord>)
    ensures
        ds_views(r@) == spec_ds_records(response.answers@),
{
    let mut out: Vec<DsRecord> = Vec::new();
    let mut i: usize = 0;
    while i < response.answers.len()
        invariant
            0 <= i <= response.answers.len(),
            ds_views(out@) =~= spec_ds_records(response.answers@.take(i as int)),
        decreases response.answers.len() - i,
    {
        proof {
            assert(response.answers@.take(i + 1).drop_last() =~= response.answers@.take(i as int));
            assert(response.answers@.take(i + 1).last() == response.answers@[i as int]);
        }
        let ghost pre = out@;
        match &response.answers[i].data {
            RecordData::Ds(d) => {
                let copy = DsRecord {
                    key_tag: d.key_tag,
                    algorithm: d.algorithm,
                    digest: clone_bytes(&d.digest),
                };
                assert(copy@ == (response.answers@[i as int].data->Ds_0)@);
                out.push(copy);
                proof {
                    assert(out@ == pre.push(copy));
                    assert(ds_views(out@) =~= ds_views(pre).push(copy@));
                }
            },
            _ => {},
        }
        assert(ds_views(out@) =~= spec_ds_records(response.answers@.take(i + 1)));
        i += 1;
    }
    assert(response.answers@.take(response.answers@.len() as int) =~= response.answers@);
    out
}

/// Extracts the key-signing records from a response's answer section.
pub fn dnskey_records(response: &DnsResponse) -> (r: Vec<DnskeyRecord>)
    ensures
        key_views(r@) == spec_dnskey_records(response.answers@),
{
    let mut out: Vec<DnskeyRecord> = Vec::new();
    let mut i: usize = 0;
    while i < response.answers.len()
        invariant
            0 <= i <= response.answers.len(),
            key_views(out@) =~= spec_dnskey_records(response.answers@.take(i as int)),
        decreases response.answers.len() - i,
    {
        proof {
            assert(response.answers@.take(i + 1).drop_last() =~= response.answers@.take(i as int));
            assert(response.answers@.take(i + 1).last() == response.answers@[i as int]);
        }
        let ghost pre = out@;
        match &response.answers[i].data {
            RecordData::Dnskey(k) => {
                let copy = DnskeyRecord {
                    flags: k.flags,
                    protocol: k.protocol,
                    algorithm: k.algorithm,
                    public_key: clone_bytes(&k.public_key),
                };
                assert(copy@ == (response.answers@[i as int].data->Dnskey_0)@);
                out.push(copy);
                proof {
                    assert(out@ == pre.push(copy));
                    assert(key_views(out@) =~= key_views(pre).push(copy@));
                }
            },
            _ => {},
        }
        assert(key_views(out@) =~= spec_dnskey_records(response.answers@.take(i + 1)));
        i += 1;
    }
    assert(response.answers@.take(response.answers@.len() as int) =~= response.answers@);
    out
}

/// Whether some delegation-signer record and some key-signing record agree
/// on key tag and algorithm.
pub open spec fn spec_trust_match(ds: Seq<DsModel>, keys: Seq<DnskeyModel>) -> bool {
    exists|i: int, j: int|
        0 <= i < ds.len() && 0 <= j < keys.len() && (#[trigger] ds[i]).key_tag == spec_dnskey_tag(
            #[trigger] keys[j],
        ) && ds[i].algorithm == keys[j].algorithm
}

/// The walk driver: holds the address-family policy and carries the
/// per-step decision logic of the delegation walk.
pub struct Querier {
    af_mode: IpFamilyMode,
}

impl Querier {
    /// The policy this driver selects addresses under.
    pub closed spec fn spec_af_mode(self) -> IpFamilyMode {
        self.af_mode
    }

    pub fn new(af_mode: IpFamilyMode) -> (q: Querier)
        ensures
            q.spec_af_mode() == af_mode,
    {
        Querier { af_mode }
    }

    /// Builds the zone for `name` from the decoded response to a
    /// nameserver-record query: one nameserver entry per distinct NS record
    /// in the answer and authority sections, with glue from the additional
    /// section.
    pub fn query_zone(&self, name: DnsName, response: &DnsResponse) -> (z: Zone)
        ensures
            z@.name == name.view(),
            z@.nameservers == spec_to_ns(
                response.answers@ + response.name_servers@,
                response.additionals@,
            ),
    {
        let nameservers = to_ns(response);
        Zone { name, nameservers }
    }

    /// Picks the address of the last known zone's nameserver to resolve the
    /// next child zone against; a zone with no acceptable address makes the
    /// step fail.
    pub fn begin_hop(&self, last_zone: &Zone) -> (r: Result<IpAddress, String>)
        ensures
            match r {
                Ok(a) => spec_select_address(last_zone@.nameservers, self.spec_af_mode())
                    == Some(a),
                Err(e) => spec_select_address(last_zone@.nameservers, self.spec_af_mode()) is None
                    && e@ == "no usable address found for nameserver"@,
            },
    {
        match random_address(last_zone.nameservers(), self.af_mode) {
            Some(a) => Ok(a),
            None => Err("no usable address found for nameserver".to_owned()),
        }
    }

    /// Picks the address of one of a zone's nameservers for a trust-check
    /// query (delegation-signer records from the parent, key-signing records
    /// from the child); a zone with no acceptable address fails the check.
    pub fn trust_server_address(&self, zone: &Zone) -> (r: Result<IpAddress, String>)
        ensures
            match r {
                Ok(a) => spec_select_address(zone@.nameservers, self.spec_af_mode()) == Some(a),
                Err(e) => spec_select_address(zone@.nameservers, self.spec_af_mode()) is None
                    && e@ == "no name server address found"@,
            },
    {
        match random_address(zone.nameservers(), self.af_mode) {
            Some(a) => Ok(a),
            None => Err("no name server address found".to_owned()),
        }
    }

    /// The trust verdict for one delegation step: trusted exactly when some
    /// delegation-signer record of the parent and some key-signing record of
    /// the child agree on key tag and algorithm; untrusted, with reason
    /// "missing DS", when none do or no delegation-signer record exists.
    pub fn query_trust(&self, ds_records: &Vec<DsRecord>, dnskey_records: &Vec<DnskeyRecord>) -> (r:
        Trust)
        ensures
            (r is Trusted) <==> spec_trust_match(ds_views(ds_records@), key_views(dnskey_records@)),
            match r {
                Trust::Trusted => true,
                Trust::Untrusted(reason) => reason@ == "missing DS"@,
            },
    {
        let ghost dsv = ds_views(ds_records@);
        let ghost kv = key_views(dnskey_records@);
        let mut i: usize = 0;
        while i < ds_records.len()
            invariant
                0 <= i <= ds_records.len(),
                dsv == ds_views(ds_records@),
                kv == key_views(dnskey_records@),
                dsv.len() == ds_records@.len(),
                kv.len() == dnskey_records@.len(),
                forall|a: int, b: int|
                    0 <= a < i && 0 <= b < kv.len() ==> !((#[trigger] dsv[a]).key_tag
                        == spec_dnskey_tag(#[trigger] kv[b]) && dsv[a].algorithm
                        == kv[b].algorithm),
            decreases ds_records.len() - i,
        {
            let mut j: usize = 0;
            while j < dnskey_records.len()
                invariant
                    0 <= i < ds_records.len(),
                    0 <= j <= dnskey_records.len(),
                    dsv == ds_views(ds_records@),
                    kv == key_views(dnskey_records@),
                    dsv.len() == ds_records@.len(),
                    kv.len() == dnskey_records@.len(),
                    forall|a: int, b: int|
                        0 <= a < i && 0 <= b < kv.len() ==> !((#[trigger] dsv[a]).key_tag
                            == spec_dnskey_tag(#[trigger] kv[b]) && dsv[a].algorithm
                            == kv[b].algorithm),
                    forall|b: int|
                        0 <= b < j ==> !(dsv[i as int].key_tag == spec_dnskey_tag(#[trigger] kv[b])
                            && dsv[i as int].algorithm == kv[b].algorithm),
                decreases dnskey_records.len() - j,
            {
                let tag = dnskey_records[j].calculate_key_tag();
                if ds_records[i].key_tag == tag
                    && ds_records[i].algorithm == dnskey_records[j].algorithm {
                    assert(dsv[i as int].key_tag == spec_dnskey_tag(kv[j as int])
                        && dsv[i as int].algorithm == kv[j as int].algorithm);
                    assert(spec_trust_match(dsv, kv));
                    return Trust::Trusted;
                }
                assert(dnskey_records@[j as int]@ == kv[j as int]);
                j += 1;
            }
            i += 1;
        }
        assert(!spec_trust_match(dsv, kv));
        Trust::Untrusted("missing DS".to_owned())
    }
}

} // verus!
