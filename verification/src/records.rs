//! The configuration that a DNS server is given: generations of zones, each a
//! list of names with their resource records.

use crate::addr::Ipv6Addr;
use vstd::prelude::*;
use vstd::string::*;

verus! {

/// A point in time: seconds and nanoseconds since the Unix epoch.
#[derive(Clone, Copy, Debug, PartialEq, Eq)]
pub struct Timestamp {
    pub secs: i64,
    pub nanos: u32,
}

/// A service record: where one backend of a service is found.
#[derive(Clone, Debug, PartialEq, Eq)]
pub struct Srv {
    pub prio: u16,
    pub weight: u16,
    pub port: u16,
    pub target: String,
}

/// A resource record under a DNS name.
#[derive(Clone, Debug, PartialEq, Eq)]
pub enum DnsRecord {
    /// The IPv6 address of a host.
    Aaaa(Ipv6Addr),
    /// One backend of a service.
    Srv(Srv),
}

/// A DNS name, relative to its zone, with the records under it.
#[derive(Clone, Debug, PartialEq, Eq)]
pub struct DnsRecordSet {
    pub name: String,
    pub records: Vec<DnsRecord>,
}

/// A DNS zone: its name and the records of every name in it.
#[derive(Clone, Debug, PartialEq, Eq)]
pub struct DnsConfigZone {
    pub zone_name: String,
    pub records: Vec<DnsRecordSet>,
}

/// A complete configuration for a DNS server.
#[derive(Clone, Debug, PartialEq, Eq)]
pub struct DnsConfigParams {
    pub generation: u64,
    pub time_created: Timestamp,
    pub zones: Vec<DnsConfigZone>,
}

/// What a [`DnsRecord`] holds.
pub enum Record {
    Aaaa(Ipv6Addr),
    Srv { prio: u16, weight: u16, port: u16, target: Seq<char> },
}

/// What a [`DnsRecordSet`] holds.
pub struct RecordSet {
    pub name: Seq<char>,
    pub records: Seq<Record>,
}

/// What a [`DnsConfigZone`] holds.
pub struct ConfigZone {
    pub zone_name: Seq<char>,
    pub records: Seq<RecordSet>,
}

/// What a [`DnsConfigParams`] holds.
pub struct ConfigParams {
    pub generation: u64,
    pub time_created: Timestamp,
    pub zones: Seq<ConfigZone>,
}

/// What each record of a list holds, in order.
pub open spec fn record_views(records: Seq<DnsRecord>) -> Seq<Record> {
    Seq::new(records.len(), |i: int| records[i]@)
}

/// What each record set of a list holds, in order.
pub open spec fn record_set_views(sets: Seq<DnsRecordSet>) -> Seq<RecordSet> {
    Seq::new(sets.len(), |i: int| sets[i]@)
}

/// What each zone of a list holds, in order.
pub open spec fn zone_views(zones: Seq<DnsConfigZone>) -> Seq<ConfigZone> {
    Seq::new(zones.len(), |i: int| zones[i]@)
}

impl View for DnsRecord {
    type V = Record;

    open spec fn view(&self) -> Record {
        match *self {
            DnsRecord::Aaaa(addr) => Record::Aaaa(addr),
            DnsRecord::Srv(srv) => Record::Srv {
                prio: srv.prio,
                weight: srv.weight,
                port: srv.port,
                target: srv.target@,
            },
        }
    }
}

impl View for DnsRecordSet {
    type V = RecordSet;

    open spec fn view(&self) -> RecordSet {
        RecordSet { name: self.name@, records: record_views(self.records@) }
    }
}

impl View for DnsConfigZone {
    type V = ConfigZone;

    open spec fn view(&self) -> ConfigZone {
        ConfigZone { zone_name: self.zone_name@, records: record_set_views(self.records@) }
    }
}

impl View for DnsConfigParams {
    type V = ConfigParams;

    open spec fn view(&self) -> ConfigParams {
        ConfigParams {
            generation: self.generation,
            time_created: self.time_created,
            zones: zone_views(self.zones@),
        }
    }
}

impl DnsConfigZone {
    /// Returns the records under `name`: those of the first record set with
    /// that name, if there is one.
    pub fn records_named(&self, name: &str) -> (records: Option<&Vec<DnsRecord>>)
        ensures
            match records {
                Some(found) => exists|i: int|
                    0 <= i < self.records@.len() && (#[trigger] self.records@[i]).name@ == name@
                        && *found == self.records@[i].records && forall|j: int|
                        0 <= j < i ==> (#[trigger] self.records@[j]).name@ != name@,
                None => forall|j: int|
                    0 <= j < self.records@.len() ==> (#[trigger] self.records@[j]).name@ != name@,
            },
    {
        let wanted = String::from_str(name);
        let n = self.records.len();
        let mut i: usize = 0;
        while i < n
            invariant
                n == self.records@.len(),
                i <= n,
                wanted@ == name@,
                forall|j: int| 0 <= j < i ==> (#[trigger] self.records@[j]).name@ != name@,
            decreases n - i,
        {
            if self.records[i].name == wanted {
                return Some(&self.records[i].records);
            }
            i += 1;
        }
        None
    }
}

} // verus!
