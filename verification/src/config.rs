//! Assembling the control plane's DNS zone.
//!
//! A [`DnsConfigBuilder`] collects the hosts of the control plane (sleds, and
//! zones on them), each with its one IPv6 address, and the backends of each
//! service, each a registered host and a port. [`DnsConfigBuilder::build`]
//! turns what was collected into the zone's records: an address record under
//! the name of every host, and under the name of every service one service
//! record per backend.
//!
//! What the builder holds is a [`Registry`]; the contracts of the builder's
//! functions say how each call changes it and what is built from it. What is
//! built depends on which registrations were accepted and not on their order.

use crate::addr::Ipv6Addr;
use crate::error::{ConfigError, HostAddr};
use crate::ident::{fresh, Uuid};
use crate::names::{Host, ServiceName, ZoneVariant, DNS_ZONE};
use crate::ordered::{
    ascending, has_key, lemma_put_without, lemma_views_place, lemma_views_put, lemma_views_value,
    lemma_put, put, views, without, OrdMap,
};
use crate::records::{
    record_set_views, record_views, zone_views, DnsConfigParams, DnsConfigZone, DnsRecord,
    DnsRecordSet, Record, Srv, Timestamp, ConfigZone,
};
use crate::registry::{
    lemma_with_sled, lemma_with_sled_backend, lemma_with_zone, lemma_with_zone_backend, Backends,
    Registration, Registry, ZoneEntry,
};
use vstd::prelude::*;
use vstd::string::*;

verus! {

/// A sled that a builder has accepted: the handle by which it is named as a
/// backend. The handle is good for the builder that gave it out, and for no
/// other.
#[derive(Clone, Debug, PartialEq, Eq, Hash, PartialOrd, Ord)]
pub struct Sled {
    registry: Uuid,
    id: Uuid,
}

/// A zone that a builder has accepted: the handle by which it is named as a
/// backend. The handle is good for the builder that gave it out, and for no
/// other.
#[derive(Clone, Debug, PartialEq, Eq, Hash, PartialOrd, Ord)]
pub struct Zone {
    registry: Uuid,
    id: Uuid,
    variant: ZoneVariant,
}

impl Sled {
    /// The identifier of the builder that gave the handle out.
    pub closed spec fn registry(self) -> Uuid {
        self.registry
    }

    /// The identifier of the sled.
    pub closed spec fn id(self) -> Uuid {
        self.id
    }

    /// The host that the handle stands for.
    pub open spec fn host(self) -> Host {
        Host::Sled(self.id())
    }

    /// Returns the DNS name of this sled, relative to the zone.
    pub fn dns_name(&self) -> (name: String)
        ensures
            name@ == self.host().name(),
    {
        Host::Sled(self.id).dns_name()
    }
}

impl Zone {
    /// The identifier of the builder that gave the handle out.
    pub closed spec fn registry(self) -> Uuid {
        self.registry
    }

    /// The identifier of the zone.
    pub closed spec fn id(self) -> Uuid {
        self.id
    }

    /// The kind of the zone.
    pub closed spec fn variant(self) -> ZoneVariant {
        self.variant
    }

    /// The host that the handle stands for.
    pub open spec fn host(self) -> Host {
        Host::Zone { id: self.id(), variant: self.variant() }
    }

    /// Returns the DNS name of this zone, relative to the DNS zone.
    pub fn dns_name(&self) -> (name: String)
        ensures
            name@ == self.host().name(),
    {
        Host::Zone { id: self.id, variant: self.variant }.dns_name()
    }
}

/// The backends of one service, as the builder holds them.
struct ServiceBackends {
    zones: OrdMap<Uuid, u16>,
    sleds: OrdMap<Uuid, u16>,
}

impl View for ServiceBackends {
    type V = Backends;

    closed spec fn view(&self) -> Backends {
        Backends { zones: self.zones@, sleds: self.sleds@ }
    }
}

impl Clone for ServiceBackends {
    fn clone(&self) -> (copy: Self)
        ensures
            copy@ == self@,
    {
        let zones = self.zones.clone();
        let sleds = self.sleds.clone();
        assert(zones@ =~= self.zones@);
        assert(sleds@ =~= self.sleds@);
        ServiceBackends { zones, sleds }
    }
}

/// Collects the hosts and the service backends of the control plane and
/// builds the records of its DNS zone from them.
///
/// Every host has one identifier and one IPv6 address. A sled and a zone may
/// share an identifier; two sleds, or two zones, may not. A backend of a
/// service is a host that this builder has accepted before, named by the
/// handle that this builder gave out for it, and a host is a backend of one
/// service at most once.
///
/// A builder tells its own handles from those of other builders by its
/// identifier: the one that [`DnsConfigBuilder::with_instance`] was given, or
/// one that [`DnsConfigBuilder::new`] draws at random. A clone has the
/// identifier of the builder it was cloned from, and takes its handles.
pub struct DnsConfigBuilder {
    instance: Uuid,
    sleds: OrdMap<Uuid, Ipv6Addr>,
    zones: OrdMap<Uuid, ZoneEntry>,
    services: OrdMap<ServiceName, ServiceBackends>,
}

impl View for DnsConfigBuilder {
    type V = Registry;

    closed spec fn view(&self) -> Registry {
        Registry {
            instance: self.instance,
            sleds: self.sleds@,
            zones: self.zones@,
            services: views(self.services@),
        }
    }
}

impl Clone for DnsConfigBuilder {
    /// A builder that holds what this one holds.
    fn clone(&self) -> (copy: Self)
        ensures
            copy@ == self@,
            copy@.wf(),
    {
        proof {
            use_type_invariant(self);
        }
        let sleds = self.sleds.clone();
        let zones = self.zones.clone();
        let services = self.services.clone();
        assert(sleds@ =~= self.sleds@);
        assert(zones@ =~= self.zones@);
        assert(views(services@) =~= views(self.services@));
        DnsConfigBuilder { instance: self.instance, sleds, zones, services }
    }
}

/// Reads the clock with `chrono::Utc::now` and hands the time on as seconds
/// and nanoseconds since the Unix epoch (`DateTime::timestamp` and
/// `DateTime::timestamp_subsec_nanos`). Nothing is claimed of the time read.
/// `Utc::now` panics where the system clock stands before the Unix epoch.
#[verifier::external_body]
fn current_time() -> (now: Timestamp) {
    let now = chrono::Utc::now();
    Timestamp { secs: now.timestamp(), nanos: now.timestamp_subsec_nanos() }
}

impl DnsConfigBuilder {
    #[verifier::type_invariant]
    spec fn valid(self) -> bool {
        self@.wf()
    }

    /// A builder with the identifier `instance` that has accepted nothing yet.
    ///
    /// Builders with different identifiers turn down each other's handles.
    /// Who makes builders this way sees to it that their identifiers differ;
    /// [`Self::new`] draws one at random instead.
    pub fn with_instance(instance: Uuid) -> (builder: Self)
        ensures
            builder@ == Registry::empty(instance),
            builder@.wf(),
    {
        let sleds: OrdMap<Uuid, Ipv6Addr> = OrdMap::new();
        let zones: OrdMap<Uuid, ZoneEntry> = OrdMap::new();
        let services: OrdMap<ServiceName, ServiceBackends> = OrdMap::new();
        assert(views(services@) =~= Seq::empty());
        DnsConfigBuilder { instance, sleds, zones, services }
    }

    /// Takes what the builder holds out of it and leaves it empty.
    fn take(&mut self) -> (taken: Self)
        ensures
            taken@ == old(self)@,
            final(self)@ == Registry::empty(old(self)@.instance),
    {
        let mut taken = Self::with_instance(self.instance);
        core::mem::swap(self, &mut taken);
        taken
    }

    /// A builder that has accepted nothing yet, with an identifier of its own.
    pub fn new() -> (builder: Self)
        ensures
            builder@ == Registry::empty(builder@.instance),
            builder@.wf(),
    {
        Self::with_instance(fresh())
    }

    /// Registers the sled `sled_id` with its address `addr`.
    ///
    /// The sled is accepted unless a sled with this identifier has been
    /// registered before, with whatever address. The handle that comes back
    /// names the sled in [`Self::service_backend_sled`].
    pub fn host_sled(&mut self, sled_id: Uuid, addr: Ipv6Addr) -> (result: Result<Sled, ConfigError>)
        ensures
            final(self)@.wf(),
            final(self)@ == old(self)@.register(Registration::Sled { id: sled_id, addr }),
            match old(self)@.refusal(Registration::Sled { id: sled_id, addr }) {
                Some(e) => result == Err::<Sled, ConfigError>(e),
                None => result is Ok && result->Ok_0.registry() == old(self)@.instance
                    && result->Ok_0.id() == sled_id,
            },
    {
        proof {
            use_type_invariant(&*self);
        }
        let existing = match self.sleds.get(&sled_id) {
            Some(previous) => Some(*previous),
            None => None,
        };
        match existing {
            Some(previous) => Err(
                ConfigError::DuplicateHost {
                    previous: HostAddr { host: Host::Sled(sled_id), addr: previous },
                    attempted: HostAddr { host: Host::Sled(sled_id), addr },
                },
            ),
            None => {
                let DnsConfigBuilder { instance, mut sleds, zones, services } = self.take();
                let ghost reg = old(self)@;
                sleds.insert(sled_id, addr);
                proof {
                    lemma_with_sled(reg, sled_id, addr);
                }
                *self = DnsConfigBuilder { instance, sleds, zones, services };
                Ok(Sled { registry: instance, id: sled_id })
            },
        }
    }

    /// Registers a zone of the kind [`ZoneVariant::Dendrite`]. By convention
    /// its identifier is that of the sled it runs on; the builder does not
    /// ask whether such a sled is registered.
    ///
    /// The zone is accepted unless a zone with this identifier, of whatever
    /// kind, has been registered before.
    pub fn host_dendrite(&mut self, sled_id: Uuid, addr: Ipv6Addr) -> (result: Result<
        Zone,
        ConfigError,
    >)
        ensures
            final(self)@.wf(),
            final(self)@ == old(self)@.register(
                Registration::Zone { id: sled_id, variant: ZoneVariant::Dendrite, addr },
            ),
            match old(self)@.refusal(
                Registration::Zone { id: sled_id, variant: ZoneVariant::Dendrite, addr },
            ) {
                Some(e) => result == Err::<Zone, ConfigError>(e),
                None => result is Ok && result->Ok_0.registry() == old(self)@.instance
                    && result->Ok_0.host() == (Host::Zone {
                    id: sled_id,
                    variant: ZoneVariant::Dendrite,
                }),
            },
    {
        self.host_zone_internal(sled_id, ZoneVariant::Dendrite, addr)
    }

    /// Registers a zone of the kind [`ZoneVariant::Other`].
    ///
    /// The zone is accepted unless a zone with this identifier, of whatever
    /// kind, has been registered before. The handle that comes back names the
    /// zone in [`Self::service_backend_zone`].
    pub fn host_zone(&mut self, zone_id: Uuid, addr: Ipv6Addr) -> (result: Result<Zone, ConfigError>)
        ensures
            final(self)@.wf(),
            final(self)@ == old(self)@.register(
                Registration::Zone { id: zone_id, variant: ZoneVariant::Other, addr },
            ),
            match old(self)@.refusal(
                Registration::Zone { id: zone_id, variant: ZoneVariant::Other, addr },
            ) {
                Some(e) => result == Err::<Zone, ConfigError>(e),
                None => result is Ok && result->Ok_0.registry() == old(self)@.instance
                    && result->Ok_0.host() == (Host::Zone {
                    id: zone_id,
                    variant: ZoneVariant::Other,
                }),
            },
    {
        self.host_zone_internal(zone_id, ZoneVariant::Other, addr)
    }

    fn host_zone_internal(&mut self, id: Uuid, variant: ZoneVariant, addr: Ipv6Addr) -> (result: Result<
        Zone,
        ConfigError,
    >)
        ensures
            final(self)@.wf(),
            final(self)@ == old(self)@.register(Registration::Zone { id, variant, addr }),
            match old(self)@.refusal(Registration::Zone { id, variant, addr }) {
                Some(e) => result == Err::<Zone, ConfigError>(e),
                None => result is Ok && result->Ok_0.registry() == old(self)@.instance
                    && result->Ok_0.host() == (Host::Zone { id, variant }),
            },
    {
        proof {
            use_type_invariant(&*self);
        }
        let existing = match self.zones.get(&id) {
            Some(previous) => Some(*previous),
            None => None,
        };
        match existing {
            Some(previous) => Err(
                ConfigError::DuplicateHost {
                    previous: HostAddr {
                        host: Host::Zone { id, variant: previous.variant },
                        addr: previous.addr,
                    },
                    attempted: HostAddr { host: Host::Zone { id, variant }, addr },
                },
            ),
            None => {
                let DnsConfigBuilder { instance, sleds, mut zones, services } = self.take();
                let ghost reg = old(self)@;
                let entry = ZoneEntry { variant, addr };
                zones.insert(id, entry);
                proof {
                    lemma_with_zone(reg, id, entry);
                }
                *self = DnsConfigBuilder { instance, sleds, zones, services };
                Ok(Zone { registry: instance, id, variant })
            },
        }
    }

    /// Registers the zone behind `zone` as a backend of `service` at `port`.
    ///
    /// The backend is accepted if this builder gave the handle out and the
    /// zone is not yet a backend of the service. A handle that another
    /// builder gave out is refused, also where this builder has registered a
    /// zone with the same identifier.
    pub fn service_backend_zone(&mut self, service: ServiceName, zone: &Zone, port: u16) -> (result:
        Result<(), ConfigError>)
        ensures
            final(self)@.wf(),
            final(self)@ == old(self)@.register(
                Registration::ZoneBackend {
                    service,
                    registry: zone.registry(),
                    id: zone.id(),
                    variant: zone.variant(),
                    port,
                },
            ),
            match old(self)@.refusal(
                Registration::ZoneBackend {
                    service,
                    registry: zone.registry(),
                    id: zone.id(),
                    variant: zone.variant(),
                    port,
                },
            ) {
                Some(e) => result == Err::<(), ConfigError>(e),
                None => result is Ok,
            },
    {
        proof {
            use_type_invariant(&*self);
            lemma_views_place(self.services@, service);
            if has_key(self.services@, service) {
                lemma_views_value(self.services@, service);
            }
        }
        let host = Host::Zone { id: zone.id, variant: zone.variant };
        let known = zone.registry == self.instance && match self.zones.get(&zone.id) {
            Some(entry) => entry.variant == zone.variant,
            None => false,
        };
        if !known {
            return Err(ConfigError::UnknownHostReference { host });
        }
        let existing = match self.services.get(&service) {
            Some(backends) => match backends.zones.get(&zone.id) {
                Some(previous) => Some(*previous),
                None => None,
            },
            None => None,
        };
        match existing {
            Some(previous_port) => Err(
                ConfigError::DuplicateBackend { service, host, previous_port, attempted_port: port },
            ),
            None => {
                let DnsConfigBuilder { instance, sleds, zones, mut services } = self.take();
                let ghost before = services@;
                let ghost reg = old(self)@;
                proof {
                    lemma_views_place(before, service);
                    if has_key(before, service) {
                        lemma_views_value(before, service);
                    }
                }
                let mut backends = match services.remove(&service) {
                    Some(backends) => backends,
                    None => ServiceBackends { zones: OrdMap::new(), sleds: OrdMap::new() },
                };
                let ghost held = backends@;
                backends.zones.insert(zone.id, port);
                let ghost next_backends = backends;
                services.insert(service, backends);
                proof {
                    assert(held == reg.backends(service));
                    lemma_accepted_backend(
                        reg,
                        before,
                        services@,
                        service,
                        next_backends,
                        Backends { zones: put(held.zones, zone.id, port), ..held },
                    );
                    lemma_with_zone_backend(reg, service, zone.id, port);
                }
                *self = DnsConfigBuilder { instance, sleds, zones, services };
                Ok(())
            },
        }
    }

    /// Registers the sled behind `sled` as a backend of `service` at `port`.
    ///
    /// The backend is accepted if this builder gave the handle out and the
    /// sled is not yet a backend of the service. A handle that another
    /// builder gave out is refused, also where this builder has registered a
    /// sled with the same identifier.
    pub fn service_backend_sled(&mut self, service: ServiceName, sled: &Sled, port: u16) -> (result:
        Result<(), ConfigError>)
        ensures
            final(self)@.wf(),
            final(self)@ == old(self)@.register(
                Registration::SledBackend {
                    service,
                    registry: sled.registry(),
                    id: sled.id(),
                    port,
                },
            ),
            match old(self)@.refusal(
                Registration::SledBackend {
                    service,
                    registry: sled.registry(),
                    id: sled.id(),
                    port,
                },
            ) {
                Some(e) => result == Err::<(), ConfigError>(e),
                None => result is Ok,
            },
    {
        proof {
            use_type_invariant(&*self);
            lemma_views_place(self.services@, service);
            if has_key(self.services@, service) {
                lemma_views_value(self.services@, service);
            }
        }
        let host = Host::Sled(sled.id);
        let known = sled.registry == self.instance && self.sleds.contains_key(&sled.id);
        if !known {
            return Err(ConfigError::UnknownHostReference { host });
        }
        let existing = match self.services.get(&service) {
            Some(backends) => match backends.sleds.get(&sled.id) {
                Some(previous) => Some(*previous),
                None => None,
            },
            None => None,
        };
        match existing {
            Some(previous_port) => Err(
                ConfigError::DuplicateBackend { service, host, previous_port, attempted_port: port },
            ),
            None => {
                let DnsConfigBuilder { instance, sleds, zones, mut services } = self.take();
                let ghost before = services@;
                let ghost reg = old(self)@;
                proof {
                    lemma_views_place(before, service);
                    if has_key(before, service) {
                        lemma_views_value(before, service);
                    }
                }
                let mut backends = match services.remove(&service) {
                    Some(backends) => backends,
                    None => ServiceBackends { zones: OrdMap::new(), sleds: OrdMap::new() },
                };
                let ghost held = backends@;
                backends.sleds.insert(sled.id, port);
                let ghost next_backends = backends;
                services.insert(service, backends);
                proof {
                    assert(held == reg.backends(service));
                    lemma_accepted_backend(
                        reg,
                        before,
                        services@,
                        service,
                        next_backends,
                        Backends { sleds: put(held.sleds, sled.id, port), ..held },
                    );
                    lemma_with_sled_backend(reg, service, sled.id, port);
                }
                *self = DnsConfigBuilder { instance, sleds, zones, services };
                Ok(())
            },
        }
    }

    /// One service record for each of the zone backends `backends`.
    fn zone_srv_records(&self, backends: &OrdMap<Uuid, u16>) -> (records: Vec<DnsRecord>)
        requires
            forall|j: int|
                0 <= j < backends@.len() ==> has_key(self@.zones, (#[trigger] backends@[j]).0),
        ensures
            record_views(records@) == self@.zone_srvs(backends@),
    {
        let mut records: Vec<DnsRecord> = Vec::new();
        let n = backends.len();
        let mut j: usize = 0;
        while j < n
            invariant
                n == backends@.len(),
                j <= n,
                records@.len() == j,
                forall|k: int|
                    0 <= k < backends@.len() ==> has_key(self@.zones, (#[trigger] backends@[k]).0),
                forall|k: int|
                    0 <= k < j ==> (#[trigger] records@[k])@ == Registry::srv(
                        self@.zone_host(backends@[k].0),
                        backends@[k].1,
                    ),
            decreases n - j,
        {
            let backend = backends.entry(j);
            let id = backend.0;
            let port = backend.1;
            assert(has_key(self@.zones, backends@[j as int].0));
            let variant = match self.zones.get(&id) {
                Some(entry) => entry.variant,
                None => {
                    assert(false);
                    ZoneVariant::Other
                },
            };
            let target = Host::Zone { id, variant }.srv_target();
            records.push(DnsRecord::Srv(Srv { prio: 0, weight: 0, port, target }));
            j += 1;
        }
        assert(record_views(records@) =~= self@.zone_srvs(backends@));
        records
    }

    /// One service record for each of the sled backends `backends`.
    fn sled_srv_records(backends: &OrdMap<Uuid, u16>) -> (records: Vec<DnsRecord>)
        ensures
            record_views(records@) == Registry::sled_srvs(backends@),
    {
        let mut records: Vec<DnsRecord> = Vec::new();
        let n = backends.len();
        let mut j: usize = 0;
        while j < n
            invariant
                n == backends@.len(),
                j <= n,
                records@.len() == j,
                forall|k: int|
                    0 <= k < j ==> (#[trigger] records@[k])@ == Registry::srv(
                        Host::Sled(backends@[k].0),
                        backends@[k].1,
                    ),
            decreases n - j,
        {
            let backend = backends.entry(j);
            let target = Host::Sled(backend.0).srv_target();
            records.push(DnsRecord::Srv(Srv { prio: 0, weight: 0, port: backend.1, target }));
            j += 1;
        }
        assert(record_views(records@) =~= Registry::sled_srvs(backends@));
        records
    }

    /// The address records of the sleds.
    fn sled_record_sets(&self) -> (sets: Vec<DnsRecordSet>)
        ensures
            record_set_views(sets@) == self@.sled_sets(),
    {
        let mut sets: Vec<DnsRecordSet> = Vec::new();
        let n = self.sleds.len();
        let mut i: usize = 0;
        while i < n
            invariant
                n == self@.sleds.len(),
                i <= n,
                sets@.len() == i,
                forall|k: int|
                    0 <= k < i ==> (#[trigger] sets@[k])@ == Registry::sled_set(self@.sleds[k]),
            decreases n - i,
        {
            let entry = self.sleds.entry(i);
            let name = Host::Sled(entry.0).dns_name();
            let mut records: Vec<DnsRecord> = Vec::new();
            records.push(DnsRecord::Aaaa(entry.1));
            let set = DnsRecordSet { name, records };
            assert(set@.records =~= seq![Record::Aaaa(entry.1)]);
            sets.push(set);
            i += 1;
        }
        assert(record_set_views(sets@) =~= self@.sled_sets());
        sets
    }

    /// The address records of the zones.
    fn zone_record_sets(&self) -> (sets: Vec<DnsRecordSet>)
        ensures
            record_set_views(sets@) == self@.zone_sets(),
    {
        let mut sets: Vec<DnsRecordSet> = Vec::new();
        let n = self.zones.len();
        let mut i: usize = 0;
        while i < n
            invariant
                n == self@.zones.len(),
                i <= n,
                sets@.len() == i,
                forall|k: int|
                    0 <= k < i ==> (#[trigger] sets@[k])@ == Registry::zone_set(self@.zones[k]),
            decreases n - i,
        {
            let entry = self.zones.entry(i);
            let name = Host::Zone { id: entry.0, variant: entry.1.variant }.dns_name();
            let mut records: Vec<DnsRecord> = Vec::new();
            records.push(DnsRecord::Aaaa(entry.1.addr));
            let set = DnsRecordSet { name, records };
            assert(set@.records =~= seq![Record::Aaaa(entry.1.addr)]);
            sets.push(set);
            i += 1;
        }
        assert(record_set_views(sets@) =~= self@.zone_sets());
        sets
    }

    /// The service records of the services.
    fn service_record_sets(&self) -> (sets: Vec<DnsRecordSet>)
        ensures
            record_set_views(sets@) == self@.service_sets(),
    {
        proof {
            use_type_invariant(self);
        }
        let mut sets: Vec<DnsRecordSet> = Vec::new();
        let n = self.services.len();
        let mut i: usize = 0;
        while i < n
            invariant
                self@.wf(),
                n == self@.services.len(),
                n == self.services@.len(),
                i <= n,
                sets@.len() == i,
                forall|k: int|
                    0 <= k < i ==> (#[trigger] sets@[k])@ == self@.service_set(self@.services[k]),
            decreases n - i,
        {
            let entry = self.services.entry(i);
            assert(self@.services[i as int] == (entry.0, entry.1@));
            assert(self@.backends_wf(self@.services[i as int].1));
            let name = entry.0.dns_name();
            let mut records = self.zone_srv_records(&entry.1.zones);
            let mut sled_records = Self::sled_srv_records(&entry.1.sleds);
            records.append(&mut sled_records);
            assert(record_views(records@) =~= self@.service_records(entry.1@));
            sets.push(DnsRecordSet { name, records });
            i += 1;
        }
        assert(record_set_views(sets@) =~= self@.service_sets());
        sets
    }

    /// Builds the configuration of the zone, stamped with `time_created`.
    ///
    /// The configuration is generation 1 of the one zone [`DNS_ZONE`]. Its
    /// records are, in this order: under the name of each sled the sled's
    /// address; under the name of each zone the zone's address; under the
    /// name of each service one service record per backend, with priority
    /// and weight 0, the backend's port and the backend's host name made
    /// fully qualified. The records of a service are those of the zones that
    /// serve it, then those of the sleds that serve it, each in ascending
    /// order of the hosts' identifiers.
    pub fn build_at(self, time_created: Timestamp) -> (config: DnsConfigParams)
        ensures
            config@ == self@.config(time_created),
    {
        let mut records = self.sled_record_sets();
        let mut zone_sets = self.zone_record_sets();
        let mut service_sets = self.service_record_sets();
        records.append(&mut zone_sets);
        records.append(&mut service_sets);
        assert(record_set_views(records@) =~= self@.records());
        let zone = DnsConfigZone { zone_name: String::from_str(DNS_ZONE), records };
        let mut zones: Vec<DnsConfigZone> = Vec::new();
        zones.push(zone);
        assert(zone_views(zones@) =~= seq![
            ConfigZone { zone_name: DNS_ZONE@, records: self@.records() },
        ]);
        DnsConfigParams { generation: 1, time_created, zones }
    }

    /// Builds the configuration of the zone, stamped with the current time.
    ///
    /// Everything but the time is as [`Self::build_at`] gives it.
    pub fn build(self) -> (config: DnsConfigParams)
        ensures
            config@ == self@.config(config.time_created),
    {
        let now = current_time();
        self.build_at(now)
    }
}

/// Taking the backends of `service` out of the services, changing them and
/// putting them back is one `put` on what the services hold.
proof fn lemma_accepted_backend(
    reg: Registry,
    before: Seq<(ServiceName, ServiceBackends)>,
    after: Seq<(ServiceName, ServiceBackends)>,
    service: ServiceName,
    changed: ServiceBackends,
    expected: Backends,
)
    requires
        reg.wf(),
        reg.services == views(before),
        after == put(without(before, service), service, changed),
        changed@ == expected,
    ensures
        views(after) == put(reg.services, service, expected),
        ascending(views(after)),
{
    lemma_views_place(before, service);
    lemma_put_without(before, service, changed);
    lemma_views_put(before, service, changed);
    lemma_put(reg.services, service, expected);
}

} // verus!
