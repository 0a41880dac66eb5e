//! What a builder of the DNS zone holds, and what is built from it.
//!
//! A [`Registry`] lists the registered sleds and zones, each with its address,
//! and the services, each with its backends. Every list is in ascending order
//! of its keys, so a registry is determined by what was registered, whatever
//! the order. The functions here say when a registration is accepted, what
//! the registry is afterwards, and which records the zone gets.

use crate::addr::Ipv6Addr;
use crate::error::{ConfigError, HostAddr};
use crate::ident::Uuid;
use crate::names::{Host, ServiceName, ZoneVariant, DNS_ZONE};
use crate::ordered::{
    ascending, has_key, lemma_entry_found, lemma_place_bounds, lemma_put, lemma_put_entry,
    lemma_put_lookup, put, value_of,
};
use crate::records::{ConfigParams, Record, RecordSet, Timestamp, ConfigZone};
use vstd::prelude::*;

verus! {

/// What a builder holds for a zone: its kind and its address.
#[derive(Clone, Copy, Debug, PartialEq, Eq)]
pub struct ZoneEntry {
    pub variant: ZoneVariant,
    pub addr: Ipv6Addr,
}

/// The backends of one service: the port on each zone and on each sled that
/// serves it, in ascending order of the hosts' identifiers.
pub struct Backends {
    pub zones: Seq<(Uuid, u16)>,
    pub sleds: Seq<(Uuid, u16)>,
}

/// What a builder holds: the identifier that tells it from other builders,
/// and the hosts and the backends that it has accepted, each list in
/// ascending order of its keys.
pub struct Registry {
    pub instance: Uuid,
    pub sleds: Seq<(Uuid, Ipv6Addr)>,
    pub zones: Seq<(Uuid, ZoneEntry)>,
    pub services: Seq<(ServiceName, Backends)>,
}

/// One call of a registration function of the builder, with its arguments. A
/// backend names its host as the handle does: by the builder that gave the
/// handle out, and a zone by identifier and kind, a sled by identifier.
pub enum Registration {
    Sled { id: Uuid, addr: Ipv6Addr },
    Zone { id: Uuid, variant: ZoneVariant, addr: Ipv6Addr },
    ZoneBackend { service: ServiceName, registry: Uuid, id: Uuid, variant: ZoneVariant, port: u16 },
    SledBackend { service: ServiceName, registry: Uuid, id: Uuid, port: u16 },
}

impl Backends {
    /// No backend at all.
    pub open spec fn none() -> Backends {
        Backends { zones: Seq::empty(), sleds: Seq::empty() }
    }
}

impl Registry {
    /// The registry of the builder `instance` when it has accepted nothing yet.
    pub open spec fn empty(instance: Uuid) -> Registry {
        Registry { instance, sleds: Seq::empty(), zones: Seq::empty(), services: Seq::empty() }
    }

    /// The backends of a service are in order, there is at least one, and
    /// each is a registered host.
    pub open spec fn backends_wf(self, b: Backends) -> bool {
        &&& ascending(b.zones)
        &&& ascending(b.sleds)
        &&& b.zones.len() + b.sleds.len() > 0
        &&& forall|j: int| 0 <= j < b.zones.len() ==> has_key(self.zones, (#[trigger] b.zones[j]).0)
        &&& forall|j: int| 0 <= j < b.sleds.len() ==> has_key(self.sleds, (#[trigger] b.sleds[j]).0)
    }

    /// Every list is in ascending order without a repeated key, and every
    /// backend is a registered host.
    pub open spec fn wf(self) -> bool {
        &&& ascending(self.sleds)
        &&& ascending(self.zones)
        &&& ascending(self.services)
        &&& forall|i: int|
            0 <= i < self.services.len() ==> self.backends_wf((#[trigger] self.services[i]).1)
    }

    /// Whether `host` is registered: a sled by its identifier, a zone by its
    /// identifier and kind.
    pub open spec fn knows(self, host: Host) -> bool {
        match host {
            Host::Sled(id) => has_key(self.sleds, id),
            Host::Zone { id, variant } => has_key(self.zones, id) && value_of(self.zones, id).variant
                == variant,
        }
    }

    /// Whether a handle that the builder `registry` gave out for `host` stands
    /// for a host of this registry: this builder gave it out, and the host is
    /// registered.
    pub open spec fn owns(self, registry: Uuid, host: Host) -> bool {
        registry == self.instance && self.knows(host)
    }

    /// The backends of `service`.
    pub open spec fn backends(self, service: ServiceName) -> Backends {
        if has_key(self.services, service) {
            value_of(self.services, service)
        } else {
            Backends::none()
        }
    }

    /// Why the sled `id` is not accepted with the address `addr`, if it is not:
    /// the identifier is a registered sled already.
    pub open spec fn sled_refusal(self, id: Uuid, addr: Ipv6Addr) -> Option<ConfigError> {
        if has_key(self.sleds, id) {
            Some(
                ConfigError::DuplicateHost {
                    previous: HostAddr { host: Host::Sled(id), addr: value_of(self.sleds, id) },
                    attempted: HostAddr { host: Host::Sled(id), addr },
                },
            )
        } else {
            None
        }
    }

    /// Why the zone `id` is not accepted with its kind and address, if it is
    /// not: the identifier is a registered zone already, of whatever kind.
    pub open spec fn zone_refusal(self, id: Uuid, entry: ZoneEntry) -> Option<ConfigError> {
        if has_key(self.zones, id) {
            Some(
                ConfigError::DuplicateHost {
                    previous: HostAddr { host: self.zone_host(id), addr: value_of(self.zones, id).addr },
                    attempted: HostAddr {
                        host: Host::Zone { id, variant: entry.variant },
                        addr: entry.addr,
                    },
                },
            )
        } else {
            None
        }
    }

    /// Why the zone `id` of kind `variant`, named by a handle of the builder
    /// `registry`, is not accepted as a backend of `service` at `port`, if it
    /// is not: the handle is not one of this registry, or the zone is a
    /// backend of the service already.
    pub open spec fn zone_backend_refusal(
        self,
        service: ServiceName,
        registry: Uuid,
        id: Uuid,
        variant: ZoneVariant,
        port: u16,
    ) -> Option<ConfigError> {
        let host = Host::Zone { id, variant };
        let zones = self.backends(service).zones;
        if !self.owns(registry, host) {
            Some(ConfigError::UnknownHostReference { host })
        } else if has_key(zones, id) {
            Some(
                ConfigError::DuplicateBackend {
                    service,
                    host,
                    previous_port: value_of(zones, id),
                    attempted_port: port,
                },
            )
        } else {
            None
        }
    }

    /// Why the sled `id`, named by a handle of the builder `registry`, is not
    /// accepted as a backend of `service` at `port`, if it is not: the handle
    /// is not one of this registry, or the sled is a backend of the service
    /// already.
    pub open spec fn sled_backend_refusal(
        self,
        service: ServiceName,
        registry: Uuid,
        id: Uuid,
        port: u16,
    ) -> Option<ConfigError> {
        let host = Host::Sled(id);
        let sleds = self.backends(service).sleds;
        if !self.owns(registry, host) {
            Some(ConfigError::UnknownHostReference { host })
        } else if has_key(sleds, id) {
            Some(
                ConfigError::DuplicateBackend {
                    service,
                    host,
                    previous_port: value_of(sleds, id),
                    attempted_port: port,
                },
            )
        } else {
            None
        }
    }

    /// The registry after the sled `id` was accepted with the address `addr`.
    pub open spec fn with_sled(self, id: Uuid, addr: Ipv6Addr) -> Registry {
        Registry { sleds: put(self.sleds, id, addr), ..self }
    }

    /// The registry after the zone `id` was accepted with its kind and address.
    pub open spec fn with_zone(self, id: Uuid, entry: ZoneEntry) -> Registry {
        Registry { zones: put(self.zones, id, entry), ..self }
    }

    /// The registry after the zone `id` was accepted as a backend of `service`.
    pub open spec fn with_zone_backend(self, service: ServiceName, id: Uuid, port: u16) -> Registry {
        let b = self.backends(service);
        Registry {
            services: put(self.services, service, Backends { zones: put(b.zones, id, port), ..b }),
            ..self
        }
    }

    /// The registry after the sled `id` was accepted as a backend of `service`.
    pub open spec fn with_sled_backend(self, service: ServiceName, id: Uuid, port: u16) -> Registry {
        let b = self.backends(service);
        Registry {
            services: put(self.services, service, Backends { sleds: put(b.sleds, id, port), ..b }),
            ..self
        }
    }

    /// Why the registration is turned down, if it is.
    pub open spec fn refusal(self, r: Registration) -> Option<ConfigError> {
        match r {
            Registration::Sled { id, addr } => self.sled_refusal(id, addr),
            Registration::Zone { id, variant, addr } => self.zone_refusal(id, ZoneEntry { variant, addr }),
            Registration::ZoneBackend { service, registry, id, variant, port } =>
                self.zone_backend_refusal(service, registry, id, variant, port),
            Registration::SledBackend { service, registry, id, port } => self.sled_backend_refusal(
                service,
                registry,
                id,
                port,
            ),
        }
    }

    /// The registry after the registration was accepted.
    pub open spec fn accept(self, r: Registration) -> Registry {
        match r {
            Registration::Sled { id, addr } => self.with_sled(id, addr),
            Registration::Zone { id, variant, addr } => self.with_zone(id, ZoneEntry { variant, addr }),
            Registration::ZoneBackend { service, registry, id, variant, port } =>
                self.with_zone_backend(service, id, port),
            Registration::SledBackend { service, registry, id, port } => self.with_sled_backend(
                service,
                id,
                port,
            ),
        }
    }

    /// The registry after the registration was made: changed if it was
    /// accepted, unchanged if it was turned down.
    pub open spec fn register(self, r: Registration) -> Registry {
        if self.refusal(r) is None {
            self.accept(r)
        } else {
            self
        }
    }

    /// The address record of a sled, under the sled's name.
    pub open spec fn sled_set(e: (Uuid, Ipv6Addr)) -> RecordSet {
        RecordSet { name: Host::Sled(e.0).name(), records: seq![Record::Aaaa(e.1)] }
    }

    /// The address record of a zone, under the zone's name.
    pub open spec fn zone_set(e: (Uuid, ZoneEntry)) -> RecordSet {
        RecordSet {
            name: Host::Zone { id: e.0, variant: e.1.variant }.name(),
            records: seq![Record::Aaaa(e.1.addr)],
        }
    }

    /// The service record for a backend on the host `host` at `port`.
    pub open spec fn srv(host: Host, port: u16) -> Record {
        Record::Srv { prio: 0, weight: 0, port, target: host.target() }
    }

    /// The registered zone with the identifier `id`.
    pub open spec fn zone_host(self, id: Uuid) -> Host {
        Host::Zone { id, variant: value_of(self.zones, id).variant }
    }

    /// One service record for each of the zone backends `zones`, in their order.
    pub open spec fn zone_srvs(self, zones: Seq<(Uuid, u16)>) -> Seq<Record> {
        Seq::new(zones.len(), |j: int| Self::srv(self.zone_host(zones[j].0), zones[j].1))
    }

    /// One service record for each of the sled backends `sleds`, in their order.
    pub open spec fn sled_srvs(sleds: Seq<(Uuid, u16)>) -> Seq<Record> {
        Seq::new(sleds.len(), |j: int| Self::srv(Host::Sled(sleds[j].0), sleds[j].1))
    }

    /// The records of a service, one for each of its backends: first those of
    /// the zones that serve it, in ascending order of the zones' identifiers,
    /// then those of the sleds that serve it, in ascending order of theirs.
    pub open spec fn service_records(self, b: Backends) -> Seq<Record> {
        self.zone_srvs(b.zones) + Self::sled_srvs(b.sleds)
    }

    /// The records of a service, under the service's name.
    pub open spec fn service_set(self, e: (ServiceName, Backends)) -> RecordSet {
        RecordSet { name: e.0.name(), records: self.service_records(e.1) }
    }

    /// The address records of the sleds, in ascending order of their identifiers.
    pub open spec fn sled_sets(self) -> Seq<RecordSet> {
        Seq::new(self.sleds.len(), |i: int| Self::sled_set(self.sleds[i]))
    }

    /// The address records of the zones, in ascending order of their identifiers.
    pub open spec fn zone_sets(self) -> Seq<RecordSet> {
        Seq::new(self.zones.len(), |i: int| Self::zone_set(self.zones[i]))
    }

    /// The service records of the services, in the order of the services.
    pub open spec fn service_sets(self) -> Seq<RecordSet> {
        Seq::new(self.services.len(), |i: int| self.service_set(self.services[i]))
    }

    /// The records of the zone: those of the sleds, then those of the zones,
    /// then those of the services.
    pub open spec fn records(self) -> Seq<RecordSet> {
        self.sled_sets() + self.zone_sets() + self.service_sets()
    }

    /// The configuration built at `time_created`: generation 1 of the one
    /// zone [`DNS_ZONE`] with the records of the registry.
    pub open spec fn config(self, time_created: Timestamp) -> ConfigParams {
        ConfigParams {
            generation: 1,
            time_created,
            zones: seq![ConfigZone { zone_name: DNS_ZONE@, records: self.records() }],
        }
    }
}

/// The backends of any service are in order, and each is a registered host.
pub proof fn lemma_backends_registered(reg: Registry, service: ServiceName)
    requires
        reg.wf(),
    ensures
        ascending(reg.backends(service).zones),
        ascending(reg.backends(service).sleds),
        forall|j: int|
            0 <= j < reg.backends(service).zones.len() ==> has_key(
                reg.zones,
                (#[trigger] reg.backends(service).zones[j]).0,
            ),
        forall|j: int|
            0 <= j < reg.backends(service).sleds.len() ==> has_key(
                reg.sleds,
                (#[trigger] reg.backends(service).sleds[j]).0,
            ),
{
    if has_key(reg.services, service) {
        let i = choose|i: int| 0 <= i < reg.services.len() && (#[trigger] reg.services[i]).0 == service;
        lemma_entry_found(reg.services, i);
        assert(reg.backends_wf(reg.services[i].1));
    }
}

/// Registering a sled keeps a registry well formed.
pub proof fn lemma_with_sled(reg: Registry, id: Uuid, addr: Ipv6Addr)
    requires
        reg.wf(),
    ensures
        reg.with_sled(id, addr).wf(),
{
    let next = reg.with_sled(id, addr);
    lemma_put(reg.sleds, id, addr);
    lemma_put_lookup(reg.sleds, id, addr);
    assert forall|i: int| 0 <= i < next.services.len() implies next.backends_wf(
        (#[trigger] next.services[i]).1,
    ) by {
        assert(reg.backends_wf(reg.services[i].1));
    }
}

/// Registering a zone keeps a registry well formed.
pub proof fn lemma_with_zone(reg: Registry, id: Uuid, entry: ZoneEntry)
    requires
        reg.wf(),
    ensures
        reg.with_zone(id, entry).wf(),
{
    let next = reg.with_zone(id, entry);
    lemma_put(reg.zones, id, entry);
    lemma_put_lookup(reg.zones, id, entry);
    assert forall|i: int| 0 <= i < next.services.len() implies next.backends_wf(
        (#[trigger] next.services[i]).1,
    ) by {
        assert(reg.backends_wf(reg.services[i].1));
    }
}

/// Registering a registered zone as a backend keeps a registry well formed.
pub proof fn lemma_with_zone_backend(reg: Registry, service: ServiceName, id: Uuid, port: u16)
    requires
        reg.wf(),
        has_key(reg.zones, id),
    ensures
        reg.with_zone_backend(service, id, port).wf(),
{
    let next = reg.with_zone_backend(service, id, port);
    let held = reg.backends(service);
    let changed = Backends { zones: put(held.zones, id, port), ..held };
    lemma_backends_registered(reg, service);
    lemma_put(reg.services, service, changed);
    lemma_put(held.zones, id, port);
    lemma_place_bounds(held.zones, id);
    assert forall|i: int| 0 <= i < next.services.len() implies next.backends_wf(
        (#[trigger] next.services[i]).1,
    ) by {
        lemma_put_entry(reg.services, service, changed, i);
        if next.services[i] == (service, changed) {
            assert forall|j: int| 0 <= j < changed.zones.len() implies has_key(
                next.zones,
                (#[trigger] changed.zones[j]).0,
            ) by {
                lemma_put_entry(held.zones, id, port, j);
            }
            assert(next.backends_wf(changed));
        } else {
            let k = choose|k: int|
                0 <= k < reg.services.len() && #[trigger] reg.services[k] == next.services[i];
            assert(reg.backends_wf(reg.services[k].1));
        }
    }
}

/// Registering a registered sled as a backend keeps a registry well formed.
pub proof fn lemma_with_sled_backend(reg: Registry, service: ServiceName, id: Uuid, port: u16)
    requires
        reg.wf(),
        has_key(reg.sleds, id),
    ensures
        reg.with_sled_backend(service, id, port).wf(),
{
    let next = reg.with_sled_backend(service, id, port);
    let held = reg.backends(service);
    let changed = Backends { sleds: put(held.sleds, id, port), ..held };
    lemma_backends_registered(reg, service);
    lemma_put(reg.services, service, changed);
    lemma_put(held.sleds, id, port);
    lemma_place_bounds(held.sleds, id);
    assert forall|i: int| 0 <= i < next.services.len() implies next.backends_wf(
        (#[trigger] next.services[i]).1,
    ) by {
        lemma_put_entry(reg.services, service, changed, i);
        if next.services[i] == (service, changed) {
            assert forall|j: int| 0 <= j < changed.sleds.len() implies has_key(
                next.sleds,
                (#[trigger] changed.sleds[j]).0,
            ) by {
                lemma_put_entry(held.sleds, id, port, j);
            }
            assert(next.backends_wf(changed));
        } else {
            let k = choose|k: int|
                0 <= k < reg.services.len() && #[trigger] reg.services[k] == next.services[i];
            assert(reg.backends_wf(reg.services[k].1));
        }
    }
}

} // verus!
