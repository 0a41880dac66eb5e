//! What holds of every builder, stated over what a builder holds.
//!
//! A run of registrations is replayed on the registry of an empty builder:
//! each registration is accepted or turned down exactly as the builder's
//! registration functions accept it or turn it down. The laws say that the
//! records of the built zone form a mapping with one entry for every
//! registered host, that a registration made twice is turned down and changes
//! nothing, that the handles of one builder are turned down by another, and
//! that what is built depends on which registrations were made and neither on
//! their order nor on the builder.

use crate::addr::Ipv6Addr;
use crate::registry::{
    lemma_backends_registered, lemma_with_sled, lemma_with_sled_backend, lemma_with_zone,
    lemma_with_zone_backend, Backends, Registration, Registry, ZoneEntry,
};
use crate::error::{ConfigError, HostAddr};
use crate::ident::Uuid;
use crate::names::{
    lemma_host_and_service_names_differ, lemma_host_name_injective, lemma_service_name_injective,
    Host, ServiceName, ZoneVariant,
};
use crate::ordered::{
    as_map, ascending, has_key, lemma_ascending_unique, lemma_entry_found, lemma_put_lookup, put,
    value_of, Ranked,
};
use crate::records::{Record, RecordSet, Timestamp};
use vstd::prelude::*;

verus! {

impl Registry {
    /// The registry after the registrations `rs` were made in their order.
    pub open spec fn after(self, rs: Seq<Registration>) -> Registry
        decreases rs.len(),
    {
        if rs.len() == 0 {
            self
        } else {
            self.after(rs.drop_last()).register(rs.last())
        }
    }

    /// Every one of the registrations `rs`, made in their order, is accepted.
    pub open spec fn accepts_all(self, rs: Seq<Registration>) -> bool
        decreases rs.len(),
    {
        rs.len() == 0 || (self.accepts_all(rs.drop_last()) && self.after(rs.drop_last()).refusal(
            rs.last(),
        ) is None)
    }

    /// The address of a registered host.
    pub open spec fn address(self, host: Host) -> Ipv6Addr {
        match host {
            Host::Sled(id) => value_of(self.sleds, id),
            Host::Zone { id, variant } => value_of(self.zones, id).addr,
        }
    }

    /// The registry holds exactly what the registrations `made` say: the
    /// hosts with their addresses and the backends with their ports.
    pub open spec fn reflects(self, made: Set<Registration>) -> bool {
        &&& forall|id: Uuid, addr: Ipv6Addr| #[trigger]
            made.contains(Registration::Sled { id, addr }) <==> has_key(self.sleds, id) && value_of(
                self.sleds,
                id,
            ) == addr
        &&& forall|id: Uuid, variant: ZoneVariant, addr: Ipv6Addr| #[trigger]
            made.contains(Registration::Zone { id, variant, addr }) <==> has_key(self.zones, id)
                && value_of(self.zones, id) == (ZoneEntry { variant, addr })
        &&& forall|service: ServiceName, registry: Uuid, id: Uuid, variant: ZoneVariant, port: u16| #[trigger]
            made.contains(Registration::ZoneBackend { service, registry, id, variant, port })
                <==> registry == self.instance && has_key(self.backends(service).zones, id) && value_of(
                self.backends(service).zones,
                id,
            ) == port && value_of(self.zones, id).variant == variant
        &&& forall|service: ServiceName, registry: Uuid, id: Uuid, port: u16| #[trigger]
            made.contains(Registration::SledBackend { service, registry, id, port }) <==> registry
                == self.instance && has_key(self.backends(service).sleds, id) && value_of(
                self.backends(service).sleds,
                id,
            ) == port
    }
}

/// The record set `set` is among `records`, and no other of them has its name.
pub open spec fn holds_once(records: Seq<RecordSet>, set: RecordSet) -> bool {
    exists|i: int|
        0 <= i < records.len() && #[trigger] records[i] == set && forall|j: int|
            0 <= j < records.len() && (#[trigger] records[j]).name == set.name ==> j == i
}

/// What the records of a registry are, place by place: the sleds, the zones,
/// then the services.
pub proof fn lemma_records_by_place(reg: Registry, i: int)
    requires
        0 <= i < reg.records().len(),
    ensures
        reg.records().len() == reg.sleds.len() + reg.zones.len() + reg.services.len(),
        i < reg.sleds.len() ==> reg.records()[i] == Registry::sled_set(reg.sleds[i]),
        reg.sleds.len() <= i < reg.sleds.len() + reg.zones.len() ==> reg.records()[i]
            == Registry::zone_set(reg.zones[i - reg.sleds.len()]),
        reg.sleds.len() + reg.zones.len() <= i ==> reg.records()[i] == reg.service_set(
            reg.services[i - reg.sleds.len() - reg.zones.len()],
        ),
{
}

/// The records of a built zone form a mapping: no two record sets have the
/// same name.
pub proof fn lemma_names_distinct(reg: Registry, i: int, j: int)
    requires
        reg.wf(),
        0 <= i < j < reg.records().len(),
    ensures
        reg.records()[i].name != reg.records()[j].name,
{
    lemma_records_by_place(reg, i);
    lemma_records_by_place(reg, j);
    let ns = reg.sleds.len() as int;
    let nz = reg.zones.len() as int;
    if j < ns {
        assert(reg.sleds[i].0.rank() < reg.sleds[j].0.rank());
        if reg.records()[i].name == reg.records()[j].name {
            lemma_host_name_injective(Host::Sled(reg.sleds[i].0), Host::Sled(reg.sleds[j].0));
        }
    } else if j < ns + nz {
        let zj = reg.zones[j - ns];
        let hj = Host::Zone { id: zj.0, variant: zj.1.variant };
        if i < ns {
            if reg.records()[i].name == reg.records()[j].name {
                lemma_host_name_injective(Host::Sled(reg.sleds[i].0), hj);
            }
        } else {
            let zi = reg.zones[i - ns];
            assert(zi.0.rank() < zj.0.rank());
            if reg.records()[i].name == reg.records()[j].name {
                lemma_host_name_injective(Host::Zone { id: zi.0, variant: zi.1.variant }, hj);
            }
        }
    } else {
        let sj = reg.services[j - ns - nz].0;
        if i < ns {
            lemma_host_and_service_names_differ(Host::Sled(reg.sleds[i].0), sj);
        } else if i < ns + nz {
            let zi = reg.zones[i - ns];
            lemma_host_and_service_names_differ(Host::Zone { id: zi.0, variant: zi.1.variant }, sj);
        } else {
            let si = reg.services[i - ns - nz].0;
            assert(reg.services[i - ns - nz].0.rank() < reg.services[j - ns - nz].0.rank());
            if reg.records()[i].name == reg.records()[j].name {
                lemma_service_name_injective(si, sj);
            }
        }
    }
}

/// Every registered host has exactly one record set in the built zone: it is
/// under the host's DNS name and holds the host's address, and no other
/// record set has that name.
pub proof fn lemma_one_entry_per_host(reg: Registry, host: Host)
    requires
        reg.wf(),
        reg.knows(host),
    ensures
        holds_once(
            reg.records(),
            RecordSet { name: host.name(), records: seq![Record::Aaaa(reg.address(host))] },
        ),
{
    let records = reg.records();
    let set = RecordSet { name: host.name(), records: seq![Record::Aaaa(reg.address(host))] };
    let i = match host {
        Host::Sled(id) => {
            let k = choose|k: int| 0 <= k < reg.sleds.len() && (#[trigger] reg.sleds[k]).0 == id;
            lemma_entry_found(reg.sleds, k);
            k
        },
        Host::Zone { id, variant } => {
            let k = choose|k: int| 0 <= k < reg.zones.len() && (#[trigger] reg.zones[k]).0 == id;
            lemma_entry_found(reg.zones, k);
            reg.sleds.len() + k
        },
    };
    lemma_records_by_place(reg, i);
    assert(records[i] == set);
    assert forall|j: int| 0 <= j < records.len() && (#[trigger] records[j]).name == set.name implies j
        == i by {
        if j < i {
            lemma_names_distinct(reg, j, i);
        } else if i < j {
            lemma_names_distinct(reg, i, j);
        }
    }
}

/// The record sets that hold an address are those of the registered hosts,
/// one each: the first as many as there are sleds and zones. Every other
/// record set holds the service records of one service, at least one.
pub proof fn lemma_host_entries(reg: Registry, i: int)
    requires
        reg.wf(),
        0 <= i < reg.records().len(),
    ensures
        reg.records().len() == reg.sleds.len() + reg.zones.len() + reg.services.len(),
        i < reg.sleds.len() + reg.zones.len() ==> exists|host: Host|
            reg.knows(host) && #[trigger] host.name() == reg.records()[i].name && reg.records()[i].records
                == seq![Record::Aaaa(reg.address(host))],
        i >= reg.sleds.len() + reg.zones.len() ==> reg.records()[i].records.len() > 0 && forall|k: int|
            0 <= k < reg.records()[i].records.len() ==> (#[trigger] reg.records()[i].records[k]) is Srv,
{
    lemma_records_by_place(reg, i);
    let ns = reg.sleds.len() as int;
    let nz = reg.zones.len() as int;
    if i < ns {
        lemma_entry_found(reg.sleds, i);
        let host = Host::Sled(reg.sleds[i].0);
        assert(reg.knows(host) && host.name() == reg.records()[i].name);
    } else if i < ns + nz {
        lemma_entry_found(reg.zones, i - ns);
        let e = reg.zones[i - ns];
        let host = Host::Zone { id: e.0, variant: e.1.variant };
        assert(reg.knows(host) && host.name() == reg.records()[i].name);
    } else {
        assert(reg.backends_wf(reg.services[i - ns - nz].1));
    }
}

/// Every service with a backend has exactly one record set in the built
/// zone: it is under the service's DNS name and holds one service record for
/// each backend of the service and nothing else, first those of its zones,
/// then those of its sleds, each in ascending order of the hosts' identifiers.
pub proof fn lemma_one_record_per_backend(reg: Registry, service: ServiceName)
    requires
        reg.wf(),
        has_key(reg.services, service),
    ensures
        holds_once(
            reg.records(),
            RecordSet { name: service.name(), records: reg.service_records(reg.backends(service)) },
        ),
        reg.service_records(reg.backends(service)).len() == reg.backends(service).zones.len()
            + reg.backends(service).sleds.len(),
        forall|j: int|
            0 <= j < reg.backends(service).zones.len() ==> reg.service_records(
                reg.backends(service),
            )[j] == Registry::srv(
                reg.zone_host((#[trigger] reg.backends(service).zones[j]).0),
                reg.backends(service).zones[j].1,
            ),
        forall|j: int|
            0 <= j < reg.backends(service).sleds.len() ==> reg.service_records(
                reg.backends(service),
            )[reg.backends(service).zones.len() + j] == Registry::srv(
                Host::Sled((#[trigger] reg.backends(service).sleds[j]).0),
                reg.backends(service).sleds[j].1,
            ),
{
    let records = reg.records();
    let k = choose|k: int| 0 <= k < reg.services.len() && (#[trigger] reg.services[k]).0 == service;
    lemma_entry_found(reg.services, k);
    let i = reg.sleds.len() + reg.zones.len() + k;
    lemma_records_by_place(reg, i);
    let set = RecordSet { name: service.name(), records: reg.service_records(reg.backends(service)) };
    assert(records[i] == set);
    assert forall|j: int| 0 <= j < records.len() && (#[trigger] records[j]).name == set.name implies j
        == i by {
        if j < i {
            lemma_names_distinct(reg, j, i);
        } else if i < j {
            lemma_names_distinct(reg, i, j);
        }
    }
}

/// A service without a backend has no record set in the built zone.
pub proof fn lemma_no_backend_no_records(reg: Registry, service: ServiceName, i: int)
    requires
        reg.wf(),
        !has_key(reg.services, service),
        0 <= i < reg.records().len(),
    ensures
        reg.records()[i].name != service.name(),
{
    lemma_records_by_place(reg, i);
    let ns = reg.sleds.len() as int;
    let nz = reg.zones.len() as int;
    if i < ns {
        lemma_host_and_service_names_differ(Host::Sled(reg.sleds[i].0), service);
    } else if i < ns + nz {
        let e = reg.zones[i - ns];
        lemma_host_and_service_names_differ(Host::Zone { id: e.0, variant: e.1.variant }, service);
    } else {
        let other = reg.services[i - ns - nz].0;
        if other.name() == service.name() {
            lemma_service_name_injective(other, service);
        }
    }
}

/// The backends of each service after the backends of `service` were set to `changed`.
proof fn lemma_backends_after_put(reg: Registry, service: ServiceName, changed: Backends)
    requires
        ascending(reg.services),
    ensures
        forall|other: ServiceName| #[trigger]
            (Registry { services: put(reg.services, service, changed), ..reg }).backends(other) == (
            if other == service {
                changed
            } else {
                reg.backends(other)
            }),
{
    lemma_put_lookup(reg.services, service, changed);
}

/// A registry that accepts a registration stays well formed.
pub proof fn lemma_accept_wf(reg: Registry, r: Registration)
    requires
        reg.wf(),
        reg.refusal(r) is None,
    ensures
        reg.accept(r).wf(),
{
    match r {
        Registration::Sled { id, addr } => lemma_with_sled(reg, id, addr),
        Registration::Zone { id, variant, addr } => lemma_with_zone(reg, id, ZoneEntry { variant, addr }),
        Registration::ZoneBackend { service, registry, id, variant, port } => lemma_with_zone_backend(
            reg,
            service,
            id,
            port,
        ),
        Registration::SledBackend { service, registry, id, port } => lemma_with_sled_backend(
            reg,
            service,
            id,
            port,
        ),
    }
}

/// A registry that holds what a set of registrations says, and accepts one
/// more, holds what the set with that one says.
pub proof fn lemma_accept_reflects(reg: Registry, made: Set<Registration>, r: Registration)
    requires
        reg.wf(),
        reg.reflects(made),
        reg.refusal(r) is None,
    ensures
        reg.accept(r).reflects(made.insert(r)),
{
    let next = reg.accept(r);
    let more = made.insert(r);
    match r {
        Registration::Sled { id, addr } => {
            lemma_put_lookup(reg.sleds, id, addr);
            assert forall|service: ServiceName| #[trigger] next.backends(service) == reg.backends(service) by {}
            assert forall|i: Uuid, a: Ipv6Addr| #[trigger]
                more.contains(Registration::Sled { id: i, addr: a }) <==> has_key(next.sleds, i)
                    && value_of(next.sleds, i) == a by {
                assert(made.contains(Registration::Sled { id: i, addr: a }) <==> has_key(reg.sleds, i)
                    && value_of(reg.sleds, i) == a);
            }
            assert(next.reflects(more));
        },
        Registration::Zone { id, variant, addr } => {
            let entry = ZoneEntry { variant, addr };
            lemma_put_lookup(reg.zones, id, entry);
            assert forall|service: ServiceName| #[trigger] next.backends(service) == reg.backends(service) by {}
            assert forall|i: Uuid, v: ZoneVariant, a: Ipv6Addr| #[trigger]
                more.contains(Registration::Zone { id: i, variant: v, addr: a }) <==> has_key(
                    next.zones,
                    i,
                ) && value_of(next.zones, i) == (ZoneEntry { variant: v, addr: a }) by {
                assert(made.contains(Registration::Zone { id: i, variant: v, addr: a }) <==> has_key(
                    reg.zones,
                    i,
                ) && value_of(reg.zones, i) == (ZoneEntry { variant: v, addr: a }));
            }
            assert forall|service: ServiceName, g: Uuid, i: Uuid, v: ZoneVariant, p: u16| #[trigger]
                more.contains(
                    Registration::ZoneBackend { service, registry: g, id: i, variant: v, port: p },
                ) <==> g == next.instance && has_key(next.backends(service).zones, i) && value_of(
                    next.backends(service).zones,
                    i,
                ) == p && value_of(next.zones, i).variant == v by {
                assert(made.contains(
                    Registration::ZoneBackend { service, registry: g, id: i, variant: v, port: p },
                ) <==> g == reg.instance && has_key(reg.backends(service).zones, i) && value_of(
                    reg.backends(service).zones,
                    i,
                ) == p && value_of(reg.zones, i).variant == v);
                if has_key(reg.backends(service).zones, i) {
                    lemma_backends_registered(reg, service);
                    let j = choose|j: int|
                        0 <= j < reg.backends(service).zones.len() && (
                        #[trigger] reg.backends(service).zones[j]).0 == i;
                    assert(has_key(reg.zones, reg.backends(service).zones[j].0));
                }
            }
            assert(next.reflects(more));
        },
        Registration::ZoneBackend { service, registry, id, variant, port } => {
            let held = reg.backends(service);
            let changed = Backends { zones: put(held.zones, id, port), ..held };
            lemma_backends_registered(reg, service);
            lemma_backends_after_put(reg, service, changed);
            lemma_put_lookup(held.zones, id, port);
            assert forall|s: ServiceName, g: Uuid, i: Uuid, v: ZoneVariant, p: u16| #[trigger]
                more.contains(
                    Registration::ZoneBackend { service: s, registry: g, id: i, variant: v, port: p },
                ) <==> g == next.instance && has_key(next.backends(s).zones, i) && value_of(
                    next.backends(s).zones,
                    i,
                ) == p && value_of(next.zones, i).variant == v by {
                assert(made.contains(
                    Registration::ZoneBackend { service: s, registry: g, id: i, variant: v, port: p },
                ) <==> g == reg.instance && has_key(reg.backends(s).zones, i) && value_of(
                    reg.backends(s).zones,
                    i,
                ) == p && value_of(reg.zones, i).variant == v);
                assert(next.backends(s) == if s == service {
                    changed
                } else {
                    reg.backends(s)
                });
            }
            assert forall|s: ServiceName, g: Uuid, i: Uuid, p: u16| #[trigger]
                more.contains(Registration::SledBackend { service: s, registry: g, id: i, port: p })
                    <==> g == next.instance && has_key(next.backends(s).sleds, i) && value_of(
                    next.backends(s).sleds,
                    i,
                ) == p by {
                assert(made.contains(Registration::SledBackend { service: s, registry: g, id: i, port: p })
                    <==> g == reg.instance && has_key(reg.backends(s).sleds, i) && value_of(
                    reg.backends(s).sleds,
                    i,
                ) == p);
                assert(next.backends(s) == if s == service {
                    changed
                } else {
                    reg.backends(s)
                });
            }
            assert(next.reflects(more));
        },
        Registration::SledBackend { service, registry, id, port } => {
            let held = reg.backends(service);
            let changed = Backends { sleds: put(held.sleds, id, port), ..held };
            lemma_backends_registered(reg, service);
            lemma_backends_after_put(reg, service, changed);
            lemma_put_lookup(held.sleds, id, port);
            assert forall|s: ServiceName, g: Uuid, i: Uuid, v: ZoneVariant, p: u16| #[trigger]
                more.contains(
                    Registration::ZoneBackend { service: s, registry: g, id: i, variant: v, port: p },
                ) <==> g == next.instance && has_key(next.backends(s).zones, i) && value_of(
                    next.backends(s).zones,
                    i,
                ) == p && value_of(next.zones, i).variant == v by {
                assert(made.contains(
                    Registration::ZoneBackend { service: s, registry: g, id: i, variant: v, port: p },
                ) <==> g == reg.instance && has_key(reg.backends(s).zones, i) && value_of(
                    reg.backends(s).zones,
                    i,
                ) == p && value_of(reg.zones, i).variant == v);
                assert(next.backends(s) == if s == service {
                    changed
                } else {
                    reg.backends(s)
                });
            }
            assert forall|s: ServiceName, g: Uuid, i: Uuid, p: u16| #[trigger]
                more.contains(Registration::SledBackend { service: s, registry: g, id: i, port: p })
                    <==> g == next.instance && has_key(next.backends(s).sleds, i) && value_of(
                    next.backends(s).sleds,
                    i,
                ) == p by {
                assert(made.contains(Registration::SledBackend { service: s, registry: g, id: i, port: p })
                    <==> g == reg.instance && has_key(reg.backends(s).sleds, i) && value_of(
                    reg.backends(s).sleds,
                    i,
                ) == p);
                assert(next.backends(s) == if s == service {
                    changed
                } else {
                    reg.backends(s)
                });
            }
            assert(next.reflects(more));
        },
    }
}

/// Two well-formed registries of one builder that hold what the same
/// registrations say are the same registry.
pub proof fn lemma_reflects_unique(a: Registry, b: Registry, made: Set<Registration>)
    requires
        a.wf(),
        b.wf(),
        a.instance == b.instance,
        a.reflects(made),
        b.reflects(made),
    ensures
        a == b,
{
    assert forall|id: Uuid| has_key(a.sleds, id) <==> has_key(b.sleds, id) by {
        assert(made.contains(Registration::Sled { id, addr: value_of(a.sleds, id) }) <==> has_key(
            a.sleds,
            id,
        ));
        assert(made.contains(Registration::Sled { id, addr: value_of(b.sleds, id) }) <==> has_key(
            b.sleds,
            id,
        ));
    }
    assert forall|id: Uuid| has_key(a.sleds, id) implies value_of(a.sleds, id) == value_of(
        b.sleds,
        id,
    ) by {
        assert(made.contains(Registration::Sled { id, addr: value_of(a.sleds, id) }));
    }
    assert(as_map(a.sleds) =~= as_map(b.sleds));
    lemma_ascending_unique(a.sleds, b.sleds);

    assert forall|id: Uuid| has_key(a.zones, id) <==> has_key(b.zones, id) by {
        let ea = value_of(a.zones, id);
        let eb = value_of(b.zones, id);
        assert(made.contains(Registration::Zone { id, variant: ea.variant, addr: ea.addr })
            <==> has_key(a.zones, id));
        assert(made.contains(Registration::Zone { id, variant: eb.variant, addr: eb.addr })
            <==> has_key(b.zones, id));
    }
    assert forall|id: Uuid| has_key(a.zones, id) implies value_of(a.zones, id) == value_of(
        b.zones,
        id,
    ) by {
        let ea = value_of(a.zones, id);
        assert(made.contains(Registration::Zone { id, variant: ea.variant, addr: ea.addr }));
    }
    assert(as_map(a.zones) =~= as_map(b.zones));
    lemma_ascending_unique(a.zones, b.zones);

    assert forall|service: ServiceName| a.backends(service) == b.backends(service) by {
        lemma_backends_of_reflected(a, b, made, service);
    }
    assert forall|service: ServiceName| has_key(a.services, service) <==> has_key(
        b.services,
        service,
    ) by {
        lemma_service_held(a, service);
        lemma_service_held(b, service);
    }
    assert forall|service: ServiceName| has_key(a.services, service) implies value_of(
        a.services,
        service,
    ) == value_of(b.services, service) by {
        assert(a.backends(service) == b.backends(service));
    }
    assert(as_map(a.services) =~= as_map(b.services));
    lemma_ascending_unique(a.services, b.services);
}

/// A service has an entry in a well-formed registry exactly if it has a backend.
proof fn lemma_service_held(reg: Registry, service: ServiceName)
    requires
        reg.wf(),
    ensures
        has_key(reg.services, service) <==> reg.backends(service).zones.len() + reg.backends(
            service,
        ).sleds.len() > 0,
{
    if has_key(reg.services, service) {
        let i = choose|i: int| 0 <= i < reg.services.len() && (#[trigger] reg.services[i]).0 == service;
        lemma_entry_found(reg.services, i);
        assert(reg.backends_wf(reg.services[i].1));
    }
}

/// Two well-formed registries of one builder that hold what the same
/// registrations say have the same backends of every service.
proof fn lemma_backends_of_reflected(a: Registry, b: Registry, made: Set<Registration>, service: ServiceName)
    requires
        a.wf(),
        b.wf(),
        a.instance == b.instance,
        a.reflects(made),
        b.reflects(made),
        a.zones == b.zones,
    ensures
        a.backends(service) == b.backends(service),
{
    let (x, y) = (a.backends(service), b.backends(service));
    let registry = a.instance;
    lemma_backends_registered(a, service);
    lemma_backends_registered(b, service);
    assert forall|id: Uuid| has_key(x.zones, id) <==> has_key(y.zones, id) by {
        let variant = value_of(a.zones, id).variant;
        assert(made.contains(
            Registration::ZoneBackend { service, registry, id, variant, port: value_of(x.zones, id) },
        ) <==> has_key(x.zones, id));
        assert(made.contains(
            Registration::ZoneBackend { service, registry, id, variant, port: value_of(y.zones, id) },
        ) <==> has_key(y.zones, id));
    }
    assert forall|id: Uuid| has_key(x.zones, id) implies value_of(x.zones, id) == value_of(
        y.zones,
        id,
    ) by {
        let variant = value_of(a.zones, id).variant;
        assert(made.contains(
            Registration::ZoneBackend { service, registry, id, variant, port: value_of(x.zones, id) },
        ));
    }
    assert(as_map(x.zones) =~= as_map(y.zones));
    lemma_ascending_unique(x.zones, y.zones);

    assert forall|id: Uuid| has_key(x.sleds, id) <==> has_key(y.sleds, id) by {
        assert(made.contains(
            Registration::SledBackend { service, registry, id, port: value_of(x.sleds, id) },
        ) <==> has_key(x.sleds, id));
        assert(made.contains(
            Registration::SledBackend { service, registry, id, port: value_of(y.sleds, id) },
        ) <==> has_key(y.sleds, id));
    }
    assert forall|id: Uuid| has_key(x.sleds, id) implies value_of(x.sleds, id) == value_of(
        y.sleds,
        id,
    ) by {
        assert(made.contains(
            Registration::SledBackend { service, registry, id, port: value_of(x.sleds, id) },
        ));
    }
    assert(as_map(x.sleds) =~= as_map(y.sleds));
    lemma_ascending_unique(x.sleds, y.sleds);
}

/// After registrations that were all accepted, a registry that was empty is
/// well formed and holds exactly what the registrations say.
pub proof fn lemma_replay(instance: Uuid, rs: Seq<Registration>)
    requires
        Registry::empty(instance).accepts_all(rs),
    ensures
        Registry::empty(instance).after(rs).wf(),
        Registry::empty(instance).after(rs).instance == instance,
        Registry::empty(instance).after(rs).reflects(rs.to_set()),
    decreases rs.len(),
{
    let start = Registry::empty(instance);
    if rs.len() == 0 {
        assert forall|service: ServiceName| #[trigger] start.backends(service) == Backends::none() by {}
        assert(start.reflects(rs.to_set()));
    } else {
        let before = rs.drop_last();
        lemma_replay(instance, before);
        let reg = start.after(before);
        lemma_accept_wf(reg, rs.last());
        lemma_accept_reflects(reg, before.to_set(), rs.last());
        assert(rs.to_set() =~= before.to_set().insert(rs.last())) by {
            assert forall|r: Registration| rs.to_set().contains(r) <==> before.to_set().insert(
                rs.last(),
            ).contains(r) by {
                if rs.contains(r) {
                    let i = choose|i: int| 0 <= i < rs.len() && rs[i] == r;
                    if i < rs.len() - 1 {
                        assert(before[i] == r);
                    }
                }
                if before.contains(r) {
                    let i = choose|i: int| 0 <= i < before.len() && before[i] == r;
                    assert(rs[i] == r);
                }
                assert(rs[rs.len() - 1] == rs.last());
            }
        }
    }
}

/// The registration as it is made on the builder `instance`: a backend is
/// named by the handle that this builder gave out for its host.
pub open spec fn rehomed(r: Registration, instance: Uuid) -> Registration {
    match r {
        Registration::ZoneBackend { service, registry, id, variant, port } => Registration::ZoneBackend {
            service,
            registry: instance,
            id,
            variant,
            port,
        },
        Registration::SledBackend { service, registry, id, port } => Registration::SledBackend {
            service,
            registry: instance,
            id,
            port,
        },
        _ => r,
    }
}

/// The registrations `rs` as they are made on the builder `instance`.
pub open spec fn rehomed_all(rs: Seq<Registration>, instance: Uuid) -> Seq<Registration> {
    Seq::new(rs.len(), |i: int| rehomed(rs[i], instance))
}

/// What one builder accepts, another builder that holds the same accepts
/// when it is named by its own handles, and the two hold the same afterwards.
proof fn lemma_rehomed_step(reg: Registry, r: Registration, instance: Uuid)
    requires
        reg.refusal(r) is None,
    ensures
        (Registry { instance, ..reg }).refusal(rehomed(r, instance)) is None,
        (Registry { instance, ..reg }).accept(rehomed(r, instance)) == (Registry {
            instance,
            ..reg.accept(r)
        }),
{
    let other = Registry { instance, ..reg };
    assert forall|service: ServiceName| #[trigger] other.backends(service) == reg.backends(service) by {}
}

/// What an empty builder accepts, another empty builder accepts when it is
/// named by its own handles, and the two hold the same afterwards.
proof fn lemma_rehomed_replay(from: Uuid, rs: Seq<Registration>, instance: Uuid)
    requires
        Registry::empty(from).accepts_all(rs),
    ensures
        Registry::empty(instance).accepts_all(rehomed_all(rs, instance)),
        Registry::empty(instance).after(rehomed_all(rs, instance)) == (Registry {
            instance,
            ..Registry::empty(from).after(rs)
        }),
    decreases rs.len(),
{
    if rs.len() > 0 {
        let before = rs.drop_last();
        lemma_rehomed_replay(from, before, instance);
        assert(rehomed_all(rs, instance).drop_last() =~= rehomed_all(before, instance));
        assert(rehomed_all(rs, instance).last() == rehomed(rs.last(), instance));
        lemma_rehomed_step(Registry::empty(from).after(before), rs.last(), instance);
    }
}

/// Two registries with the same hosts and backends have the same records,
/// whichever builders they belong to.
pub proof fn lemma_records_ignore_instance(a: Registry, b: Registry)
    requires
        a.sleds == b.sleds,
        a.zones == b.zones,
        a.services == b.services,
    ensures
        a.records() == b.records(),
{
    assert(a.sled_sets() =~= b.sled_sets());
    assert(a.zone_sets() =~= b.zone_sets());
    assert forall|i: int| 0 <= i < a.services.len() implies a.service_set(a.services[i])
        == b.service_set(b.services[i]) by {
        let backends = a.services[i].1;
        assert(a.zone_srvs(backends.zones) =~= b.zone_srvs(backends.zones));
        assert(a.service_records(backends) =~= b.service_records(backends));
    }
    assert(a.service_sets() =~= b.service_sets());
}

/// What is built does not depend on the order of the registrations, nor on
/// the builder: two runs of registrations that were all accepted, each on an
/// empty builder and with that builder's handles, and that are the same
/// registrations in some order, leave the two builders with the same hosts
/// and backends, and the same configuration is built from them.
pub proof fn lemma_build_ignores_order(
    one: Uuid,
    first: Seq<Registration>,
    other: Uuid,
    second: Seq<Registration>,
    at: Timestamp,
)
    requires
        Registry::empty(one).accepts_all(first),
        Registry::empty(other).accepts_all(second),
        rehomed_all(first, other).to_set() == second.to_set(),
    ensures
        Registry::empty(one).after(first).sleds == Registry::empty(other).after(second).sleds,
        Registry::empty(one).after(first).zones == Registry::empty(other).after(second).zones,
        Registry::empty(one).after(first).services == Registry::empty(other).after(second).services,
        Registry::empty(one).after(first).config(at) == Registry::empty(other).after(second).config(at),
{
    lemma_rehomed_replay(one, first, other);
    let moved = rehomed_all(first, other);
    lemma_replay(other, moved);
    lemma_replay(other, second);
    lemma_reflects_unique(
        Registry::empty(other).after(moved),
        Registry::empty(other).after(second),
        second.to_set(),
    );
    lemma_records_ignore_instance(
        Registry::empty(one).after(first),
        Registry::empty(other).after(second),
    );
}

/// After registrations on an empty builder that were all accepted, the built
/// zone has exactly one record set for every host among them: it is under the
/// host's DNS name and holds the address that the host was registered with.
pub proof fn lemma_registered_hosts_built(instance: Uuid, rs: Seq<Registration>, i: int)
    requires
        Registry::empty(instance).accepts_all(rs),
        0 <= i < rs.len(),
    ensures
        match rs[i] {
            Registration::Sled { id, addr } => holds_once(
                Registry::empty(instance).after(rs).records(),
                RecordSet { name: Host::Sled(id).name(), records: seq![Record::Aaaa(addr)] },
            ),
            Registration::Zone { id, variant, addr } => holds_once(
                Registry::empty(instance).after(rs).records(),
                RecordSet { name: Host::Zone { id, variant }.name(), records: seq![Record::Aaaa(addr)] },
            ),
            _ => true,
        },
{
    lemma_replay(instance, rs);
    let reg = Registry::empty(instance).after(rs);
    assert(rs.to_set().contains(rs[i])) by {
        assert(rs.contains(rs[i]));
    }
    match rs[i] {
        Registration::Sled { id, addr } => {
            assert(has_key(reg.sleds, id) && value_of(reg.sleds, id) == addr);
            lemma_one_entry_per_host(reg, Host::Sled(id));
        },
        Registration::Zone { id, variant, addr } => {
            assert(has_key(reg.zones, id) && value_of(reg.zones, id) == (ZoneEntry { variant, addr }));
            lemma_one_entry_per_host(reg, Host::Zone { id, variant });
        },
        _ => {},
    }
}

/// A sled that was accepted is turned down when it is registered again, with
/// the same address or another: the error holds the address it has and the
/// address it was to get, and the registry stays as it was.
pub proof fn lemma_sled_twice(reg: Registry, id: Uuid, first: Ipv6Addr, second: Ipv6Addr)
    requires
        reg.wf(),
        reg.refusal(Registration::Sled { id, addr: first }) is None,
    ensures
        reg.with_sled(id, first).refusal(Registration::Sled { id, addr: second }) == Some(
            ConfigError::DuplicateHost {
                previous: HostAddr { host: Host::Sled(id), addr: first },
                attempted: HostAddr { host: Host::Sled(id), addr: second },
            },
        ),
        reg.with_sled(id, first).register(Registration::Sled { id, addr: second }) == reg.with_sled(
            id,
            first,
        ),
{
    lemma_put_lookup(reg.sleds, id, first);
}

/// A zone that was accepted is turned down when its identifier is registered
/// again, with whatever kind and address: the error holds the kind and
/// address it has and those it was to get, and the registry stays as it was.
pub proof fn lemma_zone_twice(reg: Registry, id: Uuid, first: ZoneEntry, second: ZoneEntry)
    requires
        reg.wf(),
        reg.refusal(Registration::Zone { id, variant: first.variant, addr: first.addr }) is None,
    ensures
        reg.with_zone(id, first).refusal(
            Registration::Zone { id, variant: second.variant, addr: second.addr },
        ) == Some(
            ConfigError::DuplicateHost {
                previous: HostAddr { host: Host::Zone { id, variant: first.variant }, addr: first.addr },
                attempted: HostAddr {
                    host: Host::Zone { id, variant: second.variant },
                    addr: second.addr,
                },
            },
        ),
        reg.with_zone(id, first).register(
            Registration::Zone { id, variant: second.variant, addr: second.addr },
        ) == reg.with_zone(id, first),
{
    lemma_put_lookup(reg.zones, id, first);
}

/// A zone that was accepted as a backend of a service is turned down when it
/// is registered for that service again, at the same port or another: the
/// error holds both ports, and the registry stays as it was.
pub proof fn lemma_zone_backend_twice(
    reg: Registry,
    service: ServiceName,
    id: Uuid,
    variant: ZoneVariant,
    first: u16,
    second: u16,
)
    requires
        reg.wf(),
        reg.refusal(
            Registration::ZoneBackend { service, registry: reg.instance, id, variant, port: first },
        ) is None,
    ensures
        reg.with_zone_backend(service, id, first).refusal(
            Registration::ZoneBackend { service, registry: reg.instance, id, variant, port: second },
        ) == Some(
            ConfigError::DuplicateBackend {
                service,
                host: Host::Zone { id, variant },
                previous_port: first,
                attempted_port: second,
            },
        ),
        reg.with_zone_backend(service, id, first).register(
            Registration::ZoneBackend { service, registry: reg.instance, id, variant, port: second },
        ) == reg.with_zone_backend(service, id, first),
{
    let held = reg.backends(service);
    let changed = Backends { zones: put(held.zones, id, first), ..held };
    lemma_backends_registered(reg, service);
    lemma_backends_after_put(reg, service, changed);
    lemma_put_lookup(held.zones, id, first);
    assert(reg.with_zone_backend(service, id, first).backends(service) == changed);
}

/// A sled that was accepted as a backend of a service is turned down when it
/// is registered for that service again, at the same port or another: the
/// error holds both ports, and the registry stays as it was.
pub proof fn lemma_sled_backend_twice(
    reg: Registry,
    service: ServiceName,
    id: Uuid,
    first: u16,
    second: u16,
)
    requires
        reg.wf(),
        reg.refusal(Registration::SledBackend { service, registry: reg.instance, id, port: first })
            is None,
    ensures
        reg.with_sled_backend(service, id, first).refusal(
            Registration::SledBackend { service, registry: reg.instance, id, port: second },
        ) == Some(
            ConfigError::DuplicateBackend {
                service,
                host: Host::Sled(id),
                previous_port: first,
                attempted_port: second,
            },
        ),
        reg.with_sled_backend(service, id, first).register(
            Registration::SledBackend { service, registry: reg.instance, id, port: second },
        ) == reg.with_sled_backend(service, id, first),
{
    let held = reg.backends(service);
    let changed = Backends { sleds: put(held.sleds, id, first), ..held };
    lemma_backends_registered(reg, service);
    lemma_backends_after_put(reg, service, changed);
    lemma_put_lookup(held.sleds, id, first);
    assert(reg.with_sled_backend(service, id, first).backends(service) == changed);
}

/// A handle that another builder gave out is turned down as an unknown host,
/// whatever the two builders hold, and the registry stays as it was.
pub proof fn lemma_foreign_zone_handle(
    reg: Registry,
    service: ServiceName,
    registry: Uuid,
    id: Uuid,
    variant: ZoneVariant,
    port: u16,
)
    requires
        registry != reg.instance,
    ensures
        reg.refusal(Registration::ZoneBackend { service, registry, id, variant, port }) == Some(
            ConfigError::UnknownHostReference { host: Host::Zone { id, variant } },
        ),
        reg.register(Registration::ZoneBackend { service, registry, id, variant, port }) == reg,
{
}

/// A handle that another builder gave out is turned down as an unknown host,
/// whatever the two builders hold, and the registry stays as it was.
pub proof fn lemma_foreign_sled_handle(
    reg: Registry,
    service: ServiceName,
    registry: Uuid,
    id: Uuid,
    port: u16,
)
    requires
        registry != reg.instance,
    ensures
        reg.refusal(Registration::SledBackend { service, registry, id, port }) == Some(
            ConfigError::UnknownHostReference { host: Host::Sled(id) },
        ),
        reg.register(Registration::SledBackend { service, registry, id, port }) == reg,
{
}

/// After registrations on an empty builder that were all accepted, the built
/// zone has exactly one record set for the service of every backend among
/// them, under the service's DNS name, and the service record of that
/// backend is one of its records: priority and weight 0, the port that the
/// backend was registered with, and the host's fully qualified name.
pub proof fn lemma_registered_backends_built(instance: Uuid, rs: Seq<Registration>, i: int)
    requires
        Registry::empty(instance).accepts_all(rs),
        0 <= i < rs.len(),
    ensures
        match rs[i] {
            Registration::ZoneBackend { service, registry, id, variant, port } => {
                let reg = Registry::empty(instance).after(rs);
                let records = reg.service_records(reg.backends(service));
                &&& holds_once(reg.records(), RecordSet { name: service.name(), records })
                &&& records.contains(Registry::srv(Host::Zone { id, variant }, port))
            },
            Registration::SledBackend { service, registry, id, port } => {
                let reg = Registry::empty(instance).after(rs);
                let records = reg.service_records(reg.backends(service));
                &&& holds_once(reg.records(), RecordSet { name: service.name(), records })
                &&& records.contains(Registry::srv(Host::Sled(id), port))
            },
            _ => true,
        },
{
    lemma_replay(instance, rs);
    let reg = Registry::empty(instance).after(rs);
    assert(rs.to_set().contains(rs[i])) by {
        assert(rs.contains(rs[i]));
    }
    match rs[i] {
        Registration::ZoneBackend { service, registry, id, variant, port } => {
            let held = reg.backends(service);
            assert(has_key(held.zones, id) && value_of(held.zones, id) == port && value_of(
                reg.zones,
                id,
            ).variant == variant);
            lemma_service_held(reg, service);
            lemma_one_record_per_backend(reg, service);
            lemma_backends_registered(reg, service);
            let j = choose|j: int| 0 <= j < held.zones.len() && (#[trigger] held.zones[j]).0 == id;
            lemma_entry_found(held.zones, j);
            let records = reg.service_records(held);
            assert(records[j] == Registry::srv(Host::Zone { id, variant }, port));
        },
        Registration::SledBackend { service, registry, id, port } => {
            let held = reg.backends(service);
            assert(has_key(held.sleds, id) && value_of(held.sleds, id) == port);
            lemma_service_held(reg, service);
            lemma_one_record_per_backend(reg, service);
            lemma_backends_registered(reg, service);
            let j = choose|j: int| 0 <= j < held.sleds.len() && (#[trigger] held.sleds[j]).0 == id;
            lemma_entry_found(held.sleds, j);
            let records = reg.service_records(held);
            assert(records[held.zones.len() + j] == Registry::srv(Host::Sled(id), port));
        },
        _ => {},
    }
}

} // verus!
