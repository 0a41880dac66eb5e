//! Names in the control plane's internal DNS zone.
//!
//! Every host and every service of the control plane has one DNS name below
//! the zone [`DNS_ZONE`]. Host names end in `.sled` or `.host`; service names
//! start with an underscore, so the two never meet.

use crate::ident::{lemma_uuid_text_injective, lemma_uuid_text_shape, uuid_text, Uuid};
use crate::ordered::Ranked;
use vstd::prelude::*;
use vstd::string::*;

verus! {

/// Name of the DNS zone that holds the control plane's records.
pub const DNS_ZONE: &'static str = "control-plane.oxide.internal";

/// The kinds of zone that a host name tells apart.
#[derive(Clone, Copy, Debug, PartialEq, Eq, Structural, Hash, PartialOrd, Ord)]
pub enum ZoneVariant {
    /// A zone that runs the switch management daemon. By convention its
    /// identifier is that of the sled it runs on.
    Dendrite,
    /// Any other zone.
    Other,
}

/// A host of the control plane: a sled, or a zone on a sled.
#[derive(Clone, Copy, Debug, PartialEq, Eq, Structural, Hash, PartialOrd, Ord)]
pub enum Host {
    /// The sled with the given identifier.
    Sled(Uuid),
    /// The zone with the given identifier and kind.
    Zone { id: Uuid, variant: ZoneVariant },
}

impl Host {
    /// The identifier of a host.
    pub open spec fn id(self) -> Uuid {
        match self {
            Host::Sled(id) => id,
            Host::Zone { id, variant } => id,
        }
    }

    /// The word for what a host is: `sled` or `zone`.
    pub open spec fn kind(self) -> Seq<char> {
        match self {
            Host::Sled(_) => "sled"@,
            Host::Zone { .. } => "zone"@,
        }
    }

    /// Returns the identifier of this host.
    pub fn uuid(&self) -> (id: Uuid)
        ensures
            id == self.id(),
    {
        match self {
            Host::Sled(id) => *id,
            Host::Zone { id, variant } => *id,
        }
    }

    /// Returns the word for what this host is: `sled` or `zone`.
    pub fn kind_word(&self) -> (word: &'static str)
        ensures
            word@ == self.kind(),
    {
        match self {
            Host::Sled(_) => "sled",
            Host::Zone { .. } => "zone",
        }
    }

    /// The DNS name of a host, relative to the zone.
    pub open spec fn name(self) -> Seq<char> {
        match self {
            Host::Sled(id) => uuid_text(id.0) + ".sled"@,
            Host::Zone { id, variant: ZoneVariant::Dendrite } => "dendrite-"@ + uuid_text(id.0)
                + ".host"@,
            Host::Zone { id, variant: ZoneVariant::Other } => uuid_text(id.0) + ".host"@,
        }
    }

    /// The fully qualified name of a host: its name, a dot and the zone.
    pub open spec fn target(self) -> Seq<char> {
        self.name() + "."@ + DNS_ZONE@
    }

    /// Returns the DNS name of this host, relative to the zone.
    pub fn dns_name(&self) -> (name: String)
        ensures
            name@ == self.name(),
    {
        match self {
            Host::Sled(id) => {
                let mut name = id.text();
                name.append(".sled");
                name
            },
            Host::Zone { id, variant: ZoneVariant::Dendrite } => {
                let mut name = String::from_str("dendrite-");
                let text = id.text();
                name.append(text.as_str());
                name.append(".host");
                name
            },
            Host::Zone { id, variant: ZoneVariant::Other } => {
                let mut name = id.text();
                name.append(".host");
                name
            },
        }
    }

    /// Returns the fully qualified name of this host, as the target of a
    /// service record.
    pub fn srv_target(&self) -> (target: String)
        ensures
            target@ == self.target(),
    {
        let mut target = self.dns_name();
        target.append(".");
        target.append(DNS_ZONE);
        target
    }
}

/// The well-known services of the control plane. The backends of a service
/// stand in for one another; a service whose backends do not is one service
/// per backend, told apart by an identifier.
#[derive(Clone, Copy, Debug, PartialEq, Eq, Structural, Hash, PartialOrd, Ord)]
pub enum ServiceName {
    Clickhouse,
    ClickhouseKeeper,
    Cockroach,
    InternalDns,
    ExternalDns,
    Nexus,
    Oximeter,
    ManagementGatewayService,
    Wicketd,
    Dendrite,
    Tfport,
    CruciblePantry,
    /// The agent of the sled with the given identifier.
    SledAgent(Uuid),
    /// The storage service with the given identifier.
    Crucible(Uuid),
    BoundaryNtp,
    InternalNtp,
    Maghemite,
}

impl ServiceName {
    /// The word that stands for the service in its DNS name.
    pub open spec fn kind(self) -> Seq<char> {
        match self {
            ServiceName::Clickhouse => "clickhouse"@,
            ServiceName::ClickhouseKeeper => "clickhouse-keeper"@,
            ServiceName::Cockroach => "cockroach"@,
            ServiceName::InternalDns => "nameservice"@,
            ServiceName::ExternalDns => "external-dns"@,
            ServiceName::Nexus => "nexus"@,
            ServiceName::Oximeter => "oximeter"@,
            ServiceName::ManagementGatewayService => "mgs"@,
            ServiceName::Wicketd => "wicketd"@,
            ServiceName::Dendrite => "dendrite"@,
            ServiceName::Tfport => "tfport"@,
            ServiceName::CruciblePantry => "crucible-pantry"@,
            ServiceName::SledAgent(_) => "sledagent"@,
            ServiceName::Crucible(_) => "crucible"@,
            ServiceName::BoundaryNtp => "boundary-ntp"@,
            ServiceName::InternalNtp => "internal-ntp"@,
            ServiceName::Maghemite => "maghemite"@,
        }
    }

    /// The identifier that the service carries, if it carries one.
    pub open spec fn instance(self) -> Option<Uuid> {
        match self {
            ServiceName::SledAgent(id) => Some(id),
            ServiceName::Crucible(id) => Some(id),
            _ => None,
        }
    }

    /// The DNS name of a service, relative to the zone: `_kind._tcp`,
    /// followed by a dot and the identifier where the service carries one.
    pub open spec fn name(self) -> Seq<char> {
        match self.instance() {
            Some(id) => "_"@ + self.kind() + "._tcp"@ + "."@ + uuid_text(id.0),
            None => "_"@ + self.kind() + "._tcp"@,
        }
    }

    /// The place of the service's variant in the declaration.
    pub open spec fn ordinal(self) -> int {
        match self {
            ServiceName::Clickhouse => 0,
            ServiceName::ClickhouseKeeper => 1,
            ServiceName::Cockroach => 2,
            ServiceName::InternalDns => 3,
            ServiceName::ExternalDns => 4,
            ServiceName::Nexus => 5,
            ServiceName::Oximeter => 6,
            ServiceName::ManagementGatewayService => 7,
            ServiceName::Wicketd => 8,
            ServiceName::Dendrite => 9,
            ServiceName::Tfport => 10,
            ServiceName::CruciblePantry => 11,
            ServiceName::SledAgent(_) => 12,
            ServiceName::Crucible(_) => 13,
            ServiceName::BoundaryNtp => 14,
            ServiceName::InternalNtp => 15,
            ServiceName::Maghemite => 16,
        }
    }

    fn service_kind(&self) -> (kind: &'static str)
        ensures
            kind@ == self.kind(),
    {
        match self {
            ServiceName::Clickhouse => "clickhouse",
            ServiceName::ClickhouseKeeper => "clickhouse-keeper",
            ServiceName::Cockroach => "cockroach",
            ServiceName::InternalDns => "nameservice",
            ServiceName::ExternalDns => "external-dns",
            ServiceName::Nexus => "nexus",
            ServiceName::Oximeter => "oximeter",
            ServiceName::ManagementGatewayService => "mgs",
            ServiceName::Wicketd => "wicketd",
            ServiceName::Dendrite => "dendrite",
            ServiceName::Tfport => "tfport",
            ServiceName::CruciblePantry => "crucible-pantry",
            ServiceName::SledAgent(_) => "sledagent",
            ServiceName::Crucible(_) => "crucible",
            ServiceName::BoundaryNtp => "boundary-ntp",
            ServiceName::InternalNtp => "internal-ntp",
            ServiceName::Maghemite => "maghemite",
        }
    }

    fn variant_index(&self) -> (index: u8)
        ensures
            index == self.ordinal(),
    {
        match self {
            ServiceName::Clickhouse => 0,
            ServiceName::ClickhouseKeeper => 1,
            ServiceName::Cockroach => 2,
            ServiceName::InternalDns => 3,
            ServiceName::ExternalDns => 4,
            ServiceName::Nexus => 5,
            ServiceName::Oximeter => 6,
            ServiceName::ManagementGatewayService => 7,
            ServiceName::Wicketd => 8,
            ServiceName::Dendrite => 9,
            ServiceName::Tfport => 10,
            ServiceName::CruciblePantry => 11,
            ServiceName::SledAgent(_) => 12,
            ServiceName::Crucible(_) => 13,
            ServiceName::BoundaryNtp => 14,
            ServiceName::InternalNtp => 15,
            ServiceName::Maghemite => 16,
        }
    }

    fn instance_bits(&self) -> (bits: u128)
        ensures
            bits == match self.instance() {
                Some(id) => id.0,
                None => 0,
            },
    {
        match self {
            ServiceName::SledAgent(id) => id.0,
            ServiceName::Crucible(id) => id.0,
            _ => 0,
        }
    }

    /// Returns the DNS name of this service, relative to the zone.
    pub fn dns_name(&self) -> (name: String)
        ensures
            name@ == self.name(),
    {
        let mut name = String::from_str("_");
        name.append(self.service_kind());
        name.append("._tcp");
        match self {
            ServiceName::SledAgent(id) | ServiceName::Crucible(id) => {
                let text = id.text();
                name.append(".");
                name.append(text.as_str());
            },
            _ => {},
        }
        name
    }
}

impl Ranked for ServiceName {
    /// Services are ordered by their variant, then by their identifier.
    open spec fn rank(self) -> int {
        self.ordinal() * 0x1_0000_0000_0000_0000_0000_0000_0000_0000 + match self.instance() {
            Some(id) => id.0 as int,
            None => 0,
        }
    }

    proof fn lemma_rank_determines(a: Self, b: Self) {
    }

    fn precedes(&self, other: &Self) -> (r: bool) {
        let a = self.variant_index();
        let b = other.variant_index();
        a < b || (a == b && self.instance_bits() < other.instance_bits())
    }
}

/// Two hosts with the same name are the same host: the name tells the
/// identifier, a sled from a zone, and the kinds of zone apart.
pub proof fn lemma_host_name_injective(a: Host, b: Host)
    requires
        a.name() == b.name(),
    ensures
        a == b,
{
    reveal_strlit(".sled");
    reveal_strlit(".host");
    reveal_strlit("dendrite-");
    let (x, y) = (a.id().0, b.id().0);
    lemma_uuid_text_shape(x);
    lemma_uuid_text_shape(y);
    let n = a.name();
    assert(a.name().len() == b.name().len());
    match a {
        Host::Sled(_) => {
            assert(n[37] == 's');
            assert(b is Sled);
            assert(n.subrange(0, 36) =~= uuid_text(x));
            assert(n.subrange(0, 36) =~= uuid_text(y));
        },
        Host::Zone { variant: ZoneVariant::Other, .. } => {
            assert(n[37] == 'h');
            assert(b is Zone);
            assert(n.subrange(0, 36) =~= uuid_text(x));
            assert(n.subrange(0, 36) =~= uuid_text(y));
        },
        Host::Zone { variant: ZoneVariant::Dendrite, .. } => {
            assert(n.subrange(9, 45) =~= uuid_text(x));
            assert(n.subrange(9, 45) =~= uuid_text(y));
        },
    }
    lemma_uuid_text_injective(x, y);
}

/// The length of a service's name, and the first letter of its word.
proof fn lemma_service_name_marks(s: ServiceName)
    ensures
        s.name().len() == s.kind().len() + 6 + (if s.instance() is Some { 37int } else { 0 }),
        s.name()[0] == '_',
        s.name()[1] == s.kind()[0],
        s.kind().len() == match s {
            ServiceName::Clickhouse => 10int,
            ServiceName::ClickhouseKeeper => 17,
            ServiceName::Cockroach => 9,
            ServiceName::InternalDns => 11,
            ServiceName::ExternalDns => 12,
            ServiceName::Nexus => 5,
            ServiceName::Oximeter => 8,
            ServiceName::ManagementGatewayService => 3,
            ServiceName::Wicketd => 7,
            ServiceName::Dendrite => 8,
            ServiceName::Tfport => 6,
            ServiceName::CruciblePantry => 15,
            ServiceName::SledAgent(_) => 9,
            ServiceName::Crucible(_) => 8,
            ServiceName::BoundaryNtp => 12,
            ServiceName::InternalNtp => 12,
            ServiceName::Maghemite => 9,
        },
        s.kind()[0] == match s {
            ServiceName::Clickhouse => 'c',
            ServiceName::ClickhouseKeeper => 'c',
            ServiceName::Cockroach => 'c',
            ServiceName::InternalDns => 'n',
            ServiceName::ExternalDns => 'e',
            ServiceName::Nexus => 'n',
            ServiceName::Oximeter => 'o',
            ServiceName::ManagementGatewayService => 'm',
            ServiceName::Wicketd => 'w',
            ServiceName::Dendrite => 'd',
            ServiceName::Tfport => 't',
            ServiceName::CruciblePantry => 'c',
            ServiceName::SledAgent(_) => 's',
            ServiceName::Crucible(_) => 'c',
            ServiceName::BoundaryNtp => 'b',
            ServiceName::InternalNtp => 'i',
            ServiceName::Maghemite => 'm',
        },
{
    reveal_strlit("_");
    reveal_strlit("._tcp");
    reveal_strlit(".");
    reveal_strlit("clickhouse");
    reveal_strlit("clickhouse-keeper");
    reveal_strlit("cockroach");
    reveal_strlit("nameservice");
    reveal_strlit("external-dns");
    reveal_strlit("nexus");
    reveal_strlit("oximeter");
    reveal_strlit("mgs");
    reveal_strlit("wicketd");
    reveal_strlit("dendrite");
    reveal_strlit("tfport");
    reveal_strlit("crucible-pantry");
    reveal_strlit("sledagent");
    reveal_strlit("crucible");
    reveal_strlit("boundary-ntp");
    reveal_strlit("internal-ntp");
    reveal_strlit("maghemite");
    if let Some(id) = s.instance() {
        lemma_uuid_text_shape(id.0);
    }
}

/// Two services with the same name are the same service.
pub proof fn lemma_service_name_injective(a: ServiceName, b: ServiceName)
    requires
        a.name() == b.name(),
    ensures
        a == b,
{
    lemma_service_name_marks(a);
    lemma_service_name_marks(b);
    assert(a.name().len() == b.name().len());
    assert(a.name()[1] == b.name()[1]);
    assert(a.ordinal() == b.ordinal());
    if let (Some(ia), Some(ib)) = (a.instance(), b.instance()) {
        let (x, y) = (ia.0, ib.0);
        lemma_uuid_text_shape(x);
        lemma_uuid_text_shape(y);
        let n = a.name();
        let from = n.len() - 36;
        assert(n.subrange(from, n.len() as int) =~= uuid_text(x));
        assert(n.subrange(from, n.len() as int) =~= uuid_text(y));
        lemma_uuid_text_injective(x, y);
    }
}

/// No host has the name of a service: the name of a service starts with an
/// underscore, the name of a host with a hexadecimal digit or a letter.
pub proof fn lemma_host_and_service_names_differ(host: Host, service: ServiceName)
    ensures
        host.name() != service.name(),
{
    reveal_strlit(".sled");
    reveal_strlit(".host");
    reveal_strlit("dendrite-");
    lemma_service_name_marks(service);
    lemma_uuid_text_shape(host.id().0);
    let n = host.name();
    match host {
        Host::Zone { variant: ZoneVariant::Dendrite, .. } => {
            assert(n[0] == 'd');
        },
        _ => {
            assert(n[0] == uuid_text(host.id().0)[0]);
            lemma_hex_digit_not_underscore(crate::ident::nibble(host.id().0, 0) as int);
        },
    }
}

proof fn lemma_hex_digit_not_underscore(n: int)
    ensures
        crate::text::hex_digit(n) != '_' || !(0 <= n < 16),
{
}

} // verus!
