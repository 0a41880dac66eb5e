use control_plane::ident::Uuid;
use control_plane::names::{Host, ServiceName, ZoneVariant, DNS_ZONE};

#[test]
fn display_srv_service() {
    assert_eq!(ServiceName::Clickhouse.dns_name(), "_clickhouse._tcp",);
    assert_eq!(
        ServiceName::ClickhouseKeeper.dns_name(),
        "_clickhouse-keeper._tcp",
    );
    assert_eq!(ServiceName::Cockroach.dns_name(), "_cockroach._tcp",);
    assert_eq!(ServiceName::InternalDns.dns_name(), "_nameservice._tcp",);
    assert_eq!(ServiceName::Nexus.dns_name(), "_nexus._tcp",);
    assert_eq!(ServiceName::Oximeter.dns_name(), "_oximeter._tcp",);
    assert_eq!(ServiceName::Dendrite.dns_name(), "_dendrite._tcp",);
    assert_eq!(
        ServiceName::CruciblePantry.dns_name(),
        "_crucible-pantry._tcp",
    );
    let uuid = Uuid::nil();
    assert_eq!(
        ServiceName::Crucible(uuid).dns_name(),
        "_crucible._tcp.00000000-0000-0000-0000-000000000000",
    );
    assert_eq!(
        ServiceName::SledAgent(uuid).dns_name(),
        "_sledagent._tcp.00000000-0000-0000-0000-000000000000",
    );
}

#[test]
fn display_hosts() {
    let uuid = Uuid::nil();
    assert_eq!(
        Host::Sled(uuid).dns_name(),
        "00000000-0000-0000-0000-000000000000.sled",
    );
    assert_eq!(
        Host::Zone { id: uuid, variant: ZoneVariant::Other }.dns_name(),
        "00000000-0000-0000-0000-000000000000.host",
    );
    assert_eq!(
        Host::Zone { id: uuid, variant: ZoneVariant::Dendrite }.dns_name(),
        "dendrite-00000000-0000-0000-0000-000000000000.host",
    );
}

#[test]
fn remaining_service_names() {
    assert_eq!(ServiceName::ExternalDns.dns_name(), "_external-dns._tcp");
    assert_eq!(ServiceName::ManagementGatewayService.dns_name(), "_mgs._tcp");
    assert_eq!(ServiceName::Wicketd.dns_name(), "_wicketd._tcp");
    assert_eq!(ServiceName::Tfport.dns_name(), "_tfport._tcp");
    assert_eq!(ServiceName::BoundaryNtp.dns_name(), "_boundary-ntp._tcp");
    assert_eq!(ServiceName::InternalNtp.dns_name(), "_internal-ntp._tcp");
    assert_eq!(ServiceName::Maghemite.dns_name(), "_maghemite._tcp");
}

#[test]
fn uuid_text_is_hyphenated_lower_case_hex() {
    let id = Uuid::from_u128(0xa1a2a3a4_b1b2_c1c2_d1d2_d3d4d5d6d7d8);
    assert_eq!(id.text(), "a1a2a3a4-b1b2-c1c2-d1d2-d3d4d5d6d7d8");
    assert_eq!(id.as_u128(), 0xa1a2a3a4_b1b2_c1c2_d1d2_d3d4d5d6d7d8);
    assert_eq!(Uuid::from_u128(0x0123456789abcdef_fedcba9876543210).text(), "01234567-89ab-cdef-fedc-ba9876543210");
    assert_eq!(Uuid::from_u128(u128::MAX).text(), "ffffffff-ffff-ffff-ffff-ffffffffffff");
}

#[test]
fn uuid_text_agrees_with_parsing() {
    let parsed = uuid::Uuid::parse_str("001de000-51ed-4000-8000-000000000001").unwrap();
    assert_eq!(Uuid::from_u128(parsed.as_u128()).text(), "001de000-51ed-4000-8000-000000000001");
}

#[test]
fn srv_targets_are_fully_qualified() {
    let id = Uuid::from_u128(1);
    assert_eq!(DNS_ZONE, "control-plane.oxide.internal");
    assert_eq!(
        Host::Sled(id).srv_target(),
        "00000000-0000-0000-0000-000000000001.sled.control-plane.oxide.internal"
    );
    assert_eq!(
        Host::Zone { id, variant: ZoneVariant::Dendrite }.srv_target(),
        "dendrite-00000000-0000-0000-0000-000000000001.host.control-plane.oxide.internal"
    );
}
