use control_plane::addr::Ipv6Addr;
use control_plane::config::DnsConfigBuilder;
use control_plane::error::{ConfigError, HostAddr};
use control_plane::ident::Uuid;
use control_plane::names::{Host, ServiceName, ZoneVariant, DNS_ZONE};
use control_plane::records::{DnsConfigParams, DnsRecord, DnsRecordSet, Srv, Timestamp};
use std::collections::BTreeMap;

const SLED1_UUID: &'static str = "001de000-51ed-4000-8000-000000000001";
const SLED2_UUID: &'static str = "001de000-51ed-4000-8000-000000000002";
const ZONE1_UUID: &'static str = "001de000-c04e-4000-8000-000000000001";
const ZONE2_UUID: &'static str = "001de000-c04e-4000-8000-000000000002";
const ZONE3_UUID: &'static str = "001de000-c04e-4000-8000-000000000003";
const ZONE4_UUID: &'static str = "001de000-c04e-4000-8000-000000000004";
const SLED1_IP: Ipv6Addr = Ipv6Addr { segments: [0, 0, 0, 0, 0, 0, 0, 1] };
const SLED2_IP: Ipv6Addr = Ipv6Addr { segments: [0, 0, 0, 0, 0, 0, 0, 2] };
const ZONE1_IP: Ipv6Addr = Ipv6Addr { segments: [0, 0, 0, 0, 0, 0, 1, 1] };
const ZONE2_IP: Ipv6Addr = Ipv6Addr { segments: [0, 0, 0, 0, 0, 0, 1, 2] };
const ZONE3_IP: Ipv6Addr = Ipv6Addr { segments: [0, 0, 0, 0, 0, 0, 1, 3] };
const ZONE4_IP: Ipv6Addr = Ipv6Addr { segments: [0, 0, 0, 0, 0, 0, 1, 4] };

const EXPECTED_OUTPUT: &'static str = r#"builder: "empty"
{}
builder: "hosts_only"
{
  "001de000-51ed-4000-8000-000000000001.sled": [
    {
      "type": "AAAA",
      "data": "::1"
    }
  ],
  "001de000-51ed-4000-8000-000000000002.sled": [
    {
      "type": "AAAA",
      "data": "::2"
    }
  ]
}
builder: "zones_only"
{
  "001de000-c04e-4000-8000-000000000001.host": [
    {
      "type": "AAAA",
      "data": "::1:1"
    }
  ],
  "001de000-c04e-4000-8000-000000000002.host": [
    {
      "type": "AAAA",
      "data": "::1:2"
    }
  ]
}
builder: "non_trivial"
{
  "001de000-51ed-4000-8000-000000000001.sled": [
    {
      "type": "AAAA",
      "data": "::1"
    }
  ],
  "001de000-51ed-4000-8000-000000000002.sled": [
    {
      "type": "AAAA",
      "data": "::2"
    }
  ],
  "001de000-c04e-4000-8000-000000000001.host": [
    {
      "type": "AAAA",
      "data": "::1:1"
    }
  ],
  "001de000-c04e-4000-8000-000000000002.host": [
    {
      "type": "AAAA",
      "data": "::1:2"
    }
  ],
  "001de000-c04e-4000-8000-000000000003.host": [
    {
      "type": "AAAA",
      "data": "::1:3"
    }
  ],
  "001de000-c04e-4000-8000-000000000004.host": [
    {
      "type": "AAAA",
      "data": "::1:4"
    }
  ],
  "_nexus._tcp": [
    {
      "type": "SRV",
      "data": {
        "prio": 0,
        "weight": 0,
        "port": 123,
        "target": "001de000-c04e-4000-8000-000000000001.host.control-plane.oxide.internal"
      }
    },
    {
      "type": "SRV",
      "data": {
        "prio": 0,
        "weight": 0,
        "port": 124,
        "target": "001de000-c04e-4000-8000-000000000002.host.control-plane.oxide.internal"
      }
    }
  ],
  "_oximeter._tcp": [
    {
      "type": "SRV",
      "data": {
        "prio": 0,
        "weight": 0,
        "port": 125,
        "target": "001de000-c04e-4000-8000-000000000002.host.control-plane.oxide.internal"
      }
    },
    {
      "type": "SRV",
      "data": {
        "prio": 0,
        "weight": 0,
        "port": 126,
        "target": "001de000-c04e-4000-8000-000000000003.host.control-plane.oxide.internal"
      }
    }
  ],
  "_sledagent._tcp.001de000-51ed-4000-8000-000000000001": [
    {
      "type": "SRV",
      "data": {
        "prio": 0,
        "weight": 0,
        "port": 123,
        "target": "001de000-51ed-4000-8000-000000000001.sled.control-plane.oxide.internal"
      }
    }
  ]
}
"#;

fn parse(text: &str) -> Uuid {
    Uuid::from_u128(uuid::Uuid::parse_str(text).unwrap().as_u128())
}

fn aaaa(addr: Ipv6Addr) -> Vec<DnsRecord> {
    vec![DnsRecord::Aaaa(addr)]
}

fn srv(port: u16, target: &str) -> DnsRecord {
    DnsRecord::Srv(Srv { prio: 0, weight: 0, port, target: target.to_string() })
}

fn set(name: &str, records: Vec<DnsRecord>) -> DnsRecordSet {
    DnsRecordSet { name: name.to_string(), records }
}

fn by_name(config: &DnsConfigParams) -> BTreeMap<String, Vec<DnsRecord>> {
    let mut sorted = BTreeMap::new();
    for set in &config.zones[0].records {
        let previous = sorted.insert(set.name.clone(), set.records.clone());
        assert!(previous.is_none(), "name {} occurs twice", set.name);
    }
    sorted
}

fn render_record(record: &DnsRecord) -> String {
    match record {
        DnsRecord::Aaaa(addr) => format!(
            "    {{\n      \"type\": \"AAAA\",\n      \"data\": \"{}\"\n    }}",
            addr.text()
        ),
        DnsRecord::Srv(srv) => format!(
            "    {{\n      \"type\": \"SRV\",\n      \"data\": {{\n        \"prio\": {},\n        \"weight\": {},\n        \"port\": {},\n        \"target\": \"{}\"\n      }}\n    }}",
            srv.prio, srv.weight, srv.port, srv.target
        ),
    }
}

fn render(records: &BTreeMap<String, Vec<DnsRecord>>) -> String {
    if records.is_empty() {
        return "{}".to_string();
    }
    let mut names = Vec::new();
    for (name, list) in records {
        let rendered: Vec<String> = list.iter().map(render_record).collect();
        names.push(format!("  \"{}\": [\n{}\n  ]", name, rendered.join(",\n")));
    }
    format!("{{\n{}\n}}", names.join(",\n"))
}

#[test]
fn test_builder_output() {
    let mut output = String::new();

    let sled1_uuid: Uuid = parse(SLED1_UUID);
    let sled2_uuid: Uuid = parse(SLED2_UUID);
    let zone1_uuid: Uuid = parse(ZONE1_UUID);
    let zone2_uuid: Uuid = parse(ZONE2_UUID);
    let zone3_uuid: Uuid = parse(ZONE3_UUID);
    let zone4_uuid: Uuid = parse(ZONE4_UUID);

    let builder_empty = DnsConfigBuilder::new();

    let builder_hosts_only = {
        let mut b = DnsConfigBuilder::new();
        b.host_sled(sled1_uuid, SLED1_IP).unwrap();
        b.host_sled(sled2_uuid, SLED2_IP).unwrap();
        b
    };

    let builder_zones_only = {
        let mut b = DnsConfigBuilder::new();
        b.host_zone(zone1_uuid, ZONE1_IP).unwrap();
        b.host_zone(zone2_uuid, ZONE2_IP).unwrap();
        b
    };

    let builder_non_trivial = {
        let mut b = DnsConfigBuilder::new();

        // Some hosts
        let sled1 = b.host_sled(sled1_uuid, SLED1_IP).unwrap();
        b.host_sled(sled2_uuid, SLED2_IP).unwrap();

        // Some zones (including some not used by services)
        let zone1 = b.host_zone(zone1_uuid, ZONE1_IP).unwrap();
        let zone2 = b.host_zone(zone2_uuid, ZONE2_IP).unwrap();
        let zone3 = b.host_zone(zone3_uuid, ZONE3_IP).unwrap();
        let _ = b.host_zone(zone4_uuid, ZONE4_IP).unwrap();

        // A service with two backends on two zones using two different
        // ports
        b.service_backend_zone(ServiceName::Nexus, &zone1, 123).unwrap();
        b.service_backend_zone(ServiceName::Nexus, &zone2, 124).unwrap();

        // Another service, using one of the same zones (so the same zone is
        // used in two services)
        b.service_backend_zone(ServiceName::Oximeter, &zone2, 125).unwrap();
        b.service_backend_zone(ServiceName::Oximeter, &zone3, 126).unwrap();

        // A sharded service
        b.service_backend_sled(ServiceName::SledAgent(sled1_uuid), &sled1, 123).unwrap();

        b
    };

    for (label, builder) in [
        ("empty", builder_empty),
        ("hosts_only", builder_hosts_only),
        ("zones_only", builder_zones_only),
        ("non_trivial", builder_non_trivial),
    ] {
        let config = builder.build();
        assert_eq!(config.generation, 1);
        assert_eq!(config.zones.len(), 1);
        assert_eq!(config.zones[0].zone_name, DNS_ZONE);
        output.push_str(&format!("builder: {:?}\n", label));
        // Sort the records for stability.
        let records = by_name(&config);
        output.push_str(&render(&records));
        output.push_str("\n");
    }

    assert_eq!(output, EXPECTED_OUTPUT);
}

#[test]
fn test_builder_errors() {
    let sled1_uuid: Uuid = parse(SLED1_UUID);
    let zone1_uuid: Uuid = parse(ZONE1_UUID);

    // Duplicate sled, with both the same IP and a different one
    let mut builder = DnsConfigBuilder::new();
    builder.host_sled(sled1_uuid, SLED1_IP).unwrap();
    let error = builder.host_sled(sled1_uuid, SLED1_IP).unwrap_err();
    assert_eq!(
        error.message(),
        "multiple definitions for sled \
        001de000-51ed-4000-8000-000000000001 (previously ::1, now ::1)"
    );
    let error = builder.host_sled(sled1_uuid, SLED2_IP).unwrap_err();
    assert_eq!(
        error.message(),
        "multiple definitions for sled \
        001de000-51ed-4000-8000-000000000001 (previously ::1, \
        now ::2)"
    );

    // Duplicate zone, with both the same IP and a different one.
    let mut builder = DnsConfigBuilder::new();
    builder.host_zone(zone1_uuid, ZONE1_IP).unwrap();
    let error = builder.host_zone(zone1_uuid, ZONE1_IP).unwrap_err();
    assert_eq!(
        error.message(),
        "multiple definitions for zone \
        001de000-c04e-4000-8000-000000000001 (previously ::1:1, \
        now ::1:1)"
    );
    let error = builder.host_zone(zone1_uuid, ZONE2_IP).unwrap_err();
    assert_eq!(
        error.message(),
        "multiple definitions for zone \
        001de000-c04e-4000-8000-000000000001 (previously ::1:1, \
        now ::1:2)"
    );

    // Specify an undefined zone or sled.  (This requires a second builder.)
    let mut builder1 = DnsConfigBuilder::new();
    let zone = builder1.host_zone(zone1_uuid, ZONE1_IP).unwrap();
    let sled = builder1.host_sled(sled1_uuid, SLED1_IP).unwrap();
    let mut builder2 = DnsConfigBuilder::new();
    let error = builder2.service_backend_zone(ServiceName::Oximeter, &zone, 123).unwrap_err();
    assert_eq!(
        error.message(),
        "zone 001de000-c04e-4000-8000-000000000001 has not been defined"
    );
    let error = builder2.service_backend_sled(ServiceName::Oximeter, &sled, 123).unwrap_err();
    assert_eq!(
        error.message(),
        "sled 001de000-51ed-4000-8000-000000000001 has not been defined"
    );

    // Duplicate service backend, with both the same port and a different
    // one
    let mut builder = DnsConfigBuilder::new();
    let zone = builder.host_zone(zone1_uuid, ZONE1_IP).unwrap();
    builder.service_backend_zone(ServiceName::Oximeter, &zone, 123).unwrap();
    let error = builder.service_backend_zone(ServiceName::Oximeter, &zone, 123).unwrap_err();
    assert_eq!(
        error.message(),
        "service _oximeter._tcp: zone \
        001de000-c04e-4000-8000-000000000001: registered twice \
        (previously port 123, now 123)"
    );
    let error = builder.service_backend_zone(ServiceName::Oximeter, &zone, 456).unwrap_err();
    assert_eq!(
        error.message(),
        "service _oximeter._tcp: zone \
        001de000-c04e-4000-8000-000000000001: registered twice \
        (previously port 123, now 456)"
    );
}

#[test]
fn one_sled_builds_one_address_record() {
    let s1 = parse(SLED1_UUID);
    let mut b = DnsConfigBuilder::new();
    b.host_sled(s1, SLED1_IP).unwrap();
    let config = b.build();
    assert_eq!(config.generation, 1);
    assert_eq!(
        config.zones[0].records,
        vec![set("001de000-51ed-4000-8000-000000000001.sled", aaaa(SLED1_IP))]
    );
    let srv_count = config.zones[0]
        .records
        .iter()
        .flat_map(|s| s.records.iter())
        .filter(|r| matches!(r, DnsRecord::Srv(_)))
        .count();
    assert_eq!(srv_count, 0);
}

#[test]
fn zone_with_service_builds_address_and_service_records() {
    let z1 = parse(ZONE1_UUID);
    let mut b = DnsConfigBuilder::new();
    let zone = b.host_zone(z1, ZONE1_IP).unwrap();
    b.service_backend_zone(ServiceName::Nexus, &zone, 123).unwrap();
    let config = b.build();
    assert_eq!(
        config.zones[0].records,
        vec![
            set("001de000-c04e-4000-8000-000000000001.host", aaaa(ZONE1_IP)),
            set(
                "_nexus._tcp",
                vec![srv(123, "001de000-c04e-4000-8000-000000000001.host.control-plane.oxide.internal")]
            ),
        ]
    );
}

#[test]
fn dendrite_zone_and_sled_share_an_identifier() {
    let d1 = parse(SLED1_UUID);
    let mut b = DnsConfigBuilder::new();
    let zone = b.host_dendrite(d1, ZONE1_IP).unwrap();
    let sled = b.host_sled(d1, SLED1_IP).unwrap();
    assert_eq!(zone.dns_name(), "dendrite-001de000-51ed-4000-8000-000000000001.host");
    assert_eq!(sled.dns_name(), "001de000-51ed-4000-8000-000000000001.sled");
    let config = b.build();
    assert_eq!(
        config.zones[0].records,
        vec![
            set("001de000-51ed-4000-8000-000000000001.sled", aaaa(SLED1_IP)),
            set("dendrite-001de000-51ed-4000-8000-000000000001.host", aaaa(ZONE1_IP)),
        ]
    );
}

#[test]
fn empty_builder_builds_an_empty_zone() {
    let stamp = Timestamp { secs: 10, nanos: 20 };
    let config = DnsConfigBuilder::new().build_at(stamp);
    assert_eq!(config.generation, 1);
    assert_eq!(config.time_created, stamp);
    assert_eq!(config.zones.len(), 1);
    assert_eq!(config.zones[0].zone_name, "control-plane.oxide.internal");
    assert!(config.zones[0].records.is_empty());
}

#[test]
fn build_stamps_the_current_time() {
    let config = DnsConfigBuilder::new().build();
    assert_eq!(config.generation, 1);
    assert!(config.zones[0].records.is_empty());
    // Later than 2020-01-01T00:00:00Z.
    assert!(config.time_created.secs > 1_577_836_800);
    assert!(config.time_created.nanos < 2_000_000_000);
}

#[test]
fn one_entry_per_host_whatever_the_order() {
    let stamp = Timestamp { secs: 0, nanos: 0 };
    let mut forward = DnsConfigBuilder::new();
    forward.host_sled(parse(SLED1_UUID), SLED1_IP).unwrap();
    forward.host_sled(parse(SLED2_UUID), SLED2_IP).unwrap();
    forward.host_zone(parse(ZONE1_UUID), ZONE1_IP).unwrap();
    forward.host_dendrite(parse(ZONE2_UUID), ZONE2_IP).unwrap();
    let mut backward = DnsConfigBuilder::new();
    backward.host_dendrite(parse(ZONE2_UUID), ZONE2_IP).unwrap();
    backward.host_zone(parse(ZONE1_UUID), ZONE1_IP).unwrap();
    backward.host_sled(parse(SLED2_UUID), SLED2_IP).unwrap();
    backward.host_sled(parse(SLED1_UUID), SLED1_IP).unwrap();
    let expected = vec![
        set("001de000-51ed-4000-8000-000000000001.sled", aaaa(SLED1_IP)),
        set("001de000-51ed-4000-8000-000000000002.sled", aaaa(SLED2_IP)),
        set("001de000-c04e-4000-8000-000000000001.host", aaaa(ZONE1_IP)),
        set("dendrite-001de000-c04e-4000-8000-000000000002.host", aaaa(ZONE2_IP)),
    ];
    assert_eq!(forward.build_at(stamp).zones[0].records, expected);
    assert_eq!(backward.build_at(stamp).zones[0].records, expected);
}

#[test]
fn build_does_not_depend_on_registration_order() {
    let stamp = Timestamp { secs: 1, nanos: 2 };
    let (s1, s2) = (parse(SLED1_UUID), parse(SLED2_UUID));
    let (z1, z2, z3) = (parse(ZONE1_UUID), parse(ZONE2_UUID), parse(ZONE3_UUID));

    let mut a = DnsConfigBuilder::new();
    let a_s1 = a.host_sled(s1, SLED1_IP).unwrap();
    let a_s2 = a.host_sled(s2, SLED2_IP).unwrap();
    let a_z1 = a.host_zone(z1, ZONE1_IP).unwrap();
    let a_z2 = a.host_zone(z2, ZONE2_IP).unwrap();
    let a_z3 = a.host_zone(z3, ZONE3_IP).unwrap();
    a.service_backend_zone(ServiceName::Nexus, &a_z1, 123).unwrap();
    a.service_backend_zone(ServiceName::Nexus, &a_z2, 124).unwrap();
    a.service_backend_zone(ServiceName::Nexus, &a_z3, 125).unwrap();
    a.service_backend_zone(ServiceName::Crucible(z1), &a_z1, 1).unwrap();
    a.service_backend_zone(ServiceName::Crucible(z2), &a_z2, 2).unwrap();
    a.service_backend_sled(ServiceName::SledAgent(s1), &a_s1, 10).unwrap();
    a.service_backend_sled(ServiceName::SledAgent(s2), &a_s2, 11).unwrap();
    a.service_backend_sled(ServiceName::InternalNtp, &a_s2, 12).unwrap();
    a.service_backend_sled(ServiceName::InternalNtp, &a_s1, 13).unwrap();

    let mut b = DnsConfigBuilder::new();
    let b_z3 = b.host_zone(z3, ZONE3_IP).unwrap();
    b.service_backend_zone(ServiceName::Nexus, &b_z3, 125).unwrap();
    let b_s2 = b.host_sled(s2, SLED2_IP).unwrap();
    b.service_backend_sled(ServiceName::InternalNtp, &b_s2, 12).unwrap();
    let b_z2 = b.host_zone(z2, ZONE2_IP).unwrap();
    b.service_backend_zone(ServiceName::Crucible(z2), &b_z2, 2).unwrap();
    let b_z1 = b.host_zone(z1, ZONE1_IP).unwrap();
    let b_s1 = b.host_sled(s1, SLED1_IP).unwrap();
    b.service_backend_sled(ServiceName::InternalNtp, &b_s1, 13).unwrap();
    b.service_backend_sled(ServiceName::SledAgent(s2), &b_s2, 11).unwrap();
    b.service_backend_zone(ServiceName::Nexus, &b_z2, 124).unwrap();
    b.service_backend_zone(ServiceName::Crucible(z1), &b_z1, 1).unwrap();
    b.service_backend_sled(ServiceName::SledAgent(s1), &b_s1, 10).unwrap();
    b.service_backend_zone(ServiceName::Nexus, &b_z1, 123).unwrap();

    let from_a = a.build_at(stamp);
    let from_b = b.build_at(stamp);
    assert_eq!(from_a, from_b);

    let names: Vec<&str> = from_a.zones[0].records.iter().map(|s| s.name.as_str()).collect();
    assert_eq!(
        names,
        vec![
            "001de000-51ed-4000-8000-000000000001.sled",
            "001de000-51ed-4000-8000-000000000002.sled",
            "001de000-c04e-4000-8000-000000000001.host",
            "001de000-c04e-4000-8000-000000000002.host",
            "001de000-c04e-4000-8000-000000000003.host",
            "_nexus._tcp",
            "_sledagent._tcp.001de000-51ed-4000-8000-000000000001",
            "_sledagent._tcp.001de000-51ed-4000-8000-000000000002",
            "_crucible._tcp.001de000-c04e-4000-8000-000000000001",
            "_crucible._tcp.001de000-c04e-4000-8000-000000000002",
            "_internal-ntp._tcp",
        ]
    );
    assert_eq!(
        from_a.zones[0].records[10].records,
        vec![
            srv(13, "001de000-51ed-4000-8000-000000000001.sled.control-plane.oxide.internal"),
            srv(12, "001de000-51ed-4000-8000-000000000002.sled.control-plane.oxide.internal"),
        ]
    );
}

#[test]
fn duplicate_sled_leaves_the_builder_as_it_was() {
    let stamp = Timestamp { secs: 0, nanos: 0 };
    let s1 = parse(SLED1_UUID);
    let mut b = DnsConfigBuilder::new();
    b.host_sled(s1, SLED1_IP).unwrap();
    let same = b.host_sled(s1, SLED1_IP).unwrap_err();
    let other = b.host_sled(s1, SLED2_IP).unwrap_err();
    assert_eq!(
        same,
        ConfigError::DuplicateHost {
            previous: HostAddr { host: Host::Sled(s1), addr: SLED1_IP },
            attempted: HostAddr { host: Host::Sled(s1), addr: SLED1_IP },
        }
    );
    assert_eq!(
        other,
        ConfigError::DuplicateHost {
            previous: HostAddr { host: Host::Sled(s1), addr: SLED1_IP },
            attempted: HostAddr { host: Host::Sled(s1), addr: SLED2_IP },
        }
    );
    assert_eq!(
        b.build_at(stamp).zones[0].records,
        vec![set("001de000-51ed-4000-8000-000000000001.sled", aaaa(SLED1_IP))]
    );
}

#[test]
fn zone_identifier_is_taken_whatever_the_kind() {
    let stamp = Timestamp { secs: 0, nanos: 0 };
    let z1 = parse(ZONE1_UUID);
    let mut b = DnsConfigBuilder::new();
    b.host_dendrite(z1, ZONE1_IP).unwrap();
    let error = b.host_zone(z1, ZONE2_IP).unwrap_err();
    assert_eq!(
        error,
        ConfigError::DuplicateHost {
            previous: HostAddr {
                host: Host::Zone { id: z1, variant: ZoneVariant::Dendrite },
                addr: ZONE1_IP
            },
            attempted: HostAddr {
                host: Host::Zone { id: z1, variant: ZoneVariant::Other },
                addr: ZONE2_IP
            },
        }
    );
    assert_eq!(
        b.build_at(stamp).zones[0].records,
        vec![set("dendrite-001de000-c04e-4000-8000-000000000001.host", aaaa(ZONE1_IP))]
    );
}

#[test]
fn handle_of_another_builder_is_unknown() {
    let (s1, z1) = (parse(SLED1_UUID), parse(ZONE1_UUID));
    let mut first = DnsConfigBuilder::new();
    let zone = first.host_zone(z1, ZONE1_IP).unwrap();
    let sled = first.host_sled(s1, SLED1_IP).unwrap();
    let mut second = DnsConfigBuilder::new();
    assert_eq!(
        second.service_backend_zone(ServiceName::Nexus, &zone, 1),
        Err(ConfigError::UnknownHostReference {
            host: Host::Zone { id: z1, variant: ZoneVariant::Other }
        })
    );
    assert_eq!(
        second.service_backend_sled(ServiceName::Nexus, &sled, 1),
        Err(ConfigError::UnknownHostReference { host: Host::Sled(s1) })
    );
    // A zone of the same identifier but of another kind is not the zone
    // that the handle stands for.
    second.host_dendrite(z1, ZONE1_IP).unwrap();
    assert_eq!(
        second.service_backend_zone(ServiceName::Nexus, &zone, 1),
        Err(ConfigError::UnknownHostReference {
            host: Host::Zone { id: z1, variant: ZoneVariant::Other }
        })
    );
    assert!(second.build().zones[0].records.len() == 1);
}

#[test]
fn duplicate_backend_reports_both_ports() {
    let stamp = Timestamp { secs: 0, nanos: 0 };
    let (s1, z1) = (parse(SLED1_UUID), parse(ZONE1_UUID));
    let mut b = DnsConfigBuilder::new();
    let zone = b.host_zone(z1, ZONE1_IP).unwrap();
    let sled = b.host_sled(s1, SLED1_IP).unwrap();
    b.service_backend_zone(ServiceName::Oximeter, &zone, 123).unwrap();
    b.service_backend_sled(ServiceName::SledAgent(s1), &sled, 7).unwrap();
    assert_eq!(
        b.service_backend_zone(ServiceName::Oximeter, &zone, 456),
        Err(ConfigError::DuplicateBackend {
            service: ServiceName::Oximeter,
            host: Host::Zone { id: z1, variant: ZoneVariant::Other },
            previous_port: 123,
            attempted_port: 456,
        })
    );
    let error = b.service_backend_sled(ServiceName::SledAgent(s1), &sled, 65535).unwrap_err();
    assert_eq!(
        error,
        ConfigError::DuplicateBackend {
            service: ServiceName::SledAgent(s1),
            host: Host::Sled(s1),
            previous_port: 7,
            attempted_port: 65535,
        }
    );
    assert_eq!(
        error.message(),
        "service _sledagent._tcp.001de000-51ed-4000-8000-000000000001: sled \
        001de000-51ed-4000-8000-000000000001: registered twice \
        (previously port 7, now 65535)"
    );
    // The same zone may serve another service, and the refused ports are
    // not in the records.
    b.service_backend_zone(ServiceName::Nexus, &zone, 456).unwrap();
    let config = b.build_at(stamp);
    assert_eq!(
        config.zones[0].records[3],
        set(
            "_oximeter._tcp",
            vec![srv(123, "001de000-c04e-4000-8000-000000000001.host.control-plane.oxide.internal")]
        )
    );
    assert_eq!(
        config.zones[0].records[4],
        set(
            "_sledagent._tcp.001de000-51ed-4000-8000-000000000001",
            vec![srv(7, "001de000-51ed-4000-8000-000000000001.sled.control-plane.oxide.internal")]
        )
    );
}

#[test]
fn service_of_zones_and_sleds_has_a_record_for_each() {
    let stamp = Timestamp { secs: 0, nanos: 0 };
    let (s1, s2, z1, z2) = (parse(SLED1_UUID), parse(SLED2_UUID), parse(ZONE1_UUID), parse(ZONE2_UUID));
    let mut b = DnsConfigBuilder::new();
    let sled2 = b.host_sled(s2, SLED2_IP).unwrap();
    let sled1 = b.host_sled(s1, SLED1_IP).unwrap();
    let zone2 = b.host_zone(z2, ZONE2_IP).unwrap();
    let zone1 = b.host_dendrite(z1, ZONE1_IP).unwrap();
    b.service_backend_sled(ServiceName::Dendrite, &sled2, 4).unwrap();
    b.service_backend_zone(ServiceName::Dendrite, &zone2, 2).unwrap();
    b.service_backend_sled(ServiceName::Dendrite, &sled1, 3).unwrap();
    b.service_backend_zone(ServiceName::Dendrite, &zone1, 1).unwrap();
    let config = b.build_at(stamp);
    assert_eq!(config.zones[0].records.len(), 5);
    assert_eq!(
        config.zones[0].records[4],
        set(
            "_dendrite._tcp",
            vec![
                srv(
                    1,
                    "dendrite-001de000-c04e-4000-8000-000000000001.host.control-plane.oxide.internal"
                ),
                srv(2, "001de000-c04e-4000-8000-000000000002.host.control-plane.oxide.internal"),
                srv(3, "001de000-51ed-4000-8000-000000000001.sled.control-plane.oxide.internal"),
                srv(4, "001de000-51ed-4000-8000-000000000002.sled.control-plane.oxide.internal"),
            ]
        )
    );
}

#[test]
fn handle_of_another_builder_is_unknown_also_for_a_shared_host() {
    let stamp = Timestamp { secs: 0, nanos: 0 };
    let (s1, z1) = (parse(SLED1_UUID), parse(ZONE1_UUID));
    let mut first = DnsConfigBuilder::with_instance(Uuid::from_u128(1));
    let foreign_zone = first.host_zone(z1, ZONE1_IP).unwrap();
    let foreign_sled = first.host_sled(s1, SLED1_IP).unwrap();
    let mut second = DnsConfigBuilder::with_instance(Uuid::from_u128(2));
    let zone = second.host_zone(z1, ZONE1_IP).unwrap();
    let sled = second.host_sled(s1, SLED1_IP).unwrap();
    assert_eq!(
        second.service_backend_zone(ServiceName::Nexus, &foreign_zone, 80),
        Err(ConfigError::UnknownHostReference {
            host: Host::Zone { id: z1, variant: ZoneVariant::Other }
        })
    );
    assert_eq!(
        second.service_backend_sled(ServiceName::Nexus, &foreign_sled, 80),
        Err(ConfigError::UnknownHostReference { host: Host::Sled(s1) })
    );
    assert_eq!(second.clone().build_at(stamp).zones[0].records.len(), 2);
    // Its own handles are taken, by the builder and by a clone of it.
    let mut copy = second.clone();
    assert_eq!(second.service_backend_zone(ServiceName::Nexus, &zone, 80), Ok(()));
    assert_eq!(second.service_backend_sled(ServiceName::Oximeter, &sled, 81), Ok(()));
    assert_eq!(copy.service_backend_zone(ServiceName::Nexus, &zone, 80), Ok(()));
    assert_eq!(
        second.build().zones[0].records_named("_nexus._tcp"),
        Some(&vec![srv(80, "001de000-c04e-4000-8000-000000000001.host.control-plane.oxide.internal")])
    );
}

#[test]
fn builders_of_one_identifier_take_each_others_handles() {
    let z1 = parse(ZONE1_UUID);
    let mut first = DnsConfigBuilder::with_instance(Uuid::from_u128(7));
    let zone = first.host_zone(z1, ZONE1_IP).unwrap();
    let mut second = DnsConfigBuilder::with_instance(Uuid::from_u128(7));
    // The zone is not registered with the second builder yet.
    assert_eq!(
        second.service_backend_zone(ServiceName::Nexus, &zone, 80),
        Err(ConfigError::UnknownHostReference {
            host: Host::Zone { id: z1, variant: ZoneVariant::Other }
        })
    );
    second.host_zone(z1, ZONE2_IP).unwrap();
    assert_eq!(second.service_backend_zone(ServiceName::Nexus, &zone, 80), Ok(()));
    assert!(DnsConfigBuilder::with_instance(Uuid::from_u128(7)).build().zones[0].records.is_empty());
}

#[test]
fn records_are_found_by_name() {
    let stamp = Timestamp { secs: 0, nanos: 0 };
    let (s1, z1) = (parse(SLED1_UUID), parse(ZONE1_UUID));
    let mut b = DnsConfigBuilder::new();
    b.host_sled(s1, SLED1_IP).unwrap();
    let zone = b.host_zone(z1, ZONE1_IP).unwrap();
    b.service_backend_zone(ServiceName::Cockroach, &zone, 26257).unwrap();
    let config = b.build_at(stamp);
    let zone = &config.zones[0];
    assert_eq!(zone.records_named("001de000-51ed-4000-8000-000000000001.sled"), Some(&aaaa(SLED1_IP)));
    assert_eq!(zone.records_named("001de000-c04e-4000-8000-000000000001.host"), Some(&aaaa(ZONE1_IP)));
    assert_eq!(
        zone.records_named("_cockroach._tcp"),
        Some(&vec![srv(26257, "001de000-c04e-4000-8000-000000000001.host.control-plane.oxide.internal")])
    );
    assert_eq!(zone.records_named("_nexus._tcp"), None);
    assert_eq!(zone.records_named("001de000-51ed-4000-8000-000000000001.host"), None);
    assert_eq!(zone.records_named(""), None);
}

#[test]
fn a_clone_holds_what_the_builder_holds() {
    let stamp = Timestamp { secs: 3, nanos: 4 };
    let (s1, z1) = (parse(SLED1_UUID), parse(ZONE1_UUID));
    let mut b = DnsConfigBuilder::new();
    let sled = b.host_sled(s1, SLED1_IP).unwrap();
    let zone = b.host_zone(z1, ZONE1_IP).unwrap();
    b.service_backend_zone(ServiceName::Nexus, &zone, 1).unwrap();
    let mut copy = b.clone();
    assert_eq!(copy.clone().build_at(stamp), b.build_at(stamp));
    // The clone goes its own way from there.
    copy.service_backend_sled(ServiceName::Nexus, &sled, 2).unwrap();
    assert!(copy.host_sled(s1, SLED2_IP).is_err());
    let built = copy.build_at(stamp);
    assert_eq!(built.zones[0].records.len(), 3);
    assert_eq!(
        built.zones[0].records_named("_nexus._tcp"),
        Some(&vec![
            srv(1, "001de000-c04e-4000-8000-000000000001.host.control-plane.oxide.internal"),
            srv(2, "001de000-51ed-4000-8000-000000000001.sled.control-plane.oxide.internal"),
        ])
    );
}

#[test]
fn dendrite_zone_needs_no_sled_of_its_identifier() {
    let stamp = Timestamp { secs: 0, nanos: 0 };
    let (s1, s2) = (parse(SLED1_UUID), parse(SLED2_UUID));
    let mut b = DnsConfigBuilder::new();
    // No sled at all, then a sled with another identifier.
    let dendrite = b.host_dendrite(s1, ZONE1_IP).unwrap();
    b.host_sled(s2, SLED2_IP).unwrap();
    b.service_backend_zone(ServiceName::Dendrite, &dendrite, 12224).unwrap();
    assert_eq!(
        b.build_at(stamp).zones[0].records,
        vec![
            set("001de000-51ed-4000-8000-000000000002.sled", aaaa(SLED2_IP)),
            set("dendrite-001de000-51ed-4000-8000-000000000001.host", aaaa(ZONE1_IP)),
            set(
                "_dendrite._tcp",
                vec![srv(
                    12224,
                    "dendrite-001de000-51ed-4000-8000-000000000001.host.control-plane.oxide.internal"
                )]
            ),
        ]
    );
}

