use rdap_utils::rdap::{
    cidr_blocks, describe_error, entity_name, nameserver_ips, nameserver_name, registrant_name,
    registrar_name, unexpected, CidrInfo, DomainInfo, EntityInfo, ErrorDocument, LookupFailure,
    NameserverInfo, NetworkInfo,
};

fn strings(v: &[&str]) -> Vec<String> {
    v.iter().map(|s| s.to_string()).collect()
}

fn test_network(cidrs: Vec<CidrInfo>) -> NetworkInfo {
    NetworkInfo {
        handle: Some("NET-TEST".to_string()),
        name: None,
        start_address: Some("10.0.0.0".to_string()),
        end_address: Some("10.255.255.255".to_string()),
        entities: vec![],
        cidrs,
    }
}

fn cidr(prefix: &str, length: u8) -> CidrInfo {
    CidrInfo { prefix: Some(prefix.to_string()), length: Some(length) }
}

#[test]
fn all_cidr_blocks_are_reported() {
    let net = test_network(vec![cidr("10.0", 8), cidr("10.128", 7)]);
    assert_eq!(
        cidr_blocks(&net),
        vec!["10.0/8".to_string(), "10.128/7".to_string()]
    );
}

#[test]
fn missing_cidr0_extension_yields_empty_list() {
    let net = test_network(vec![]);
    assert!(cidr_blocks(&net).is_empty());
}

#[test]
fn incomplete_cidr_entries_are_left_out() {
    let net = test_network(vec![
        CidrInfo { prefix: Some("2001:db8::".to_string()), length: None },
        CidrInfo { prefix: None, length: Some(24) },
        cidr("2001:db8::", 32),
    ]);
    assert_eq!(cidr_blocks(&net), vec!["2001:db8::/32".to_string()]);
}

fn ns(ldh: Option<&str>, unicode: Option<&str>, v4: &[&str], v6: &[&str]) -> NameserverInfo {
    NameserverInfo {
        ldh_name: ldh.map(|s| s.to_string()),
        unicode_name: unicode.map(|s| s.to_string()),
        ipv4: strings(v4),
        ipv6: strings(v6),
    }
}

#[test]
fn nameserver_name_prefers_ldh_name() {
    assert_eq!(nameserver_name(&ns(Some("ns1.example"), Some("ns1.exämple"), &[], &[])), "ns1.example");
    assert_eq!(nameserver_name(&ns(None, Some("ns1.exämple"), &[], &[])), "ns1.exämple");
    assert_eq!(nameserver_name(&ns(None, None, &[], &[])), "");
}

#[test]
fn nameserver_ips_lists_v4_then_v6() {
    let n = ns(Some("a"), None, &["192.0.2.1", "192.0.2.2"], &["2001:db8::1"]);
    assert_eq!(nameserver_ips(&n), strings(&["192.0.2.1", "192.0.2.2", "2001:db8::1"]));
    assert!(nameserver_ips(&ns(Some("a"), None, &[], &[])).is_empty());
}

fn entity(roles: &[&str], full: Option<&str>, org: Option<&str>) -> EntityInfo {
    EntityInfo {
        roles: strings(roles),
        full_name: full.map(|s| s.to_string()),
        organization_name: org.map(|s| s.to_string()),
    }
}

fn domain(entities: Vec<EntityInfo>) -> DomainInfo {
    DomainInfo { status: vec![], entities, nameservers: vec![] }
}

#[test]
fn registrar_is_the_first_entity_with_that_role() {
    let d = domain(vec![
        entity(&["technical"], Some("Tech"), None),
        entity(&["REGISTRAR"], Some("First Registrar"), Some("Org")),
        entity(&["registrar"], Some("Second Registrar"), None),
    ]);
    assert_eq!(registrar_name(&d), "First Registrar");
}

#[test]
fn registrar_falls_back_to_organization_then_unknown() {
    let d = domain(vec![entity(&["registrar"], None, Some("Registrar Org"))]);
    assert_eq!(registrar_name(&d), "Registrar Org");
    let d = domain(vec![entity(&["registrar"], None, None)]);
    assert_eq!(registrar_name(&d), "unknown");
    let d = domain(vec![entity(&["registrant"], Some("Someone"), None)]);
    assert_eq!(registrar_name(&d), "unknown");
}

#[test]
fn entity_name_is_empty_when_not_reported() {
    let es = vec![entity(&["abuse"], None, Some("Abuse Desk")), entity(&["registrant"], Some("Owner"), None)];
    assert_eq!(entity_name(&es, "abuse"), "Abuse Desk");
    assert_eq!(entity_name(&es, "technical"), "");
    let mut net = test_network(vec![]);
    net.entities = es;
    assert_eq!(registrant_name(&net), "Owner");
}

#[test]
fn lookup_failures_are_described() {
    assert_eq!(
        describe_error(&LookupFailure::BootstrapUnavailable),
        "no bootstrap entry available (unknown RIR or registry)"
    );
    assert_eq!(
        describe_error(&LookupFailure::Unparsable { status: 502, host: "rdap.example".to_string() }),
        "RDAP response could not be parsed (HTTP 502 from rdap.example)"
    );
    assert_eq!(describe_error(&LookupFailure::Other("timeout".to_string())), "timeout");
}

#[test]
fn unexpected_answers_are_described() {
    assert_eq!(
        unexpected("x.example", &Some(ErrorDocument { code: 404, title: Some("Not Found".to_string()) })),
        "RDAP server returned error 404: Not Found"
    );
    assert_eq!(
        unexpected("x.example", &Some(ErrorDocument { code: 404, title: Some(String::new()) })),
        "RDAP server returned error 404"
    );
    assert_eq!(
        unexpected("x.example", &Some(ErrorDocument { code: 500, title: None })),
        "RDAP server returned error 500"
    );
    assert_eq!(unexpected("x.example", &None), "unexpected RDAP response for 'x.example'");
}
