use rdap_utils::ip_networks::{IpNetworkRow, IpNetworksRun, IpStep};
use rdap_utils::nameserver_networks::{NameserverNetworksRun, NsNetworkRow, NsStep, NsWait};
use rdap_utils::output::{csv_document, Record};
use rdap_utils::protected_domains::{
    missing_statuses, DomainStep, ProtectedDomainRow, ProtectedDomainsRun,
};
use rdap_utils::rdap::{CidrInfo, DomainInfo, EntityInfo, NameserverInfo, NetworkInfo};
use rdap_utils::report::NetworkColumns;

fn strings(v: &[&str]) -> Vec<String> {
    v.iter().map(|s| s.to_string()).collect()
}

fn columns(handle: &str, start: &str, end: &str, cidrs: &[&str]) -> NetworkColumns {
    let mut c = NetworkColumns::empty();
    c.handle = handle.to_string();
    c.start_address = start.to_string();
    c.end_address = end.to_string();
    c.cidr_blocks = strings(cidrs);
    c
}

#[test]
fn find_ip_networks_csv_row_joins_cidr_blocks_with_pipe() {
    let row = IpNetworkRow {
        ip: "10.1.2.3".to_string(),
        network: columns("NET-TEST", "10.0.0.0", "10.255.255.255", &["10.0/8", "10.128/7"]),
        error: String::new(),
    };
    assert_eq!(row.row()[9], "10.0/8|10.128/7");
}

#[test]
fn networks_of_nameservers_csv_row_joins_cidr_blocks_with_pipe() {
    let row = NsNetworkRow {
        domain: "example.com".to_string(),
        nameserver: "ns1.example.net".to_string(),
        ip: "192.0.2.53".to_string(),
        network: columns("NET-TEST", "192.0.2.0", "192.0.2.255", &["192.0.2/24", "198.51.100/24"]),
        error: String::new(),
    };
    let r = row.row();
    assert_eq!(r.len(), 13);
    assert_eq!(r[3], "NET-TEST");
    assert_eq!(r[11], "192.0.2/24|198.51.100/24");
}

#[test]
fn headers_match_row_widths() {
    assert_eq!(IpNetworkRow::header().len(), 11);
    assert_eq!(IpNetworkRow::header()[9], "cidr_blocks");
    assert_eq!(NsNetworkRow::header().len(), 13);
    assert_eq!(ProtectedDomainRow::header(), strings(&["domain", "registrar", "protected", "status", "missing_status", "error"]));
}

#[test]
fn missing_statuses_ignore_case() {
    let status = strings(&["Client Delete Prohibited", "active", "client update prohibited"]);
    assert_eq!(missing_statuses(&status), strings(&["client transfer prohibited"]));
    let locked = strings(&["client transfer prohibited", "client delete prohibited", "CLIENT UPDATE PROHIBITED"]);
    assert!(missing_statuses(&locked).is_empty());
    assert_eq!(missing_statuses(&vec![]).len(), 3);
}

fn registrar(name: &str) -> EntityInfo {
    EntityInfo { roles: strings(&["registrar"]), full_name: Some(name.to_string()), organization_name: None }
}

#[test]
fn protected_domain_row_and_csv() {
    let d = DomainInfo {
        status: strings(&["client delete prohibited", "client transfer prohibited", "client update prohibited"]),
        entities: vec![registrar("Example Registrar")],
        nameservers: vec![],
    };
    let row = ProtectedDomainRow::found("example.com".to_string(), &d);
    assert!(row.protected);
    assert!(row.missing_status.is_empty());
    assert_eq!(row.registrar, "Example Registrar");
    let r = row.row();
    assert_eq!(r[2], "true");
    assert_eq!(r[3], "client delete prohibited; client transfer prohibited; client update prohibited");
    let doc = String::from_utf8(csv_document(&[row])).unwrap();
    assert_eq!(doc.lines().next().unwrap(), "domain,registrar,protected,status,missing_status,error");
}

fn network(handle: &str) -> NetworkInfo {
    NetworkInfo {
        handle: Some(handle.to_string()),
        name: Some("TEST-NET".to_string()),
        start_address: Some("192.0.2.0".to_string()),
        end_address: Some("192.0.2.255".to_string()),
        entities: vec![EntityInfo { roles: strings(&["abuse"]), full_name: None, organization_name: Some("Abuse Org".to_string()) }],
        cidrs: vec![CidrInfo { prefix: Some("192.0.2.0".to_string()), length: Some(24) }],
    }
}

#[test]
fn ip_run_gives_one_row_per_entry() {
    let entries = vec![
        Ok("192.0.2.1".to_string()),
        Err("CSV line 3: empty value in column 'ip'".to_string()),
        Ok("bogus".to_string()),
    ];
    let mut run = IpNetworksRun::start(entries, "ips.csv").unwrap();
    let mut warnings = Vec::new();
    loop {
        match run.next_step() {
            IpStep::Warn(w) => warnings.push(w),
            IpStep::LookupNetwork(ip) => {
                let result = if ip == "bogus" {
                    Err("invalid IP address or CIDR block: 'bogus'".to_string())
                } else {
                    Ok(network("NET-192-0-2-0"))
                };
                if let Some(w) = run.network_result(result) {
                    warnings.push(w);
                }
            }
            IpStep::Done => break,
        }
    }
    let (rows, errors) = run.finish();
    assert_eq!(rows.len(), 3);
    assert_eq!(errors, 2);
    assert_eq!(rows[0].network.handle, "NET-192-0-2-0");
    assert_eq!(rows[0].network.abuse, "Abuse Org");
    assert_eq!(rows[0].network.cidr_blocks, strings(&["192.0.2.0/24"]));
    assert_eq!(rows[0].error, "");
    assert_eq!(rows[1].ip, "");
    assert_eq!(rows[1].error, "CSV line 3: empty value in column 'ip'");
    assert_eq!(rows[2].ip, "bogus");
    assert_eq!(rows[2].network.handle, "");
    assert_eq!(
        warnings,
        strings(&[
            "CSV line 3: empty value in column 'ip'",
            "bogus: invalid IP address or CIDR block: 'bogus'"
        ])
    );
}

#[test]
fn empty_input_is_refused() {
    assert_eq!(
        IpNetworksRun::start(vec![], "empty.txt").err(),
        Some("no items found in empty.txt".to_string())
    );
    assert!(ProtectedDomainsRun::start(vec![], "x").is_err());
    assert!(NameserverNetworksRun::start(vec![], "x").is_err());
}

#[test]
fn protected_run_reports_each_domain() {
    let entries = vec![Ok("locked.example".to_string()), Ok("gone.example".to_string())];
    let mut run = ProtectedDomainsRun::start(entries, "d.txt").unwrap();
    let mut warnings = Vec::new();
    loop {
        match run.next_step() {
            DomainStep::Warn(w) => warnings.push(w),
            DomainStep::LookupDomain(d) => {
                let result = if d == "gone.example" {
                    Err("RDAP server returned error 404".to_string())
                } else {
                    Ok(DomainInfo {
                        status: strings(&["client delete prohibited", "client update prohibited"]),
                        entities: vec![],
                        nameservers: vec![],
                    })
                };
                if let Some(w) = run.domain_result(result) {
                    warnings.push(w);
                }
            }
            DomainStep::Done => break,
        }
    }
    let (rows, errors) = run.finish();
    assert_eq!(errors, 1);
    assert_eq!(rows.len(), 2);
    assert!(!rows[0].protected);
    assert_eq!(rows[0].registrar, "unknown");
    assert_eq!(rows[0].missing_status, strings(&["client transfer prohibited"]));
    assert_eq!(rows[1].error, "RDAP server returned error 404");
    assert_eq!(warnings, strings(&["gone.example: RDAP server returned error 404"]));
}

fn nameserver(name: &str, v4: &[&str]) -> NameserverInfo {
    NameserverInfo { ldh_name: Some(name.to_string()), unicode_name: None, ipv4: strings(v4), ipv6: vec![] }
}

#[test]
fn nameserver_run_covers_every_case() {
    let entries = vec![
        Ok("example.com".to_string()),
        Ok("bare.example".to_string()),
        Ok("missing.example".to_string()),
        Err("CSV line 5: empty value in column 'domain'".to_string()),
    ];
    let mut run = NameserverNetworksRun::start(entries, "d.csv").unwrap();
    let mut warnings = Vec::new();
    let mut lookups = Vec::new();
    loop {
        match run.next_step() {
            NsStep::Warn(w) => warnings.push(w),
            NsStep::LookupDomain(d) => {
                lookups.push(format!("domain {d}"));
                let result = match d.as_str() {
                    "example.com" => Ok(DomainInfo {
                        status: vec![],
                        entities: vec![],
                        nameservers: vec![
                            nameserver("ns1.example.net", &["192.0.2.53", "198.51.100.53"]),
                            nameserver("ns2.example.net", &[]),
                            nameserver("ns3.example.net", &[]),
                            NameserverInfo { ldh_name: None, unicode_name: None, ipv4: vec![], ipv6: vec![] },
                        ],
                    }),
                    "bare.example" => Ok(DomainInfo { status: vec![], entities: vec![], nameservers: vec![] }),
                    _ => Err("RDAP server returned error 404".to_string()),
                };
                if let Some(w) = run.domain_result(result) {
                    warnings.push(w);
                }
            }
            NsStep::LookupNameserver(n) => {
                lookups.push(format!("nameserver {n}"));
                let result = if n == "ns2.example.net" {
                    Ok(nameserver("ns2.example.net", &["203.0.113.7"]))
                } else {
                    Err("no bootstrap entry available (unknown RIR or registry)".to_string())
                };
                if let Some(w) = run.nameserver_result(result) {
                    warnings.push(w);
                }
            }
            NsStep::LookupNetwork(ip) => {
                lookups.push(format!("network {ip}"));
                let result = if ip == "198.51.100.53" {
                    Err("timeout".to_string())
                } else {
                    Ok(network("NET-TEST"))
                };
                if let Some(w) = run.network_result(result) {
                    warnings.push(w);
                }
            }
            NsStep::Done => break,
        }
    }
    let (rows, errors) = run.finish();
    assert_eq!(
        lookups,
        strings(&[
            "domain example.com",
            "network 192.0.2.53",
            "network 198.51.100.53",
            "nameserver ns2.example.net",
            "network 203.0.113.7",
            "nameserver ns3.example.net",
            "domain bare.example",
            "domain missing.example",
        ])
    );
    let errs: Vec<&str> = rows.iter().map(|r| r.error.as_str()).collect();
    assert_eq!(
        errs,
        vec![
            "",
            "timeout",
            "",
            "no IP addresses in domain response; nameserver lookup failed: no bootstrap entry available (unknown RIR or registry)",
            "nameserver has no IP addresses",
            "no nameservers listed for domain",
            "RDAP server returned error 404",
            "CSV line 5: empty value in column 'domain'",
        ]
    );
    assert_eq!(errors, 6);
    assert_eq!(rows[0].nameserver, "ns1.example.net");
    assert_eq!(rows[0].network.handle, "NET-TEST");
    assert_eq!(rows[2].ip, "203.0.113.7");
    assert_eq!(rows[4].nameserver, "");
    assert_eq!(rows[5].domain, "bare.example");
    assert_eq!(rows[7].domain, "");
    assert_eq!(
        warnings,
        strings(&[
            "example.com (ns1.example.net, 198.51.100.53): timeout",
            "example.com (ns3.example.net): no bootstrap entry available (unknown RIR or registry)",
            "example.com (): nameserver has no IP addresses",
            "bare.example: no nameservers listed for domain",
            "missing.example: RDAP server returned error 404",
            "CSV line 5: empty value in column 'domain'",
        ])
    );
}

#[test]
fn runs_report_the_pending_lookup() {
    let mut ip_run = IpNetworksRun::start(vec![Ok("192.0.2.1".to_string())], "x").unwrap();
    assert!(!ip_run.is_waiting());
    assert!(matches!(ip_run.next_step(), IpStep::LookupNetwork(_)));
    assert!(ip_run.is_waiting());
    assert_eq!(ip_run.network_result(Ok(network("NET-1"))), None);
    assert!(!ip_run.is_waiting());

    let mut domain_run = ProtectedDomainsRun::start(vec![Ok("a.example".to_string())], "x").unwrap();
    assert!(!domain_run.is_waiting());
    assert!(matches!(domain_run.next_step(), DomainStep::LookupDomain(_)));
    assert!(domain_run.is_waiting());

    let mut ns_run = NameserverNetworksRun::start(vec![Ok("a.example".to_string())], "x").unwrap();
    assert!(ns_run.waiting_for() == NsWait::Idle);
    assert!(matches!(ns_run.next_step(), NsStep::LookupDomain(_)));
    assert!(ns_run.waiting_for() == NsWait::Domain);
    let info = DomainInfo {
        status: vec![],
        entities: vec![],
        nameservers: vec![nameserver("ns.example.net", &[])],
    };
    assert_eq!(ns_run.domain_result(Ok(info)), None);
    assert!(matches!(ns_run.next_step(), NsStep::LookupNameserver(_)));
    assert!(ns_run.waiting_for() == NsWait::Nameserver);
    assert_eq!(ns_run.nameserver_result(Ok(nameserver("ns.example.net", &["192.0.2.9"]))), None);
    assert!(matches!(ns_run.next_step(), NsStep::LookupNetwork(_)));
    assert!(ns_run.waiting_for() == NsWait::Network);
}
