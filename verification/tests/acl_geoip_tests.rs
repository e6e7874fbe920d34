use aegis_proxy::acl::{check_access, AclAction, AclEngine};
use aegis_proxy::geoip::{resolve_client_ip, CountryAcl, GeoDirective, GeoIpDatabase, IpRange};
use aegis_proxy::net::{IpAddress, IpNetwork};

fn ip(s: &str) -> IpAddress {
    IpAddress::parse(s).unwrap()
}

#[test]
fn test_acl_engine() {
    let mut engine = AclEngine::new();
    engine.add_rule("192.168.1.0/24", AclAction::Allow).unwrap();
    engine.add_rule("10.0.0.1", AclAction::Deny).unwrap();
    engine.add_rule("10.0.0.0/8", AclAction::Allow).unwrap();
    engine.add_rule("all", AclAction::Deny).unwrap();

    assert_eq!(engine.check_ip(ip("192.168.1.50")), AclAction::Allow);
    assert_eq!(engine.check_ip(ip("10.0.0.1")), AclAction::Deny);
    assert_eq!(engine.check_ip(ip("10.0.0.2")), AclAction::Allow);
    assert_eq!(engine.check_ip(ip("8.8.8.8")), AclAction::Deny);
}

#[test]
fn test_implicit_deny() {
    let mut engine = AclEngine::new();
    engine.add_rule("192.168.1.0/24", AclAction::Allow).unwrap();
    assert_eq!(engine.check_ip(ip("10.0.0.1")), AclAction::Deny);
}

#[test]
fn test_ipv6() {
    let mut engine = AclEngine::new();
    engine.add_rule("2001:0db8::/32", AclAction::Allow).unwrap();
    assert_eq!(engine.check_ip(ip("2001:0db8:85a3::8a2e:0370:7334")), AclAction::Allow);
    assert_eq!(engine.check_ip(ip("2002:0db8::1")), AclAction::Deny);
}

#[test]
fn acl_refuses_bad_cidr_and_families_do_not_mix() {
    let mut engine = AclEngine::new();
    assert!(engine.add_rule("10.0.0.0/33", AclAction::Allow).is_err());
    assert!(engine.add_rule("not-an-ip", AclAction::Allow).is_err());
    engine.add_rule("0.0.0.0/0", AclAction::Allow).unwrap();
    assert_eq!(engine.check_ip(ip("1.2.3.4")), AclAction::Allow);
    assert_eq!(engine.check_ip(ip("::1")), AclAction::Deny);
    assert!(check_access(None, ip("::1")));
    assert!(check_access(Some(&engine), ip("9.9.9.9")));
    assert!(!check_access(Some(&engine), ip("::2")));
}

#[derive(Debug, Clone, PartialEq)]
struct GeoIpRecord {
    country_code: String,
    country_name: String,
    asn: Option<u32>,
    org: Option<String>,
    city: Option<String>,
    region: Option<String>,
    region_code: Option<String>,
    latitude: Option<f64>,
    longitude: Option<f64>,
}

#[test]
fn test_geoip_lookup() {
    let mut db = GeoIpDatabase::new();
    db.add_range("8.8.8.0/24", GeoIpRecord {
        country_code: "US".to_string(),
        country_name: "United States".to_string(),
        asn: Some(15169),
        org: Some("Google LLC".to_string()),
        city: Some("Mountain View".to_string()),
        region: Some("California".to_string()),
        region_code: Some("CA".to_string()),
        latitude: Some(37.386),
        longitude: Some(-122.0838),
    });
    db.add_range("1.1.1.0/24", GeoIpRecord {
        country_code: "AU".to_string(),
        country_name: "Australia".to_string(),
        asn: Some(13335),
        org: Some("Cloudflare, Inc.".to_string()),
        city: None,
        region: None,
        region_code: None,
        latitude: None,
        longitude: None,
    });

    let us = db.lookup(ip("8.8.8.8"));
    assert!(us.is_some());
    let us = us.unwrap();
    assert_eq!(us.country_code, "US");
    assert_eq!(us.city, Some("Mountain View".to_string()));
    assert_eq!(us.latitude, Some(37.386));

    let au = db.lookup(ip("1.1.1.1"));
    assert!(au.is_some());
    assert_eq!(au.unwrap().country_code, "AU");

    let unknown = db.lookup(ip("192.168.1.1"));
    assert!(unknown.is_none());
}

#[test]
fn test_geo_directive_cidr_match() {
    let mut geo = GeoDirective::new("$remote_addr", "$backend");
    geo.add_range("10.0.0.0/8", "internal");
    geo.add_range("0.0.0.0/0", "external");
    geo = geo.with_default("external");

    let internal = geo.resolve(ip("10.5.0.1"));
    assert_eq!(internal, Some("internal".to_string()));
}

#[test]
fn test_geo_directive_default() {
    let geo = GeoDirective::new("$remote_addr", "$zone").with_default("default_zone");
    let result = geo.resolve(ip("8.8.8.8"));
    assert_eq!(result, Some("default_zone".to_string()));
}

#[test]
fn test_country_acl() {
    let acl = CountryAcl::deny_countries(vec!["CN", "RU", "KP"]);
    assert!(!acl.is_allowed("CN"));
    assert!(!acl.is_allowed("ru"));
    assert!(acl.is_allowed("US"));
    assert!(acl.is_allowed("DE"));
}

#[test]
fn country_allow_list() {
    let acl = CountryAcl { denied_countries: vec![], allowed_countries: vec!["DE".to_string()] };
    assert!(acl.is_allowed("de"));
    assert!(!acl.is_allowed("FR"));
}

#[test]
fn cidr_ranges() {
    let r = IpRange::from_cidr("10.1.2.3/8").unwrap();
    assert_eq!((r.start, r.end), (0x0a00_0000, 0x0aff_ffff));
    let all = IpRange::from_cidr("::/0").unwrap();
    assert_eq!((all.start, all.end), (0, u128::MAX));
    let one = IpRange::from_cidr("::1/128").unwrap();
    assert_eq!((one.start, one.end), (1, 1));
    assert!(IpRange::from_cidr("10.0.0.0/33").is_none());
    assert!(IpRange::from_cidr("10.0.0.0").is_none());
    assert!(IpRange::from_cidr("10.0.0.0/8/1").is_none());
    assert!(r.contains(0x0a12_3456));
    assert!(!r.contains(0x0b00_0000));
}

#[test]
fn geo_directive_most_specific_first_of_ties_and_no_default() {
    let mut geo = GeoDirective::new("$a", "$b");
    geo.add_range("10.0.0.0/16", "first");
    geo.add_range("10.0.1.0/24", "small");
    geo.add_range("10.0.1.0/24", "tie");
    assert_eq!(geo.resolve(ip("10.0.1.5")), Some("small".to_string()));
    assert_eq!(geo.resolve(ip("10.0.2.5")), Some("first".to_string()));
    assert_eq!(geo.resolve(ip("11.0.0.1")), None);
}

#[test]
fn client_ip_behind_trusted_proxies() {
    let trusted = vec![IpNetwork::parse("10.0.0.0/8").unwrap()];
    let direct = ip("10.0.0.5");
    assert_eq!(resolve_client_ip(direct, Some("203.0.113.7, 10.0.0.9"), &trusted), ip("203.0.113.7"));
    assert_eq!(resolve_client_ip(direct, Some("10.1.1.1, junk , 198.51.100.1"), &trusted), ip("198.51.100.1"));
    assert_eq!(resolve_client_ip(direct, Some("10.1.1.1"), &trusted), direct);
    assert_eq!(resolve_client_ip(direct, None, &trusted), direct);
    let outside = ip("8.8.8.8");
    assert_eq!(resolve_client_ip(outside, Some("1.2.3.4"), &trusted), outside);
}
