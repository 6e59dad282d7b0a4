use porkers::addr::{IpAddr, Ipv4, Ipv6};
use porkers::domain::glue::{decode_glue_hosts, IPsResponse, RawAddressGroup, StatusResponse};
use porkers::general::{decode_ping, decode_tld_pricing, TLDPricing, TLDPricingWire};
use porkers::nonempty::NonEmptySequence;
use porkers::price::{parse_price, Price};
use porkers::ssl::BundleResponse;
use porkers::{decode_status, ConstructionError, Credentials, DecodeError, Status};

fn price_as_f64(p: &Price) -> f64 {
    (p.mantissa as f64) / 10f64.powi(p.scale as i32)
}

fn quad(a: u8, b: u8, c: u8, d: u8) -> Ipv4 {
    Ipv4 { a, b, c, d }
}

fn parse_quad(s: &str) -> Ipv4 {
    let parts: Vec<u8> = s.split('.').map(|p| p.parse().unwrap()).collect();
    assert_eq!(parts.len(), 4);
    quad(parts[0], parts[1], parts[2], parts[3])
}

#[test]
fn construct_preserves_elements_and_order() {
    let s = NonEmptySequence::construct(vec![7u32, 8, 9]).unwrap();
    assert_eq!(s.len(), 3);
    assert_eq!(*s.get(0), 7);
    assert_eq!(*s.get(1), 8);
    assert_eq!(*s.get(2), 9);
}

#[test]
fn construct_empty_fails_with_empty_input() {
    let r = NonEmptySequence::<u32>::construct(vec![]);
    assert!(matches!(r, Err(ConstructionError::EmptyInput)));
}

#[test]
fn parse_price_with_thousands_separator() {
    let p = parse_price("1,234.50").unwrap();
    assert_eq!(p.mantissa, 123450);
    assert_eq!(p.scale, 2);
    assert_eq!(price_as_f64(&p), 1234.50);
}

#[test]
fn parse_price_zero() {
    let p = parse_price("0.00").unwrap();
    assert_eq!(price_as_f64(&p), 0.0);
}

#[test]
fn parse_price_rejects_letters() {
    let e = parse_price("abc").unwrap_err();
    assert_eq!(e.raw, "abc");
}

#[test]
fn parse_price_rejects_empty() {
    assert!(parse_price("").is_err());
}

#[test]
fn parse_price_rejects_mantissa_beyond_u64() {
    assert!(parse_price("99999999999999999999").is_err());
    assert!(parse_price("18446744073709551615").is_ok());
}

#[test]
fn parse_price_rejects_two_dots() {
    assert!(parse_price("1.2.3").is_err());
}

#[test]
fn price_render_trims_fraction() {
    assert_eq!(parse_price("10.00").unwrap().render(), "10");
    assert_eq!(parse_price("12.5").unwrap().render(), "12.5");
    assert_eq!(parse_price("0.05").unwrap().render(), "0.05");
    assert_eq!(parse_price("1,234.50").unwrap().render(), "1234.5");
}

#[test]
fn status_decodes_success() {
    assert_eq!(decode_status("SUCCESS").unwrap(), Status::Success);
}

#[test]
fn status_decodes_error() {
    assert_eq!(decode_status("ERROR").unwrap(), Status::Error);
}

#[test]
fn status_decodes_case_insensitively() {
    assert_eq!(decode_status("success").unwrap(), Status::Success);
    assert_eq!(decode_status("Error").unwrap(), Status::Error);
}

#[test]
fn status_rejects_pending() {
    match decode_status("PENDING") {
        Err(DecodeError::UnknownStatus(t)) => assert_eq!(t, "PENDING"),
        other => panic!("expected UnknownStatus, got {:?}", other),
    }
}

#[test]
fn status_renders_its_token() {
    assert_eq!(Status::Success.render(), "SUCCESS");
    assert_eq!(Status::Error.render(), "ERROR");
}

#[test]
fn credentials_rendering_redacts_both_fields() {
    let c = Credentials {
        api_key: "pk_live_0123456789".to_string(),
        secret_api_key: "sk_live_9876543210".to_string(),
    };
    let shown = c.render();
    assert_eq!(shown, "api_key: <REDACTED>\nsecret_api_key: <REDACTED>");
    assert!(!shown.contains("pk_live_0123456789"));
    assert!(!shown.contains("sk_live_9876543210"));
}

#[test]
fn credentials_wire_round_trip() {
    let c = Credentials {
        api_key: "AK".to_string(),
        secret_api_key: "SK".to_string(),
    };
    let wire = c.encode_wire();
    let back = Credentials::decode_wire(&wire).unwrap();
    assert_eq!(back.api_key, c.api_key);
    assert_eq!(back.secret_api_key, c.secret_api_key);
}

#[test]
fn credentials_decode_names_missing_field() {
    let wire = vec![("apikey".to_string(), "AK".to_string())];
    match Credentials::decode_wire(&wire) {
        Err(DecodeError::MissingField(f)) => assert_eq!(f, "secretapikey"),
        _ => panic!("expected a MissingField error naming secretapikey"),
    }
}

#[test]
fn auth_body_is_flat_json() {
    let c = Credentials {
        api_key: "AK".to_string(),
        secret_api_key: "SK".to_string(),
    };
    assert_eq!(c.auth_body(), "{\"apikey\":\"AK\",\"secretapikey\":\"SK\"}");
}

#[test]
fn auth_body_escapes_quotes_and_backslashes() {
    let c = Credentials {
        api_key: "A\"K".to_string(),
        secret_api_key: "S\\K".to_string(),
    };
    let body = c.auth_body();
    assert_eq!(body, "{\"apikey\":\"A\\\"K\",\"secretapikey\":\"S\\\\K\"}");
    let v: serde_json::Value = serde_json::from_str(&body).unwrap();
    assert_eq!(v["apikey"].as_str().unwrap(), "A\"K");
    assert_eq!(v["secretapikey"].as_str().unwrap(), "S\\K");
}

#[test]
fn ipv4_renders_dotted_quad() {
    assert_eq!(quad(1, 2, 3, 4).render(), "1.2.3.4");
    assert_eq!(quad(0, 0, 0, 0).render(), "0.0.0.0");
    assert_eq!(quad(255, 255, 255, 255).render(), "255.255.255.255");
}

#[test]
fn ipv6_renders_with_compression() {
    let a = Ipv6 { segments: [0x2001, 0xdb8, 0, 0, 0, 0, 0, 1] };
    assert_eq!(a.render(), "2001:db8::1");
    let loopback = Ipv6 { segments: [0, 0, 0, 0, 0, 0, 0, 1] };
    assert_eq!(loopback.render(), "::1");
    let unspecified = Ipv6 { segments: [0, 0, 0, 0, 0, 0, 0, 0] };
    assert_eq!(unspecified.render(), "::");
}

#[test]
fn ipv6_leaves_single_zero_group_uncompressed() {
    let a = Ipv6 { segments: [1, 0, 2, 3, 4, 5, 6, 7] };
    assert_eq!(a.render(), "1:0:2:3:4:5:6:7");
    let full = Ipv6 { segments: [1, 2, 3, 4, 5, 6, 7, 8] };
    assert_eq!(full.render(), "1:2:3:4:5:6:7:8");
}

#[test]
fn ipv6_renders_ipv4_mapped_form() {
    let a = Ipv6 { segments: [0, 0, 0, 0, 0, 0xffff, 0x0102, 0x0304] };
    assert_eq!(a.render(), "::ffff:1.2.3.4");
}

#[test]
fn with_ips_body_lists_addresses() {
    let c = Credentials {
        api_key: "AK".to_string(),
        secret_api_key: "SK".to_string(),
    };
    let ips = NonEmptySequence::construct(vec![
        IpAddr::V4(quad(1, 2, 3, 4)),
        IpAddr::V6(Ipv6 { segments: [0, 0, 0, 0, 0, 0, 0, 1] }),
    ])
    .unwrap();
    let body = porkers::domain::glue::with_ips_body(&c, &ips);
    assert_eq!(
        body,
        "{\"apikey\":\"AK\",\"secretapikey\":\"SK\",\"ips\":[\"1.2.3.4\",\"::1\"]}"
    );
}

#[test]
fn glue_paths_name_the_operations() {
    assert_eq!(
        porkers::domain::glue::create_glue_path("example.com", "ns1"),
        "https://api.porkbun.com/api/json/v3/domain/createGlue/example.com/ns1"
    );
    assert_eq!(
        porkers::domain::glue::update_glue_path("example.com", "ns1"),
        "https://api.porkbun.com/api/json/v3/domain/updateGlue/example.com/ns1"
    );
    assert_eq!(
        porkers::domain::glue::delete_glue_path("example.com", "ns1"),
        "https://api.porkbun.com/api/json/v3/domain/deleteGlue/example.com/ns1"
    );
    assert_eq!(
        porkers::domain::glue::get_glue_path("example.com"),
        "https://api.porkbun.com/api/json/v3/domain/getGlue/example.com"
    );
    assert_eq!(
        porkers::ssl::ssl_retrieve_path("example.com"),
        "https://api.porkbun.com/api/json/v3/ssl/retrieve/example.com"
    );
    assert_eq!(
        porkers::general::pricing_url(),
        "https://api.porkbun.com/api/json/v3/pricing/get"
    );
    assert_eq!(porkers::general::ping_url(), "https://api.porkbun.com/api/json/v3/ping");
}

#[test]
fn pricing_scenario_from_wire_json() {
    let v: serde_json::Value = serde_json::from_str(
        "{\"pricing\":{\"com\":{\"registration\":\"10.00\",\"renewal\":\"12.00\",\"transfer\":\"10.00\"}},\"status\":\"SUCCESS\"}",
    )
    .unwrap();
    let mut entries: Vec<(String, TLDPricingWire)> = Vec::new();
    for (tld, fees) in v["pricing"].as_object().unwrap() {
        entries.push((
            tld.clone(),
            TLDPricingWire {
                registration: fees["registration"].as_str().unwrap().to_string(),
                renewal: fees["renewal"].as_str().unwrap().to_string(),
                transfer: fees["transfer"].as_str().unwrap().to_string(),
            },
        ));
    }
    let resp = decode_tld_pricing(entries, v["status"].as_str().unwrap()).unwrap();
    assert_eq!(resp.status, Status::Success);
    assert_eq!(resp.pricing.len(), 1);
    assert_eq!(resp.pricing[0].0, "com");
    assert_eq!(price_as_f64(&resp.pricing[0].1.registration), 10.00);
    assert_eq!(price_as_f64(&resp.pricing[0].1.renewal), 12.00);
    assert_eq!(price_as_f64(&resp.pricing[0].1.transfer), 10.00);
    let shown = resp.render();
    assert_eq!(
        shown,
        "Status: SUCCESS\ncom:\n  Registration: 10\n  Renewal: 12\n  Transfer: 10"
    );
    assert!(shown.contains("com:"));
}

#[test]
fn pricing_table_is_sorted_by_tld() {
    let wire = |n: &str| TLDPricingWire {
        registration: format!("{n}.00"),
        renewal: "2.00".to_string(),
        transfer: "3.00".to_string(),
    };
    let entries = vec![
        ("net".to_string(), wire("1")),
        ("com".to_string(), wire("2")),
        ("org".to_string(), wire("3")),
    ];
    let resp = decode_tld_pricing(entries, "SUCCESS").unwrap();
    let names: Vec<&str> = resp.pricing.iter().map(|e| e.0.as_str()).collect();
    assert_eq!(names, vec!["com", "net", "org"]);
    assert_eq!(price_as_f64(&resp.pricing[0].1.registration), 2.0);
}

#[test]
fn pricing_decode_fails_on_bad_price() {
    let entries = vec![(
        "com".to_string(),
        TLDPricingWire {
            registration: "ten".to_string(),
            renewal: "2.00".to_string(),
            transfer: "3.00".to_string(),
        },
    )];
    assert!(matches!(
        decode_tld_pricing(entries, "SUCCESS"),
        Err(DecodeError::Price(_))
    ));
}

#[test]
fn pricing_decode_fails_on_unknown_status() {
    let entries: Vec<(String, TLDPricingWire)> = Vec::new();
    assert!(matches!(
        decode_tld_pricing(entries, "MAYBE"),
        Err(DecodeError::UnknownStatus(_))
    ));
}

#[test]
fn glue_hosts_scenario_from_wire_json() {
    let v: serde_json::Value = serde_json::from_str(
        "{\"hosts\":[[\"ns1.example.com\",{\"v4\":[\"1.2.3.4\"],\"v6\":null}]],\"status\":\"SUCCESS\"}",
    )
    .unwrap();
    let mut hosts: Vec<(String, RawAddressGroup)> = Vec::new();
    for pair in v["hosts"].as_array().unwrap() {
        let name = pair[0].as_str().unwrap().to_string();
        let group = &pair[1];
        let v4 = group["v4"].as_array().map(|l| {
            l.iter().map(|s| parse_quad(s.as_str().unwrap())).collect::<Vec<Ipv4>>()
        });
        assert!(group["v6"].is_null());
        hosts.push((name, RawAddressGroup { v4, v6: None }));
    }
    let resp = decode_glue_hosts(hosts, v["status"].as_str().unwrap()).unwrap();
    assert_eq!(resp.status.status, Status::Success);
    assert_eq!(resp.hosts.len(), 1);
    assert_eq!(resp.hosts[0].0, "ns1.example.com");
    let ips = &resp.hosts[0].1;
    let v4 = ips.v4.as_ref().unwrap();
    assert_eq!(v4.len(), 1);
    assert_eq!(*v4.get(0), quad(1, 2, 3, 4));
    assert!(ips.v6.is_none());
    assert_eq!(resp.render(), "ns1.example.com:\n  1.2.3.4");
}

#[test]
fn glue_hosts_rejects_empty_claimed_family() {
    let hosts = vec![(
        "ns1.example.com".to_string(),
        RawAddressGroup { v4: Some(vec![]), v6: None },
    )];
    assert!(matches!(
        decode_glue_hosts(hosts, "SUCCESS"),
        Err(DecodeError::Construction(ConstructionError::EmptyInput))
    ));
}

#[test]
fn glue_host_without_addresses_renders_na() {
    let hosts = vec![("ns1.example.com".to_string(), RawAddressGroup { v4: None, v6: None })];
    let resp = decode_glue_hosts(hosts, "SUCCESS").unwrap();
    assert_eq!(resp.render(), "ns1.example.com: n/a");
}

#[test]
fn glue_hosts_render_both_families() {
    let hosts = vec![(
        "ns1.example.com".to_string(),
        RawAddressGroup {
            v4: Some(vec![quad(1, 2, 3, 4), quad(5, 6, 7, 8)]),
            v6: Some(vec![Ipv6 { segments: [0, 0, 0, 0, 0, 0, 0, 1] }]),
        },
    )];
    let resp = decode_glue_hosts(hosts, "SUCCESS").unwrap();
    assert_eq!(resp.render(), "ns1.example.com:\n  1.2.3.4, 5.6.7.8\n  ::1");
}

#[test]
fn ips_response_renders_v6_on_second_line() {
    let hosts = vec![(
        "h".to_string(),
        RawAddressGroup {
            v4: Some(vec![quad(1, 2, 3, 4)]),
            v6: Some(vec![Ipv6 { segments: [0, 0, 0, 0, 0, 0, 0, 1] }]),
        },
    )];
    let resp = decode_glue_hosts(hosts, "SUCCESS").unwrap();
    let shown: String = resp.hosts[0].1.render();
    assert_eq!(shown, "1.2.3.4\n::1");
}

#[test]
fn create_request_with_empty_ip_list_fails_before_any_request() {
    let r = NonEmptySequence::<IpAddr>::construct(vec![]);
    assert!(matches!(r, Err(ConstructionError::EmptyInput)));
}

#[test]
fn status_response_decodes_and_renders() {
    let sr = StatusResponse::decode("SUCCESS").unwrap();
    assert_eq!(sr.status, Status::Success);
    assert_eq!(sr.render(), "SUCCESS");
    assert!(StatusResponse::decode("HMM").is_err());
}

#[test]
fn ping_decodes_and_renders() {
    let p = decode_ping("SUCCESS", IpAddr::V4(quad(203, 0, 113, 7))).unwrap();
    assert_eq!(p.status, Status::Success);
    assert_eq!(p.render(), "Status: SUCCESS\nYour IP: 203.0.113.7");
    assert!(decode_ping("NOPE", IpAddr::V4(quad(1, 1, 1, 1))).is_err());
}

#[test]
fn ssl_bundle_renders_public_key_only() {
    let b = BundleResponse::decode(
        "CERTCHAINDATA".to_string(),
        "PRIVATEKEYDATA".to_string(),
        "PUBLICKEYDATA".to_string(),
        "SUCCESS",
    )
    .unwrap();
    let shown = b.render();
    assert_eq!(
        shown,
        "Status: SUCCESS\nCertificate chain: <REDACTED>\nPrivate key: <REDACTED>\nPublic key: PUBLICKEYDATA"
    );
    assert!(shown.contains("PUBLICKEYDATA"));
    assert!(!shown.contains("CERTCHAINDATA"));
    assert!(!shown.contains("PRIVATEKEYDATA"));
}

#[test]
fn ssl_bundle_rejects_unknown_status() {
    let r = BundleResponse::decode(
        "c".to_string(),
        "p".to_string(),
        "k".to_string(),
        "WAITING",
    );
    assert!(matches!(r, Err(DecodeError::UnknownStatus(_))));
}

#[test]
fn tld_pricing_from_wire_reports_first_bad_field() {
    let w = TLDPricingWire {
        registration: "1.00".to_string(),
        renewal: "bad".to_string(),
        transfer: "also bad".to_string(),
    };
    let e = TLDPricing::from_wire(&w).unwrap_err();
    assert_eq!(e.raw, "bad");
}
