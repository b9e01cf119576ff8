use pathlink::Domain;
use pathlink::url_parts::{HostValue, UrlParts};

#[test]
fn domain_constructor_normalizes_valid_domain_names() {
    let domain = Domain::new("BÜCHER.EXAMPLE").expect("domain");
    assert_eq!(domain.as_str(), "xn--bcher-kva.example");
    assert_eq!(domain.to_string(), "xn--bcher-kva.example");
}

#[test]
fn domain_clone_shares_storage() {
    let domain = Domain::new("example.com").expect("domain");
    let clone = domain.clone();
    assert!(std::sync::Arc::ptr_eq(
        &domain.into_inner(),
        &clone.into_inner()
    ));
}

#[test]
fn domain_constructor_rejects_invalid_domain_names() {
    for domain in [
        "-bad-.com",
        "bad-.com",
        "bad..com",
        "has_underscore.example",
        "example.com:443",
        "example.com/path",
    ] {
        let err = Domain::new(domain).expect_err("invalid domain should fail");
        assert!(err.to_string().contains("invalid domain name"));
    }
}

#[test]
fn domain_with_port_part_is_rejected() {
    for domain in ["example.com:80", "example.com:", "example.com:443"] {
        let err = Domain::new(domain).expect_err("a port part is no domain name");
        assert_eq!(err.to_string(), format!("invalid domain name: {domain}"));
    }
}

#[test]
fn domain_from_url_report() {
    let report = |host: HostValue| UrlParts {
        scheme: "http".to_string(),
        username: String::new(),
        password: None,
        port: None,
        path: "/".to_string(),
        query: None,
        fragment: None,
        host: Some(host),
    };
    let d = Domain::from_url("Example.COM", Ok(report(HostValue::Domain("example.com".to_string())))).unwrap();
    assert_eq!(d.as_str(), "example.com");
    let err = Domain::from_url("example.com:80", Ok(report(HostValue::Domain("example.com".to_string())))).unwrap_err();
    assert_eq!(err.to_string(), "invalid domain name: example.com:80");
    let err = Domain::from_url("1.2.3.4", Ok(report(HostValue::Ipv4([1, 2, 3, 4])))).unwrap_err();
    assert_eq!(err.to_string(), "invalid domain name: 1.2.3.4");
    let err = Domain::from_url("x", Err("empty host".to_string())).unwrap_err();
    assert_eq!(err.to_string(), "invalid domain name: empty host");
    let err = Domain::from_url("bad_name", Ok(report(HostValue::Domain("bad_name".to_string())))).unwrap_err();
    assert_eq!(err.to_string(), "invalid domain name: bad_name");
}
