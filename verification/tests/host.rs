use pathlink::{Address, Domain, Host, Ipv4Addr, Ipv6Addr, Protocol};

#[test]
fn parse_http_host_ipv4() {
    let host: Host = "http://127.0.0.1:80".parse().expect("host");
    assert_eq!(host.protocol(), Protocol::HTTP);
    assert_eq!(host.port(), Some(80));
    assert_eq!(host.address(), &Address::from(Ipv4Addr::new(127, 0, 0, 1)));
}

#[test]
fn parse_http_host_without_explicit_port() {
    let host: Host = "http://127.0.0.1".parse().expect("host");
    assert_eq!(host.port(), None);
    assert_eq!(host.to_string(), "http://127.0.0.1");
}

#[test]
fn parse_https_host_domain() {
    let host: Host = "https://example.com:443".parse().expect("host");
    assert_eq!(host.protocol(), Protocol::HTTPS);
    assert_eq!(host.port(), Some(443));
    assert_eq!(
        host.address(),
        &Address::Domain(Domain::new("example.com").unwrap())
    );
}

#[test]
fn parse_https_idn_host_normalizes_to_ascii() {
    let host: Host = "https://bücher.example".parse().expect("host");
    assert_eq!(
        host.address(),
        &Address::Domain(Domain::new("bücher.example").unwrap())
    );
    assert_eq!(host.to_string(), "https://xn--bcher-kva.example");
}

#[test]
fn parse_uppercase_scheme_and_domain_normalizes() {
    let host: Host = "HTTPS://EXAMPLE.COM:8443".parse().expect("host");
    assert_eq!(host.protocol(), Protocol::HTTPS);
    assert_eq!(host.port(), Some(8443));
    assert_eq!(
        host.address(),
        &Address::Domain(Domain::new("example.com").unwrap())
    );
}

#[test]
fn parse_ipv6_host_uses_brackets_for_display() {
    let host: Host = "https://[::1]:443".parse().expect("host");
    assert_eq!(host.protocol(), Protocol::HTTPS);
    assert_eq!(host.port(), Some(443));
    assert_eq!(host.address(), &Address::from(Ipv6Addr::localhost()));
    assert_eq!(host.to_string(), "https://[::1]:443");
}

#[test]
fn parse_invalid_domain_name_fails() {
    for host in [
        "https://-bad-.com",
        "https://bad-.com",
        "https://bad..com",
        "https://has_underscore.example",
    ] {
        let err = host
            .parse::<Host>()
            .expect_err("invalid domain should fail");
        assert!(err.to_string().contains("invalid domain name"));
    }
}

#[test]
fn parse_host_rejects_userinfo() {
    let err = "https://user@example.com"
        .parse::<Host>()
        .expect_err("userinfo should be rejected");
    assert!(err.to_string().contains("userinfo"));
}

#[test]
fn parse_host_rejects_query() {
    let err = "https://example.com?x=1"
        .parse::<Host>()
        .expect_err("query should be rejected");
    assert!(err.to_string().contains("unexpected URL components"));
}

#[test]
fn parse_host_rejects_fragment() {
    let err = "https://example.com#frag"
        .parse::<Host>()
        .expect_err("fragment should be rejected");
    assert!(err.to_string().contains("unexpected URL components"));
}

#[test]
fn parse_host_rejects_path() {
    let err = "https://example.com/a"
        .parse::<Host>()
        .expect_err("path should be rejected");
    assert!(err.to_string().contains("unexpected URL components"));
}
