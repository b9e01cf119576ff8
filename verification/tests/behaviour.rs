use std::cmp::Ordering;

use pathlink::port::explicit_port;
use pathlink::url_parts::{HostValue, UrlParts};
use pathlink::{Address, Domain, Host, IpAddr, Ipv4Addr, Ipv6Addr, Link, PathBuf, PathSegment, Protocol, ToUrl};

#[test]
fn protocol_names_and_default() {
    assert_eq!(Protocol::HTTP.as_str(), "http");
    assert_eq!(Protocol::HTTPS.as_str(), "https");
    assert_eq!(Protocol::default(), Protocol::HTTP);
    assert_eq!("HtTpS".parse::<Protocol>().unwrap(), Protocol::HTTPS);
    let err = "ftp".parse::<Protocol>().unwrap_err();
    assert_eq!(err.to_string(), "invalid protocol: ftp");
    assert!(Protocol::HTTP < Protocol::HTTPS);
}

#[test]
fn explicit_port_cases() {
    assert_eq!(explicit_port("http://example.com").unwrap(), None);
    assert_eq!(explicit_port("http://example.com:8080/").unwrap(), Some(8080));
    assert_eq!(explicit_port("https://[::1]").unwrap(), None);
    assert_eq!(explicit_port("https://[::1]:443").unwrap(), Some(443));
    assert_eq!(explicit_port("http://h:+80").unwrap(), Some(80));
    assert_eq!(
        explicit_port("example.com").unwrap_err().to_string(),
        "invalid host: example.com"
    );
    assert_eq!(
        explicit_port("http://h:").unwrap_err().to_string(),
        "invalid host: http://h:"
    );
    assert_eq!(
        explicit_port("https://[::1").unwrap_err().to_string(),
        "invalid host: https://[::1"
    );
    assert_eq!(
        explicit_port("https://[::1]x").unwrap_err().to_string(),
        "invalid host: https://[::1]x"
    );
    let err = explicit_port("http://h:99999").unwrap_err().to_string();
    assert!(err.starts_with("invalid port in http://h:99999: "));
}

#[test]
fn domain_name_limits() {
    let label63 = "a".repeat(63);
    assert!(Domain::new(&format!("{label63}.com")).is_ok());
    let label64 = "a".repeat(64);
    assert!(Domain::new(&format!("{label64}.com")).is_err());
    let name253 = format!("{}.{}.{}.{}", "a".repeat(63), "b".repeat(63), "c".repeat(63), "d".repeat(61));
    assert_eq!(name253.len(), 253);
    assert!(Domain::new(&name253).is_ok());
    let name254 = format!("{}.{}.{}.{}", "a".repeat(63), "b".repeat(63), "c".repeat(63), "d".repeat(62));
    assert!(Domain::new(&name254).is_err());
    let dotted = Domain::new("example.com.").unwrap();
    assert_eq!(dotted.as_str(), "example.com.");
    assert_eq!(dotted.get_size(), 12);
    assert_eq!(
        Domain::from_normalized("-x.com").unwrap_err().to_string(),
        "invalid domain name: -x.com"
    );
    assert_eq!(
        Domain::from_normalized("bad..com.").unwrap_err().to_string(),
        "invalid domain name: bad..com"
    );
}

#[test]
fn address_text_and_queries() {
    let a = Address::from(Ipv4Addr::new(10, 0, 0, 255));
    assert_eq!(a.to_string(), "10.0.0.255");
    assert!(!a.is_localhost());
    assert_eq!(a.get_size(), 4);
    assert_eq!(a.as_ip(), Some(IpAddr::V4(Ipv4Addr::new(10, 0, 0, 255))));
    assert!(a == Ipv4Addr::new(10, 0, 0, 255));
    assert!(a == IpAddr::V4(Ipv4Addr::new(10, 0, 0, 255)));
    assert!(!(a == Ipv6Addr::localhost()));

    let local = Address::default();
    assert!(local.is_localhost());
    assert_eq!(local.to_string(), "127.0.0.1");

    let six = Address::from(Ipv6Addr::localhost());
    assert!(six.is_localhost());
    assert_eq!(six.get_size(), 16);
    assert!(six == Ipv6Addr::localhost());

    let named = Address::Domain(Domain::new("LocalHost").unwrap());
    assert!(named.is_localhost());
    assert_eq!(named.get_size(), 9);
    assert_eq!(named.as_ip(), None);
}

#[test]
fn ipv6_text_forms() {
    let cases: [([u16; 8], &str); 7] = [
        ([0, 0, 0, 0, 0, 0, 0, 0], "::"),
        ([0, 0, 0, 0, 0, 0, 0, 1], "::1"),
        ([1, 0, 0, 0, 0, 0, 0, 0], "1::"),
        ([0x2001, 0xdb8, 0, 0, 0, 0, 0, 1], "2001:db8::1"),
        ([1, 0, 0, 2, 0, 0, 3, 4], "1::2:0:0:3:4"),
        ([1, 0, 2, 0, 3, 0, 4, 0], "1:0:2:0:3:0:4:0"),
        ([0, 0, 0, 0, 0, 0xffff, 0x0102, 0x0304], "::ffff:1.2.3.4"),
    ];
    for (segments, text) in cases {
        let addr = Ipv6Addr { segments };
        assert_eq!(addr.to_string(), text);
    }
}

#[test]
fn host_constructors_display_and_loopback() {
    let host = Host::from((Address::localhost(), 8702));
    assert_eq!(host.protocol(), Protocol::HTTP);
    assert_eq!(host.to_string(), "http://127.0.0.1:8702");
    assert!(host.is_localhost());
    assert!(host.is_loopback(None));

    let public = Host::from((Protocol::HTTPS, Address::Domain(Domain::new("example.com").unwrap()), 8702));
    assert_eq!(public.to_string(), "https://example.com:8702");
    assert!(!public.is_loopback(None));
    assert!(public.is_loopback(Some(&public)));
    assert!(host.is_loopback(Some(&public)));

    let other = Host::from((Protocol::HTTPS, Address::localhost(), Some(1)));
    assert!(!other.is_loopback(Some(&public)));

    let bare = Host::from((Protocol::HTTPS, Address::from(Ipv6Addr::localhost())));
    assert_eq!(bare.to_string(), "https://[::1]");
    assert_eq!(bare.port(), None);
}

#[test]
fn host_parse_errors() {
    assert_eq!(
        "example.com".parse::<Host>().unwrap_err().to_string(),
        "invalid protocol: example.com"
    );
    assert_eq!(
        "gopher://example.com".parse::<Host>().unwrap_err().to_string(),
        "invalid protocol: gopher"
    );
    assert!("http://".parse::<Host>().unwrap_err().to_string().starts_with("invalid host: "));
}

#[test]
fn ordering_matches_cmp() {
    let a: Link = "http://127.0.0.1/a".parse().unwrap();
    let b: Link = "http://127.0.0.1/b".parse().unwrap();
    let c: Link = "https://127.0.0.1/a".parse().unwrap();
    let d: Link = "http://[::1]/a".parse().unwrap();
    let e: Link = "http://example.com/a".parse().unwrap();
    let f: Link = "/a".parse().unwrap();
    let g: Link = "/a/b".parse().unwrap();
    let h: Link = "http://127.0.0.1:1/a".parse().unwrap();
    let links = [&a, &b, &c, &d, &e, &f, &g, &h];
    for x in links {
        for y in links {
            assert_eq!(x.partial_cmp(y), Some(x.cmp(y)));
        }
    }
    assert_eq!(a.partial_cmp(&b), Some(Ordering::Less));
    assert_eq!(a.partial_cmp(&c), Some(Ordering::Less));
    assert_eq!(a.partial_cmp(&d), Some(Ordering::Less));
    assert_eq!(d.partial_cmp(&e), Some(Ordering::Less));
    assert_eq!(e.partial_cmp(&f), Some(Ordering::Less));
    assert_eq!(f.partial_cmp(&g), Some(Ordering::Less));
    assert_eq!(a.partial_cmp(&h), Some(Ordering::Less));
    assert_eq!(a.partial_cmp(&a.clone()), Some(Ordering::Equal));
}

#[test]
fn to_url_variants() {
    let link: Link = "https://example.com/a".parse().unwrap();
    let path: PathBuf = "/x/y".parse().unwrap();
    let by_ref = ToUrl::from(&link);
    assert_eq!(by_ref.to_string(), "https://example.com/a");
    assert_eq!(by_ref.host().unwrap().port(), None);
    assert_eq!(by_ref.to_link(), link);
    let owned = ToUrl::from(path.clone());
    assert!(owned.host().is_none());
    assert_eq!(owned.path().len(), 2);
    assert_eq!(owned.to_string(), "/x/y");
    let empty: &[PathSegment] = &[];
    assert_eq!(ToUrl::from(empty).to_string(), "/");
    assert_eq!(ToUrl::from(path.as_slice()).to_link().to_string(), "/x/y");
}

#[test]
fn path_segments_are_validated() {
    assert!(PathSegment::parse("ok-name_1").is_ok());
    for bad in ["", "a/b", "a..b", "a b", "a\u{3000}b", "x?", "\u{1}"] {
        assert!(PathSegment::parse(bad).is_err(), "{bad:?}");
    }
    assert!(PathSegment::parse("a.b").is_ok());
    let mut path = PathBuf::new();
    path.push(PathSegment::parse("a").unwrap());
    path.extend(vec![PathSegment::parse("b").unwrap(), PathSegment::parse("c").unwrap()]);
    assert_eq!(path.to_string(), "/a/b/c");
    let mut link = Link::from(path);
    link.path_mut().push(PathSegment::parse("d").unwrap());
    assert_eq!(link.to_string(), "/a/b/c/d");
}

#[test]
fn link_parts_round_trip() {
    let host: Host = "https://example.com".parse().unwrap();
    let path: PathBuf = "/a".parse().unwrap();
    let link = Link::new(host.clone(), path.clone());
    assert_eq!(link.to_string(), "https://example.com/a");
    let (h, p) = link.clone().into_inner();
    assert_eq!(h, Some(host.clone()));
    assert_eq!(p, path);
    assert_eq!(link.clone().into_host(), Some(host.clone()));
    assert_eq!(link.into_path(), path);
    assert_eq!(Link::from(host).to_string(), "https://example.com/");
}

#[test]
fn host_text_names_its_port() {
    for text in [
        "http://127.0.0.1:80",
        "https://[::1]",
        "https://[2001:db8::1]:8443",
        "http://example.com.:1",
        "https://example.com",
    ] {
        let host: Host = text.parse().expect("host");
        assert_eq!(explicit_port(&host.to_string()).unwrap(), host.port());
        let again: Host = host.to_string().parse().expect("host text");
        assert_eq!(again, host);
    }
}

#[test]
fn link_text_parses_back() {
    for text in [
        "https://example.com/a/b",
        "http://[::1]:8702/",
        "http://10.1.2.3/x",
        "/",
        "/a/b",
    ] {
        let link: Link = text.parse().expect("link");
        let again: Link = link.to_string().parse().expect("link text");
        assert_eq!(again, link);
    }
}

#[test]
fn explicit_port_for_any_prefix_and_host() {
    for pr in ["", "ftp", "a:/b", "x:"] {
        for h in ["h", "user@host", "1.2.3.4", "under_score"] {
            for p in [0u16, 80, 65535] {
                assert_eq!(explicit_port(&format!("{pr}://{h}:{p}")).unwrap(), Some(p));
                assert_eq!(explicit_port(&format!("{pr}://{h}:{p}/")).unwrap(), Some(p));
            }
            assert_eq!(explicit_port(&format!("{pr}://{h}")).unwrap(), None);
        }
        let a = Ipv6Addr::new(0x2001, 0xdb8, 0, 0, 0, 0, 0, 1);
        assert_eq!(explicit_port(&format!("{pr}://[{}]:8080", a.to_string())).unwrap(), Some(8080));
        assert_eq!(explicit_port(&format!("{pr}://[{}]", a.to_string())).unwrap(), None);
    }
}

#[test]
fn host_from_url_report() {
    let report = |scheme: &str, host: Option<HostValue>, path: &str| UrlParts {
        scheme: scheme.to_string(),
        username: String::new(),
        password: None,
        port: None,
        path: path.to_string(),
        query: None,
        fragment: None,
        host,
    };
    let h = Host::from_url("https://1.2.3.4:8443", Protocol::HTTPS, Ok(report("https", Some(HostValue::Ipv4([1, 2, 3, 4])), "/"))).unwrap();
    assert_eq!(h.to_string(), "https://1.2.3.4:8443");
    assert_eq!(h.port(), Some(8443));
    let err = Host::from_url("https://x", Protocol::HTTPS, Ok(report("http", Some(HostValue::Ipv4([1, 2, 3, 4])), "/"))).unwrap_err();
    assert_eq!(err.to_string(), "invalid protocol: https://x");
    let err = Host::from_url("https://x/p", Protocol::HTTPS, Ok(report("https", Some(HostValue::Ipv4([1, 2, 3, 4])), "/p"))).unwrap_err();
    assert_eq!(err.to_string(), "invalid host (unexpected URL components): https://x/p");
    let err = Host::from_url("https://x", Protocol::HTTPS, Ok(report("https", None, "/"))).unwrap_err();
    assert_eq!(err.to_string(), "invalid host (missing address): https://x");
    let err = Host::from_url("https://", Protocol::HTTPS, Err("empty host".to_string())).unwrap_err();
    assert_eq!(err.to_string(), "invalid host: empty host");
}

#[test]
fn segment_error_messages() {
    let message = |s: &str| PathSegment::parse(s).unwrap_err().to_string();
    assert_eq!(message(""), "cannot construct an empty Id");
    assert_eq!(message("a\tb c"), "Id a\tb c contains an ASCII control character 9");
    assert_eq!(message("a..b"), "Id a..b contains disallowed pattern ..");
    assert_eq!(message("a~b/c"), "Id a~b/c contains disallowed pattern /");
    assert_eq!(message("a b"), "Id a b is not allowed to contain whitespace at byte 1");
    assert_eq!(message("é\u{3000}x"), "Id é\u{3000}x is not allowed to contain whitespace at byte 2");
}

#[test]
fn parsed_domains_are_lower_case() {
    assert_eq!(Domain::new("WWW.Example.COM").unwrap().as_str(), "www.example.com");
    let host: Host = "https://Example.COM:8443".parse().unwrap();
    assert_eq!(host.to_string(), "https://example.com:8443");
    let link: Link = "http://EXAMPLE.com/a".parse().unwrap();
    assert_eq!(link.to_string(), "http://example.com/a");
    let kept = Domain::from_normalized("EXAMPLE.COM").unwrap();
    assert_eq!(kept.as_str(), "EXAMPLE.COM");
}
