use pathlink::{Link, PathBuf, PathSegment};

#[test]
fn parse_link_accepts_https() {
    let link: Link = "https://example.com/a/b".parse().expect("link");
    assert_eq!(link.to_string(), "https://example.com/a/b");
}

#[test]
fn parse_link_accepts_uppercase_https() {
    let link: Link = "HTTPS://EXAMPLE.COM/a/b".parse().expect("link");
    assert_eq!(link.to_string(), "https://example.com/a/b");
}

#[test]
fn parse_link_accepts_ipv6_host() {
    let link: Link = "https://[::1]:443/a/b".parse().expect("link");
    assert_eq!(link.to_string(), "https://[::1]:443/a/b");
}

#[test]
fn parse_link_rejects_unsupported_protocol() {
    let err = "ftp://example.com/a"
        .parse::<Link>()
        .expect_err("unsupported protocol should fail");
    assert!(err.to_string().contains("invalid protocol"));
}

#[test]
fn parse_path_link_round_trip() {
    let link: Link = "/api/v1".parse().expect("path link");
    assert!(link.host().is_none());
    assert_eq!(link.to_string(), "/api/v1");
    let again: Link = link.to_string().parse().expect("path link");
    assert_eq!(again, link);
}

#[test]
fn link_with_trailing_slash_and_port() {
    let link: Link = "http://127.0.0.1:8702/a/".parse().expect("link");
    assert_eq!(link.to_string(), "http://127.0.0.1:8702/a");
    assert_eq!(link.host().unwrap().port(), Some(8702));
    assert_eq!(link.path().len(), 1);
}

#[test]
fn link_host_only_has_root_path() {
    let link: Link = "https://example.com/".parse().expect("link");
    assert!(link.path().is_empty());
    assert_eq!(link.to_string(), "https://example.com/");
}

#[test]
fn link_rejects_bad_segment() {
    let err = "https://example.com/a b".parse::<Link>();
    assert!(err.is_err());
    let err = "https://example.com//a".parse::<Link>().expect_err("empty segment");
    assert!(err.to_string().contains("empty"));
}

#[test]
fn link_protocol_only_is_an_error() {
    assert!("http://".parse::<Link>().is_err());
}

#[test]
fn link_append_and_eq_path() {
    let seg = PathSegment::parse("x").unwrap();
    let link = Link::default().append(seg.clone());
    assert!(link.eq_path(&[seg]));
    assert_eq!(link.to_string(), "/x");
    assert!(link.eq_str("/x"));
    assert!(link.eq_str("/x/"));
    assert!(!link.eq_str("/"));
}

#[test]
fn path_rejects_trailing_slash_and_relative() {
    assert!(PathBuf::parse("/a/").is_err());
    assert!(PathBuf::parse("a").is_err());
    assert!(PathBuf::parse("/").unwrap().is_empty());
}

#[test]
fn path_buf_try_from_link() {
    let link: Link = "https://example.com/a".parse().unwrap();
    let err = PathBuf::try_from_link(link).expect_err("has a host");
    assert_eq!(err.to_string(), "expected a path but found https://example.com/a");
    let link: Link = "/a".parse().unwrap();
    assert_eq!(PathBuf::try_from_link(link).unwrap().to_string(), "/a");
}
