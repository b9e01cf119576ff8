//! A URL type whose path can also be used as a filesystem path.
//!
//! A [`Link`] is an optional [`Host`] (an HTTP or HTTPS [`Protocol`], an
//! [`Address`] and an optional [`Port`]) followed by a [`PathBuf`] of
//! validated [`PathSegment`]s. Addresses are IPv4 or IPv6 addresses or
//! [`Domain`] names, which are normalized to ASCII/Punycode by the `url`
//! crate and then checked as DNS-style labels.
//!
//! Every parser states exactly which inputs it accepts and which error each
//! rejected input gets, and every type's text and order are stated over its
//! view.

pub mod text;
pub mod error;
pub mod url_parts;
pub mod port;
pub mod protocol;
pub mod domain;
pub mod address;
pub mod host;
pub mod path;
pub mod link;
pub mod to_url;
pub mod order;
pub mod ordering;

pub use address::{Address, IpAddr, Ipv4Addr, Ipv6Addr};
pub use domain::Domain;
pub use error::ParseError;
pub use host::Host;
pub use link::Link;
pub use path::{PathBuf, PathSegment};
pub use port::Port;
pub use protocol::Protocol;
pub use to_url::ToUrl;
