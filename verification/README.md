# pathlink

A URL type whose path can also be used as a filesystem path, verified with
Verus.

`src/` is the verified library: protocols, domain names (normalized to
ASCII/Punycode by the `url` crate, then checked as DNS-style labels), IPv4
and IPv6 addresses with their text forms, hosts, paths of validated segments
(checked by `hr-id`), links, and their order. Each parser states exactly what
it accepts and which error message each rejected input gets; the text of a
host, path or link is stated exactly, and laws tie text and parsing together
(the port written in a host's text is the port read back; a path's text
parses back to the path; the order of links is a strict total order).

`app/` holds what Verus does not see: `Display` and serde impls for copies of
the library's types, conversions to and from `std::net` addresses, and
parsing a `ToUrl` into any `FromStr` type.
