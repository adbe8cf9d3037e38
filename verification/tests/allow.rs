use wwwvm::allow::Allowlist;


#[test]
fn empty_allowlist_denies_everything() {
    let a = Allowlist::parse("");
    assert!(!a.permits("example.com", 80));
    assert!(!a.permits_host("example.com"));
    assert!(a.is_empty());
}

#[test]
fn star_allows_anything() {
    let a = Allowlist::parse("*");
    assert!(a.permits("evil.example.com", 9000));
    assert!(a.permits_host("evil.example.com"));
    assert!(!a.is_empty());
}

#[test]
fn host_port_exact_match() {
    let a = Allowlist::parse("example.com:443");
    assert!(a.permits("example.com", 443));
    assert!(!a.permits("example.com", 80));
    assert!(!a.permits("other.com", 443));
}

#[test]
fn host_wildcard_port() {
    let a = Allowlist::parse("example.com:*");
    assert!(a.permits("example.com", 80));
    assert!(a.permits("example.com", 443));
    assert!(!a.permits("other.com", 443));
}

#[test]
fn host_match_is_case_insensitive() {
    let a = Allowlist::parse("Example.COM:443");
    assert!(a.permits("example.com", 443));
    assert!(a.permits_host("EXAMPLE.com"));
}

/// Multiple comma-separated entries compose with OR semantics: a host
/// matching *any* entry is allowed. A regression collapsing the split
/// (one entry of the whole joined string) would deny everything except
/// the exact "a:80,b:443" hostname — silently breaking multi-host lists.
#[test]
fn multiple_entries_compose_or() {
    let a = Allowlist::parse("example.com:443,localhost:8080");
    assert!(a.permits("example.com", 443));
    assert!(a.permits("localhost", 8080));
    assert!(!a.permits("example.com", 8080), "wrong port");
    assert!(!a.permits("localhost", 443), "wrong port");
    assert!(!a.permits("other.com", 443), "host not in list");
}

/// Whitespace around entries is trimmed — users naturally write
/// `"a:80, b:443"`; if the trim drops, `" b:443"` never matches `"b"`.
#[test]
fn whitespace_around_entries_is_trimmed() {
    let a = Allowlist::parse("  example.com:443  ,\tlocalhost:8080");
    assert!(a.permits("example.com", 443));
    assert!(a.permits("localhost", 8080));
}

/// A bare host with no `:port` means "any port on this host" — distinct
/// from `host:*` but with the same outcome.
#[test]
fn host_without_colon_allows_any_port() {
    let a = Allowlist::parse("example.com");
    assert!(a.permits("example.com", 80));
    assert!(a.permits("example.com", 443));
    assert!(a.permits("example.com", 31337));
    assert!(!a.permits("other.com", 80));
}

/// permits_host is port-agnostic but still host-scoped: it must not
/// authorize names that aren't in the list (no open resolver).
#[test]
fn permits_host_is_still_deny_by_default() {
    let a = Allowlist::parse("dl-cdn.alpinelinux.org:443");
    assert!(a.permits_host("dl-cdn.alpinelinux.org"));
    assert!(!a.permits_host("evil.example.com"));
}
