use wwwvm::tls::{accept_certificates, accept_key, load_certificates, load_key, KeyKind, TlsError};

fn section(label: &str, base64: &str) -> String {
    format!("-----BEGIN {label}-----\n{base64}\n-----END {label}-----\n")
}

#[test]
fn certificates_are_found_in_order() {
    let file = format!(
        "{}junk\n{}{}",
        section("CERTIFICATE", "AQID"),
        section("PUBLIC KEY", "CQ=="),
        section("CERTIFICATE", "BAU=")
    );
    assert_eq!(load_certificates(file.as_bytes()), Ok(vec![vec![1, 2, 3], vec![4, 5]]));
}

#[test]
fn files_without_certificates_are_refused() {
    assert_eq!(load_certificates(b"not a pem"), Err(TlsError::NoCertificates));
    assert_eq!(load_certificates(b""), Err(TlsError::NoCertificates));
    let damaged = section("CERTIFICATE", "????");
    assert_eq!(load_certificates(damaged.as_bytes()), Err(TlsError::BadCertificates));
}

#[test]
fn the_first_key_is_taken() {
    for (label, kind) in [
        ("RSA PRIVATE KEY", KeyKind::Pkcs1),
        ("EC PRIVATE KEY", KeyKind::Sec1),
        ("PRIVATE KEY", KeyKind::Pkcs8),
    ] {
        let file = format!("{}{}", section("CERTIFICATE", "AQID"), section(label, "BAUG"));
        let key = load_key(file.as_bytes()).unwrap();
        assert_eq!((key.kind, key.der), (kind, vec![4, 5, 6]));
    }
}

#[test]
fn files_without_a_key_are_refused() {
    let certs = section("CERTIFICATE", "AQID");
    assert_eq!(load_key(certs.as_bytes()).unwrap_err(), TlsError::NoKey);
    let damaged = section("PRIVATE KEY", "????");
    assert_eq!(load_key(damaged.as_bytes()).unwrap_err(), TlsError::BadKey);
}

#[test]
fn what_was_found_decides() {
    assert_eq!(accept_certificates(None), Err(TlsError::BadCertificates));
    assert_eq!(accept_certificates(Some(vec![])), Err(TlsError::NoCertificates));
    assert_eq!(accept_certificates(Some(vec![vec![7]])), Ok(vec![vec![7]]));
    assert_eq!(accept_key(None).unwrap_err(), TlsError::BadKey);
    assert_eq!(accept_key(Some(None)).unwrap_err(), TlsError::NoKey);
}
