use px_core::pem::{pinned_certificates, private_key_from_pem, CertError, KeyError, PrivateKey};

fn block(label: &str, base64: &str) -> String {
    format!("-----BEGIN {label}-----\n{base64}\n-----END {label}-----\n")
}

#[test]
fn certificates_are_taken_in_order() {
    let pem = format!("{}{}{}", block("CERTIFICATE", "AQID"), block("PRIVATE KEY", "BAUG"), block("CERTIFICATE", "BwgJ"));
    assert_eq!(pinned_certificates(pem.as_bytes()), Ok(vec![vec![1, 2, 3], vec![7, 8, 9]]));
    assert_eq!(pinned_certificates(b""), Ok(Vec::new()));
}

#[test]
fn unreadable_certificates_are_refused() {
    let pem = block("CERTIFICATE", "!!!!");
    assert_eq!(pinned_certificates(pem.as_bytes()), Err(CertError::Unparsable));
}

#[test]
fn pkcs8_key_comes_first_then_rsa() {
    let both = format!("{}{}", block("RSA PRIVATE KEY", "AQID"), block("PRIVATE KEY", "BAUG"));
    match private_key_from_pem(both.as_bytes()) {
        Ok(PrivateKey::Pkcs8(der)) => assert_eq!(der, vec![4, 5, 6]),
        _ => panic!("the PKCS#8 key was expected"),
    }
    let rsa = format!("{}{}", block("CERTIFICATE", "BwgJ"), block("RSA PRIVATE KEY", "AQID"));
    match private_key_from_pem(rsa.as_bytes()) {
        Ok(PrivateKey::Pkcs1(der)) => assert_eq!(der, vec![1, 2, 3]),
        _ => panic!("the RSA key was expected"),
    }
}

#[test]
fn missing_and_unreadable_keys() {
    let none = block("CERTIFICATE", "AQID");
    assert!(matches!(private_key_from_pem(none.as_bytes()), Err(KeyError::Missing)));
    let bad = block("PRIVATE KEY", "!!!!");
    assert!(matches!(private_key_from_pem(bad.as_bytes()), Err(KeyError::Unparsable)));
}
