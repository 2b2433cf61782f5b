use arkhe::arkheobex::{ArkheObject, HeaderType};
use arkhe::identity::{IdentityGateway, PqcAttestation, SignatureGuard};

#[test]
fn signatures_verify_under_their_own_guard() {
    let guard = SignatureGuard::new();
    let sig = guard.sign(b"message");
    assert_eq!(sig.len(), 64);
    assert!(guard.verify(b"message", &sig));
    assert!(!guard.verify(b"other message", &sig));
    assert!(!guard.verify(b"message", &sig[..63]));
}

#[test]
fn signing_is_deterministic() {
    let guard = SignatureGuard::new();
    assert_eq!(guard.sign(b"abc"), guard.sign(b"abc"));
}

#[test]
fn attestation_encoding_roundtrips() {
    let att = PqcAttestation::new(vec![9, 8, 7]);
    let bytes = att.to_bytes();
    assert_eq!(bytes, vec![3, 0, 0, 0, 9, 8, 7]);
    let back = PqcAttestation::from_bytes(&bytes);
    assert_eq!(back.to_bytes(), bytes);
    let long = PqcAttestation::new(vec![1u8; 300]);
    let lb = long.to_bytes();
    assert_eq!(&lb[..4], &[44, 1, 0, 0]);
    assert_eq!(PqcAttestation::from_bytes(&lb).to_bytes(), lb);
}

#[test]
fn attestation_reads_only_its_length() {
    let back = PqcAttestation::from_bytes(&[2, 0, 0, 0, 5, 6, 7, 8]);
    assert_eq!(back.to_bytes(), vec![2, 0, 0, 0, 5, 6]);
}

#[test]
fn attest_object_adds_a_verifiable_header() {
    let guard = SignatureGuard::new();
    let mut obj = ArkheObject::new("hello".to_string(), "did:arkhe:test");
    assert_eq!(obj.id.len(), 36);
    assert_eq!(obj.source_did, "did:arkhe:test");
    assert!(obj.get_header(HeaderType::PqcAttestation).is_none());
    guard.attest_object(&mut obj).unwrap();
    let header = obj.get_header(HeaderType::PqcAttestation).unwrap().to_vec();
    assert_eq!(&header[..4], &[64, 0, 0, 0]);
    assert!(guard.verify(b"hello", &header[4..]));
}

#[test]
fn first_header_of_a_type_wins() {
    let mut obj = ArkheObject::new("x".to_string(), "d");
    obj.add_header(HeaderType::PqcAttestation, vec![1]);
    obj.add_header(HeaderType::PqcAttestation, vec![2]);
    assert_eq!(obj.get_header(HeaderType::PqcAttestation), Some(&[1u8][..]));
    assert_eq!(HeaderType::PqcAttestation.as_u8(), 0xF8);
}

#[test]
fn gateway_accepts_in_prototype() {
    let gw = IdentityGateway::new();
    assert_eq!(gw.verify("did:x", &[1, 2], b"m").ok(), Some(true));
}

#[test]
fn object_ids_have_the_uuid_v4_shape() {
    let obj = ArkheObject::new("x".to_string(), "did:arkhe:a");
    let id: Vec<char> = obj.id.chars().collect();
    assert_eq!(id.len(), 36);
    for (k, c) in id.iter().enumerate() {
        if k == 8 || k == 13 || k == 18 || k == 23 {
            assert_eq!(*c, '-');
        } else {
            assert!(c.is_ascii_digit() || ('a'..='f').contains(c));
        }
    }
    assert_eq!(id[14], '4');
    assert!(['8', '9', 'a', 'b'].contains(&id[19]));
}

#[test]
fn sign_output_prints_the_signature_in_hex() {
    let guard = SignatureGuard::new();
    let out = arkhe::cli::sign_output(&guard, b"payload", "ed25519", "hex").unwrap();
    let expected: String = guard.sign(b"payload").iter().map(|b| format!("{:02x}", b)).collect();
    assert_eq!(out, expected);
    assert_eq!(out.len(), 128);
    assert_eq!(
        arkhe::cli::sign_output(&guard, b"payload", "ed25519", "base64").unwrap(),
        "Base64 output not implemented in prototype. Use hex."
    );
    assert_eq!(
        arkhe::cli::sign_output(&guard, b"payload", "ed25519", "pem").unwrap_err(),
        "Formato de saída inválido"
    );
    assert_eq!(
        arkhe::cli::sign_output(&guard, b"payload", "mldsa", "hex").unwrap_err(),
        "Algoritmo não suportado (apenas ed25519 e mldsa (se habilitado) sao validos)"
    );
}
