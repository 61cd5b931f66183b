use zkp_toy::codec::{decode_point, encode_point, scalar_from_hex, scalar_to_hex, ProofError};
use zkp_toy::group::{Point, Scalar};
use zkp_toy::schnorr::{
    compute_challenge_scalar, create_proof, create_proof_with_nonce, random_scalar,
    scalar_from_wide_bytes, verify_proof,
};

const BASE_B64: &str = "4vKuCmq8TnGohKlhxQBRX1jjC2qlgt2NtqZZReCNLXY=";
const BASE_HEX: &str = "e2f2ae0a6abc4e71a884a961c500515f58e30b6aa582dd8db6a65945e08d2d76";
const ONE_HEX: &str = "0100000000000000000000000000000000000000000000000000000000000000";
const MESSAGE: &str = "Hello from seller network";

fn scalar(hex: &str) -> Scalar {
    scalar_from_hex(hex).unwrap()
}

fn base_point() -> Point {
    decode_point(BASE_B64).unwrap()
}

fn fixed_secret() -> Scalar {
    scalar("2a00000000000000000000000000000000000000000000000000000000000000")
}

#[test]
fn base_point_decodes_to_its_bytes() {
    let p = base_point();
    let mut expected = [0u8; 32];
    expected.copy_from_slice(&hex::decode(BASE_HEX).unwrap());
    assert_eq!(p.to_bytes(), expected);
}

#[test]
fn point_round_trip() {
    let p = base_point();
    assert_eq!(encode_point(&p), BASE_B64);
    let (pub_b64, commit_b64, _) = create_proof(&fixed_secret(), MESSAGE);
    for text in [pub_b64, commit_b64] {
        let q = decode_point(&text).unwrap();
        assert_eq!(encode_point(&q), text);
    }
}

#[test]
fn scalar_round_trip() {
    for hex in [ONE_HEX, "2a00000000000000000000000000000000000000000000000000000000000000"] {
        assert_eq!(scalar_to_hex(&scalar(hex)), hex);
    }
    let s = random_scalar();
    let back = scalar_from_hex(&scalar_to_hex(&s)).unwrap();
    assert_eq!(back.to_bytes(), s.to_bytes());
}

#[test]
fn scalar_from_hex_accepts_uppercase() {
    let upper = BASE_HEX.to_uppercase();
    assert_eq!(scalar_to_hex(&scalar(&upper)), scalar_to_hex(&scalar(BASE_HEX)));
}

#[test]
fn scalar_from_hex_reduces_out_of_range_bytes() {
    let all_ones = "ff".repeat(32);
    assert_eq!(
        scalar_to_hex(&scalar(&all_ones)),
        "1c95988d7431ecd670cf7d73f45befc6feffffffffffffffffffffffffffff0f"
    );
}

#[test]
fn scalar_from_hex_rejects_malformed_text() {
    assert_eq!(scalar_from_hex("abc").err(), Some(ProofError::Decode));
    assert_eq!(scalar_from_hex(&"zz".repeat(32)).err(), Some(ProofError::Decode));
    assert_eq!(scalar_from_hex(&"00".repeat(31)).err(), Some(ProofError::Decode));
    assert_eq!(scalar_from_hex(&"00".repeat(33)).err(), Some(ProofError::Decode));
    assert_eq!(scalar_from_hex("").err(), Some(ProofError::Decode));
}

#[test]
fn wide_reduction_is_exact() {
    let s = scalar_from_wide_bytes(&[0xff; 64]);
    assert_eq!(
        scalar_to_hex(&s),
        "000f9c44e31106a447938568a71b0ed065bef517d273ecce3d9a307c1b419903"
    );
}

#[test]
fn decode_point_rejects_wrong_lengths() {
    let short = "AAAAAAAAAAAAAAAAAAAAAAAAAAAAAAAAAAAAAAAAAA==";
    let long = "AAAAAAAAAAAAAAAAAAAAAAAAAAAAAAAAAAAAAAAAAAAA";
    assert_eq!(decode_point(short).err(), Some(ProofError::Decode));
    assert_eq!(decode_point(long).err(), Some(ProofError::Decode));
}

#[test]
fn decode_point_rejects_bad_base64() {
    assert_eq!(decode_point("not base64!").err(), Some(ProofError::Decode));
    assert_eq!(decode_point("4vKuCmq8TnGohKlhxQBRX1jjC2qlgt2NtqZZReCNLXY").err(), Some(ProofError::Decode));
}

#[test]
fn decode_point_rejects_invalid_encodings() {
    let all_ones = "//////////////////////////////////////////8=";
    assert_eq!(decode_point(all_ones).err(), Some(ProofError::InvalidPoint));
    assert!(Point::from_bytes([0xff; 32]).is_none());
    assert!(Point::from_bytes([0; 32]).is_some());
}

#[test]
fn challenge_test_vector() {
    let g = base_point();
    let c = compute_challenge_scalar(&g, &g, "abc");
    assert_eq!(
        scalar_to_hex(&c),
        "d1aa2b45f3194b88fd3758045cfc4cf5b6eab2b34e3ee580b3e1fbf8f5aaeb0a"
    );
}

#[test]
fn challenge_is_deterministic() {
    let (pub_b64, commit_b64, _) = create_proof(&fixed_secret(), MESSAGE);
    let x = decode_point(&pub_b64).unwrap();
    let r = decode_point(&commit_b64).unwrap();
    let c1 = compute_challenge_scalar(&x, &r, MESSAGE);
    let c2 = compute_challenge_scalar(&x, &r, MESSAGE);
    assert_eq!(c1.to_bytes(), c2.to_bytes());
    let c3 = compute_challenge_scalar(&x, &r, "another message");
    assert_ne!(c1.to_bytes(), c3.to_bytes());
}

#[test]
fn proof_with_fixed_nonce() {
    let one = scalar(ONE_HEX);
    let (pub_b64, commit_b64, response_hex) = create_proof_with_nonce(&one, &one, MESSAGE);
    assert_eq!(pub_b64, BASE_B64);
    assert_eq!(commit_b64, BASE_B64);
    assert_eq!(
        response_hex,
        "91f7927ebf553292e910dd946d7bb25c1eb50b5e6cfead4b73d2022260909009"
    );
    assert_eq!(verify_proof(&pub_b64, &commit_b64, &response_hex, MESSAGE), Ok(true));
}

#[test]
fn completeness() {
    for msg in ["", MESSAGE, "ünïcödé"] {
        let secret = random_scalar();
        let (p, c, s) = create_proof(&secret, msg);
        assert_eq!(verify_proof(&p, &c, &s, msg), Ok(true));
    }
}

#[test]
fn message_binding() {
    let secret = fixed_secret();
    let (p, c, s) = create_proof(&secret, MESSAGE);
    assert_eq!(verify_proof(&p, &c, &s, "Hello from seller network!"), Ok(false));
    assert_eq!(verify_proof(&p, &c, &s, ""), Ok(false));
}

#[test]
fn tampered_fields_never_verify() {
    let (p, c, s) = create_proof(&fixed_secret(), MESSAGE);
    let flip = |text: &str, i: usize, bit: u8| -> String {
        let mut bytes = text.as_bytes().to_vec();
        bytes[i] ^= bit;
        String::from_utf8(bytes).unwrap()
    };
    for i in 0..p.len() {
        for bit in [1u8, 2, 4, 8, 16, 32, 64] {
            assert_ne!(verify_proof(&flip(&p, i, bit), &c, &s, MESSAGE), Ok(true));
            assert_ne!(verify_proof(&p, &flip(&c, i, bit), &s, MESSAGE), Ok(true));
        }
    }
    for i in 0..s.len() {
        for bit in [1u8, 2, 4, 8, 16, 32, 64] {
            let tampered = flip(&s, i, bit);
            let result = verify_proof(&p, &c, &tampered, MESSAGE);
            if bit == 32 && s.as_bytes()[i].is_ascii_alphabetic() {
                // Only the letter's case changes, and hex digits of either case decode alike.
                assert_eq!(result, Ok(true));
            } else {
                assert_ne!(result, Ok(true));
            }
        }
    }
}

#[test]
fn concrete_scenario() {
    let secret = fixed_secret();
    let (p, c, s) = create_proof(&secret, MESSAGE);
    assert_eq!(verify_proof(&p, &c, &s, MESSAGE), Ok(true));

    // A hex digit replaced by another hex digit still decodes: the proof is rejected.
    let mut chars: Vec<char> = s.chars().collect();
    chars[0] = if chars[0] == '0' { '1' } else { '0' };
    let other_digit: String = chars.iter().collect();
    assert_eq!(verify_proof(&p, &c, &other_digit, MESSAGE), Ok(false));

    // A character that is not a hex digit fails to decode.
    chars[0] = 'g';
    let not_hex: String = chars.iter().collect();
    assert_eq!(verify_proof(&p, &c, &not_hex, MESSAGE), Err(ProofError::Decode));
}

#[test]
fn malformed_fields_give_errors() {
    let (p, c, s) = create_proof(&fixed_secret(), MESSAGE);
    let bad_point = "//////////////////////////////////////////8=";
    assert_eq!(verify_proof("", &c, &s, MESSAGE), Err(ProofError::Decode));
    assert_eq!(verify_proof(bad_point, &c, &s, MESSAGE), Err(ProofError::InvalidPoint));
    assert_eq!(verify_proof(&p, bad_point, &s, MESSAGE), Err(ProofError::InvalidPoint));
    assert_eq!(verify_proof(&p, &c, "00", MESSAGE), Err(ProofError::Decode));
}

#[test]
fn nonces_are_fresh() {
    let secret = fixed_secret();
    let (p1, c1, s1) = create_proof(&secret, MESSAGE);
    let (p2, c2, s2) = create_proof(&secret, MESSAGE);
    assert_eq!(p1, p2);
    assert_ne!(c1, c2);
    assert_ne!(s1, s2);
}

#[test]
fn random_scalars_differ() {
    assert_ne!(random_scalar().to_bytes(), random_scalar().to_bytes());
}
