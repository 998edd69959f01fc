use hshs::PowError;
use hshs::H;

const ISSUED: &str = "2015-05-15T00:00:00+00:00";
const DEADLINE: &str = "2015-05-15T01:00:00+00:00";

fn randomness() -> Vec<u8> {
    (0..64u8).collect()
}

fn sample(counter: Vec<u8>, deadline: Option<&str>, metadata: Option<Vec<u8>>) -> H {
    H::from_parts(
        10,
        ISSUED.to_string(),
        deadline.map(|t| t.to_string()),
        randomness(),
        counter,
        metadata,
    )
    .unwrap()
}

fn framed(bytes: &[u8]) -> Vec<u8> {
    let mut out = (bytes.len() as u64).to_le_bytes().to_vec();
    out.extend_from_slice(bytes);
    out
}

#[test]
fn encoding_of_a_plain_challenge_is_exact() {
    let h = sample(vec![255, 3], None, None);
    let mut want: Vec<u8> = vec![10, 0];
    want.extend_from_slice(&[25, 0, 0, 0, 0, 0, 0, 0]);
    want.extend_from_slice(ISSUED.as_bytes());
    want.push(0);
    want.extend_from_slice(&randomness());
    want.extend_from_slice(&[2, 0, 0, 0, 0, 0, 0, 0, 255, 3]);
    want.push(0);
    assert_eq!(h.to_bytes(), want);
    assert_eq!(want.len(), 2 + 8 + 25 + 1 + 64 + 8 + 2 + 1);
}

#[test]
fn encoding_of_a_full_challenge_is_exact() {
    let h = H::from_parts(
        0x1234,
        ISSUED.to_string(),
        Some(DEADLINE.to_string()),
        randomness(),
        Vec::new(),
        Some(vec![9, 8, 7]),
    )
    .unwrap();
    let mut want: Vec<u8> = vec![0x34, 0x12];
    want.extend_from_slice(&framed(ISSUED.as_bytes()));
    want.push(1);
    want.extend_from_slice(&framed(DEADLINE.as_bytes()));
    want.extend_from_slice(&randomness());
    want.extend_from_slice(&framed(&[]));
    want.push(1);
    want.extend_from_slice(&framed(&[9, 8, 7]));
    assert_eq!(h.to_bytes(), want);
}

#[test]
fn encoding_is_deterministic() {
    let a = sample(vec![1, 2, 3], Some(DEADLINE), Some(vec![5]));
    let b = sample(vec![1, 2, 3], Some(DEADLINE), Some(vec![5]));
    assert_eq!(a.to_bytes(), b.to_bytes());
    assert_eq!(a.to_bytes(), a.to_bytes());
}

#[test]
fn decode_of_encode_gives_the_challenge_back() {
    let cases = vec![
        sample(Vec::new(), None, None),
        sample(vec![0], None, None),
        sample(vec![255, 255, 0], Some(DEADLINE), None),
        sample(Vec::new(), Some(DEADLINE), Some(Vec::new())),
        sample(vec![7; 300], Some(""), Some(vec![1; 1000])),
    ];
    for h in cases {
        let bytes = h.to_bytes();
        let back = H::from_bytes(&bytes).unwrap();
        assert_eq!(back, h);
        assert_eq!(back.bits(), h.bits());
        assert_eq!(back.issued_at(), h.issued_at());
        assert_eq!(back.deadline(), h.deadline());
        assert_eq!(back.randomness(), h.randomness());
        assert_eq!(back.counter(), h.counter());
        assert_eq!(back.metadata(), h.metadata());
        assert_eq!(back.to_bytes(), bytes);
    }
}

#[test]
fn decode_keeps_an_empty_counter_and_an_absent_deadline() {
    let h = sample(Vec::new(), None, None);
    let back = H::from_bytes(&h.to_bytes()).unwrap();
    assert!(back.counter().is_empty());
    assert!(back.deadline().is_none());
    assert!(back.metadata().is_none());
    assert_eq!(back.bits(), 10);
    assert_eq!(back.issued_at(), ISSUED);
    assert_eq!(back.randomness(), &randomness());
}

#[test]
fn decode_keeps_text_that_is_not_ascii() {
    let h = H::from_parts(
        1,
        "d\u{e9}j\u{e0} \u{2260} \u{1f600}".to_string(),
        Some("\u{4e16}\u{754c}".to_string()),
        randomness(),
        vec![1],
        None,
    )
    .unwrap();
    let back = H::from_bytes(&h.to_bytes()).unwrap();
    assert_eq!(back, h);
}

#[test]
fn truncated_bytes_are_malformed() {
    let bytes = sample(vec![255, 3], Some(DEADLINE), Some(vec![1, 2, 3])).to_bytes();
    for cut in 0..bytes.len() {
        assert_eq!(H::from_bytes(&bytes[..cut]), Err(PowError::MalformedEncoding));
    }
    assert!(H::from_bytes(&bytes).is_ok());
}

#[test]
fn trailing_bytes_are_malformed() {
    let mut bytes = sample(vec![1], None, None).to_bytes();
    bytes.push(0);
    assert_eq!(H::from_bytes(&bytes), Err(PowError::MalformedEncoding));
}

#[test]
fn empty_input_is_malformed() {
    assert_eq!(H::from_bytes(&[]), Err(PowError::MalformedEncoding));
    assert_eq!(H::from_bytes(&[0]), Err(PowError::MalformedEncoding));
    assert_eq!(H::from_bytes(&[0, 0]), Err(PowError::MalformedEncoding));
}

#[test]
fn unknown_tag_is_malformed() {
    let bytes = sample(vec![1], None, None).to_bytes();
    let tag_at = 2 + 8 + ISSUED.len();
    assert_eq!(bytes[tag_at], 0);
    let mut bad = bytes.clone();
    bad[tag_at] = 2;
    assert_eq!(H::from_bytes(&bad), Err(PowError::MalformedEncoding));
    let last = bytes.len() - 1;
    let mut bad = bytes.clone();
    bad[last] = 7;
    assert_eq!(H::from_bytes(&bad), Err(PowError::MalformedEncoding));
}

#[test]
fn overlong_length_prefix_is_malformed() {
    let bytes = sample(vec![1], None, None).to_bytes();
    let mut bad = bytes.clone();
    bad[2..10].copy_from_slice(&u64::MAX.to_le_bytes());
    assert_eq!(H::from_bytes(&bad), Err(PowError::MalformedEncoding));
    let mut bad = bytes.clone();
    bad[2..10].copy_from_slice(&(bytes.len() as u64).to_le_bytes());
    assert_eq!(H::from_bytes(&bad), Err(PowError::MalformedEncoding));
}

#[test]
fn text_that_is_not_utf8_is_malformed() {
    let bytes = sample(vec![1], Some(DEADLINE), None).to_bytes();
    let mut bad = bytes.clone();
    bad[10] = 0xff;
    assert_eq!(H::from_bytes(&bad), Err(PowError::MalformedEncoding));
    let deadline_at = 2 + 8 + ISSUED.len() + 1 + 8;
    let mut bad = bytes.clone();
    bad[deadline_at] = 0xc0;
    assert_eq!(H::from_bytes(&bad), Err(PowError::MalformedEncoding));
}

#[test]
fn changed_bytes_never_decode_to_the_same_challenge() {
    let h = sample(vec![255, 3], Some(DEADLINE), Some(vec![1, 2, 3]));
    let bytes = h.to_bytes();
    for i in 0..bytes.len() {
        let mut changed = bytes.clone();
        changed[i] ^= 0x01;
        match H::from_bytes(&changed) {
            Ok(other) => {
                assert_ne!(other, h);
                assert_eq!(other.to_bytes(), changed);
            }
            Err(e) => assert_eq!(e, PowError::MalformedEncoding),
        }
    }
}

#[test]
fn from_parts_wants_sixty_four_bytes_of_randomness() {
    for n in [0usize, 1, 63, 65, 128] {
        let r = H::from_parts(1, ISSUED.to_string(), None, vec![0; n], Vec::new(), None);
        assert!(r.is_none());
    }
    assert!(H::from_parts(1, ISSUED.to_string(), None, vec![0; 64], Vec::new(), None).is_some());
}

#[test]
fn clear_counter_resets_the_counter_only() {
    let mut h = sample(vec![255, 255, 9], Some(DEADLINE), Some(vec![4, 4]));
    h.clear_counter();
    assert_eq!(h, sample(Vec::new(), Some(DEADLINE), Some(vec![4, 4])));
    assert!(h.counter().is_empty());
    h.clear_counter();
    assert!(h.counter().is_empty());
}

#[test]
fn increment_moves_the_counter_only() {
    let mut h = sample(Vec::new(), Some(DEADLINE), Some(vec![4, 4]));
    h.increment_counter();
    assert_eq!(h, sample(vec![0], Some(DEADLINE), Some(vec![4, 4])));
    for _ in 0..256 {
        h.increment_counter();
    }
    assert_eq!(h, sample(vec![255, 0], Some(DEADLINE), Some(vec![4, 4])));
}

#[test]
fn counter_changes_the_encoding() {
    let mut h = sample(Vec::new(), None, None);
    let mut seen: Vec<Vec<u8>> = Vec::new();
    for _ in 0..600 {
        let bytes = h.to_bytes();
        assert!(!seen.contains(&bytes));
        seen.push(bytes);
        h.increment_counter();
    }
}
