use hshs::digest::digest;

fn hex(bytes: &[u8]) -> String {
    let mut out = String::new();
    for b in bytes {
        out.push_str(&format!("{:02x}", b));
    }
    out
}

#[test]
fn digest_of_nothing_is_the_sha3_512_of_the_empty_string() {
    let d = digest(&[]).unwrap();
    assert_eq!(d.len(), 64);
    assert_eq!(
        hex(&d),
        "a69f73cca23a9ac5c8b567dc185a756e97c982164fe25859e0d1dcc1475c80a6\
         15b2123af1f5f94c11e3e9402c3ac558f500199d95b6d3e301758586281dcd26"
    );
}

#[test]
fn digest_of_abc_is_the_known_answer() {
    let d = digest(b"abc").unwrap();
    assert_eq!(
        hex(&d),
        "b751850b1a57168a5693cd924b6b096e08f621827444f70d884f5d0240d2712e\
         10e116e9192af3c91a7ec57647e3934057340b4cf408d5a56592f8274eec53f0"
    );
}

#[test]
fn digest_depends_on_the_input_alone() {
    let a = digest(b"one input").unwrap();
    let b = digest(b"one input").unwrap();
    let c = digest(b"one inpuu").unwrap();
    assert_eq!(a, b);
    assert_ne!(a, c);
    assert_ne!(a, b"one input".to_vec());
}
