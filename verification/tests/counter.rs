use hshs::counter::increment_counter;

#[test]
fn counter_sequence_from_empty() {
    let mut c: Vec<u8> = Vec::new();
    increment_counter(&mut c);
    assert_eq!(c, vec![0]);
    increment_counter(&mut c);
    assert_eq!(c, vec![1]);
    for step in 2..=255u8 {
        increment_counter(&mut c);
        assert_eq!(c, vec![step]);
    }
    increment_counter(&mut c);
    assert_eq!(c, vec![255, 0]);
    increment_counter(&mut c);
    assert_eq!(c, vec![255, 1]);
    for _ in 0..254 {
        increment_counter(&mut c);
    }
    assert_eq!(c, vec![255, 255]);
    increment_counter(&mut c);
    assert_eq!(c, vec![255, 255, 0]);
}

#[test]
fn all_max_counter_grows_by_one_zero_byte() {
    for k in 0..20usize {
        let mut c = vec![255u8; k];
        increment_counter(&mut c);
        assert_eq!(c.len(), k + 1);
        assert_eq!(c[k], 0);
        assert_eq!(&c[..k], &vec![255u8; k][..]);
    }
}

#[test]
fn last_byte_below_max_is_bumped_without_carry() {
    let mut c = vec![3u8, 255];
    increment_counter(&mut c);
    assert_eq!(c, vec![4, 255]);

    let mut c = vec![7u8, 9, 255, 255];
    increment_counter(&mut c);
    assert_eq!(c, vec![7, 10, 255, 255]);

    let mut c = vec![0u8, 0];
    increment_counter(&mut c);
    assert_eq!(c, vec![0, 1]);

    let mut c = vec![254u8];
    increment_counter(&mut c);
    assert_eq!(c, vec![255]);
}

fn visited_before(a: &[u8], b: &[u8]) -> bool {
    a.len() < b.len() || (a.len() == b.len() && a < b)
}

#[test]
fn counter_sequence_is_strictly_increasing_and_never_repeats() {
    let mut seen: Vec<Vec<u8>> = Vec::new();
    let mut c: Vec<u8> = Vec::new();
    for _ in 0..1200 {
        let before = c.clone();
        increment_counter(&mut c);
        assert!(visited_before(&before, &c));
        seen.push(before);
    }
    for i in 0..seen.len() {
        assert!(visited_before(&seen[i], &c));
        if i > 0 {
            assert!(visited_before(&seen[i - 1], &seen[i]));
            assert_ne!(seen[i - 1], seen[i]);
        }
    }
    let mut sorted = seen.clone();
    sorted.sort();
    sorted.dedup();
    assert_eq!(sorted.len(), seen.len());
}
