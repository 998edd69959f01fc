use hshs::time::{now, parse_rfc3339};
use hshs::Instant;
use hshs::PowError;
use hshs::TimeSpan;
use hshs::H;
use std::time::Duration;

const MAY_15: Instant = Instant { secs: 1_431_648_000, nanos: 0 };

fn wait_until_after(end: &Instant) {
    loop {
        let at = now().unwrap();
        if at.is_after(end) {
            return;
        }
    }
}

#[test]
fn simulation_test() {
    // A generate challenge
    let mut challenge = H::new(10, None, None).unwrap();
    println!("Challenge: {}", challenge.render().unwrap());

    // B receive challenge and solve
    assert!(challenge.solve(None).unwrap());
    println!("solved challenge!");

    //send to A and verify
    assert!(challenge.verify().unwrap());
    println!("done");
}

#[test]
fn test_deadline() {
    let deadline = TimeSpan::from_millis(1);
    let mut c = H::new(1, Some(&deadline), None).unwrap();

    let end = parse_rfc3339(c.deadline().as_ref().unwrap()).unwrap();
    wait_until_after(&end);
    assert!(c.solve(None).unwrap());

    //try verify after deadline
    assert!(c.verify_hash().unwrap());
    assert!(!c.verify_deadline().unwrap());
    assert!(!c.verify().unwrap());

    //in time
    let deadline = TimeSpan::from_secs(3600);
    let mut c = H::new(1, Some(&deadline), None).unwrap();
    assert!(c.solve(None).unwrap());
    assert!(c.verify_deadline().unwrap());
    assert!(c.verify().unwrap());
}

#[test]
fn solve_with_zero_timeout_gives_up_and_can_be_resumed() {
    let mut c = H::issue(60, &MAY_15, None, vec![3; 64], None).unwrap();
    assert_eq!(c.solve(Some(Duration::from_secs(0))), Ok(false));
    let reached = c.counter().clone();
    assert!(!reached.is_empty());
    let back = H::from_bytes(&c.to_bytes()).unwrap();
    assert_eq!(back, c);
    assert_eq!(c.solve(Some(Duration::from_nanos(1))), Ok(false));
    assert!(
        c.counter().len() > reached.len()
            || (c.counter().len() == reached.len() && c.counter() > &reached)
    );
    assert_eq!(c.verify(), Ok(false));

    let mut easy = H::issue(2, &MAY_15, None, vec![3; 64], None).unwrap();
    while !easy.solve(Some(Duration::from_secs(0))).unwrap() {}
    assert!(easy.verify_hash().unwrap());
    let mut whole = H::issue(2, &MAY_15, None, vec![3; 64], None).unwrap();
    assert!(whole.solve(None).unwrap());
    assert_eq!(easy, whole);
}

#[test]
fn solve_finds_the_first_counter_that_meets_the_difficulty() {
    for bits in [0u16, 1, 3, 8, 10] {
        let mut c = H::issue(bits, &MAY_15, None, vec![bits as u8; 64], None).unwrap();
        assert_eq!(c.solve(None), Ok(true));
        assert_eq!(c.verify_hash(), Ok(true));
        assert_eq!(hshs::u8_slice_clz(&c.hash().unwrap()), bits as usize);

        let mut walk = H::issue(bits, &MAY_15, None, vec![bits as u8; 64], None).unwrap();
        while walk.counter() != c.counter() {
            assert_eq!(walk.verify_hash(), Ok(false));
            walk.increment_counter();
        }
        assert_eq!(walk, c);
    }
}

#[test]
fn solve_changes_the_counter_only() {
    let hour = TimeSpan::from_secs(3600);
    let mut c = H::issue(9, &MAY_15, Some(&hour), vec![5; 64], Some(&[1, 2])).unwrap();
    assert!(c.solve(None).unwrap());
    let mut fresh = H::issue(9, &MAY_15, Some(&hour), vec![5; 64], Some(&[1, 2])).unwrap();
    assert_ne!(c, fresh);
    c.clear_counter();
    assert_eq!(c, fresh);
    assert!(fresh.solve(Some(Duration::from_secs(3600))).unwrap());
}

#[test]
fn solve_on_a_solved_challenge_leaves_it_alone() {
    let mut c = H::issue(6, &MAY_15, None, vec![9; 64], None).unwrap();
    assert!(c.solve(None).unwrap());
    let solved = c.to_bytes();
    assert!(c.solve(None).unwrap());
    assert_eq!(c.to_bytes(), solved);
    assert!(c.solve(Some(Duration::from_secs(0))).unwrap());
    assert_eq!(c.to_bytes(), solved);
}

#[test]
fn solve_that_gives_up_has_moved_the_counter() {
    for limit in [Duration::from_secs(0), Duration::from_nanos(1), Duration::from_micros(50)] {
        let mut c = H::issue(60, &MAY_15, None, vec![6; 64], None).unwrap();
        let mut steps = 0usize;
        for _ in 0..3 {
            let before = c.counter().clone();
            assert_eq!(c.verify_hash(), Ok(false));
            assert_eq!(c.solve(Some(limit)), Ok(false));
            assert_ne!(c.counter(), &before);
            assert!(c.counter().len() >= before.len());
            steps += 1;
        }
        assert_eq!(steps, 3);
    }
}

#[test]
fn solve_returns_true_on_a_solved_challenge_whatever_the_limit() {
    let mut c = H::issue(7, &MAY_15, None, vec![11; 64], None).unwrap();
    assert_eq!(c.solve(None), Ok(true));
    let solved = c.counter().clone();
    for limit in [None, Some(Duration::from_secs(0)), Some(Duration::from_secs(5))] {
        assert_eq!(c.solve(limit), Ok(true));
        assert_eq!(c.counter(), &solved);
    }
}

#[test]
fn hash_has_sixty_four_bytes() {
    let mut c = H::issue(0, &MAY_15, None, vec![1; 64], Some(&[9; 100])).unwrap();
    for _ in 0..300 {
        assert_eq!(c.hash().unwrap().len(), 64);
        c.increment_counter();
    }
}

#[test]
fn solve_does_not_depend_on_the_deadline() {
    let milli = TimeSpan::from_millis(1);
    let mut late = H::issue(7, &MAY_15, Some(&milli), vec![4; 64], None).unwrap();
    assert!(late.solve(None).unwrap());
    assert_eq!(late.verify_hash(), Ok(true));
    assert_eq!(late.verify_deadline(), Ok(false));
    assert_eq!(late.verify(), Ok(false));
}

#[test]
fn deadline_check_at_chosen_instants() {
    let hour = TimeSpan::from_secs(3600);
    let c = H::issue(0, &MAY_15, Some(&hour), vec![0; 64], None).unwrap();
    let end = Instant { secs: MAY_15.secs + 3600, nanos: 0 };
    assert!(c.verify_deadline_at(&MAY_15));
    assert!(c.verify_deadline_at(&Instant { secs: 0, nanos: 0 }));
    assert!(c.verify_deadline_at(&Instant { secs: end.secs - 1, nanos: 999_999_999 }));
    assert!(c.verify_deadline_at(&end));
    assert!(!c.verify_deadline_at(&Instant { secs: end.secs, nanos: 1 }));
    assert!(!c.verify_deadline_at(&Instant { secs: end.secs + 1, nanos: 0 }));

    let open = H::issue(0, &MAY_15, None, vec![0; 64], None).unwrap();
    assert!(open.verify_deadline_at(&Instant { secs: i64::MAX, nanos: 0 }));
    assert_eq!(open.verify_deadline(), Ok(true));
}

#[test]
fn deadline_is_compared_as_an_absolute_instant() {
    let text = "2015-05-15T03:00:00+02:00".to_string();
    let c = H::from_parts(0, "2015-05-15T00:00:00Z".to_string(), Some(text), vec![0; 64], vec![], None)
        .unwrap();
    let end = Instant { secs: MAY_15.secs + 3600, nanos: 0 };
    assert!(c.verify_deadline_at(&end));
    assert!(!c.verify_deadline_at(&Instant { secs: end.secs, nanos: 1 }));
}

#[test]
fn deadline_that_is_no_timestamp_fails_the_check() {
    for text in ["", "soon", "2015-05-15", "2015-05-15T00:00:00"] {
        let c = H::from_parts(
            0,
            "2015-05-15T00:00:00Z".to_string(),
            Some(text.to_string()),
            vec![0; 64],
            vec![],
            None,
        )
        .unwrap();
        assert!(!c.verify_deadline_at(&Instant { secs: 0, nanos: 0 }));
        assert_eq!(c.verify_deadline(), Ok(false));
        assert_eq!(c.verify(), Ok(false));
    }
}

#[test]
fn verify_at_needs_both_checks() {
    let hour = TimeSpan::from_secs(3600);
    let mut c = H::issue(5, &MAY_15, Some(&hour), vec![8; 64], None).unwrap();
    let end = Instant { secs: MAY_15.secs + 3600, nanos: 0 };
    let late = Instant { secs: end.secs + 1, nanos: 0 };
    if !c.verify_hash().unwrap() {
        assert_eq!(c.verify_at(&MAY_15), Ok(false));
    }
    assert!(c.solve(None).unwrap());
    assert_eq!(c.verify_at(&MAY_15), Ok(true));
    assert_eq!(c.verify_at(&end), Ok(true));
    assert_eq!(c.verify_at(&late), Ok(false));
    c.increment_counter();
    if !c.verify_hash().unwrap() {
        assert_eq!(c.verify_at(&MAY_15), Ok(false));
    }
}

#[test]
fn verify_does_not_change_the_challenge() {
    let mut c = H::issue(4, &MAY_15, None, vec![2; 64], None).unwrap();
    assert!(c.solve(None).unwrap());
    let bytes = c.to_bytes();
    for _ in 0..3 {
        assert_eq!(c.verify(), Ok(true));
        assert_eq!(c.to_bytes(), bytes);
    }
}

#[test]
fn hash_is_the_digest_of_the_encoding() {
    let c = H::issue(4, &MAY_15, None, vec![2; 64], None).unwrap();
    let d = c.hash().unwrap();
    assert_eq!(d, hshs::digest::digest(&c.to_bytes()).unwrap());
    assert_eq!(d.len(), 64);
    let mut other = H::issue(4, &MAY_15, None, vec![2; 64], None).unwrap();
    other.increment_counter();
    assert_ne!(other.hash().unwrap(), d);
}

#[test]
fn clear_counter_gives_back_the_bytes_that_were_issued() {
    let hour = TimeSpan::from_secs(3600);
    let mut c = H::new(8, Some(&hour), Some(&[42])).unwrap();
    let issued = c.to_bytes();
    assert!(c.solve(None).unwrap());
    let a = c.to_bytes();
    c.clear_counter();
    let b = c.to_bytes();
    assert_eq!(b, issued);
    let fresh = H::from_parts(
        8,
        c.issued_at().clone(),
        c.deadline().clone(),
        c.randomness().clone(),
        Vec::new(),
        c.metadata().clone(),
    )
    .unwrap();
    assert_eq!(b, fresh.to_bytes());
    let solved = H::from_bytes(&a).unwrap();
    assert_eq!(solved.bits(), fresh.bits());
    assert_eq!(solved.issued_at(), fresh.issued_at());
    assert_eq!(solved.deadline(), fresh.deadline());
    assert_eq!(solved.randomness(), fresh.randomness());
    assert_eq!(solved.metadata(), fresh.metadata());
}

#[test]
fn end_to_end() {
    let mut c = H::new(10, None, None).unwrap();
    assert_eq!(c.solve(None), Ok(true));
    assert_eq!(c.verify(), Ok(true));
    let back = H::from_bytes(&c.to_bytes()).unwrap();
    assert_eq!(back, c);
    assert_eq!(back.verify(), Ok(true));
}

#[test]
fn tampered_bytes_are_refused() {
    let randomness: Vec<u8> = (100..164u8).collect();
    let mut c = H::issue(10, &MAY_15, None, randomness, Some(&[1, 2, 3, 4])).unwrap();
    assert_eq!(c.solve(None), Ok(true));
    assert_eq!(c.verify(), Ok(true));
    let bytes = c.to_bytes();
    assert_eq!(H::from_bytes(&bytes).unwrap().verify(), Ok(true));
    for i in 0..bytes.len() {
        for mask in [0x01u8, 0x40, 0xff] {
            let mut changed = bytes.clone();
            changed[i] ^= mask;
            match H::from_bytes(&changed) {
                Ok(other) => assert_eq!(other.verify(), Ok(false)),
                Err(e) => assert_eq!(e, PowError::MalformedEncoding),
            }
        }
    }
}
