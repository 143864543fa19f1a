use prime_iter::primes;

#[test]
fn first_five_every_width() {
    let mut a = primes::<u8>();
    assert_eq!(
        [a.next(), a.next(), a.next(), a.next(), a.next()],
        [Some(2u8), Some(3), Some(5), Some(7), Some(11)]
    );
    let mut b = primes::<u16>();
    assert_eq!(
        [b.next(), b.next(), b.next(), b.next(), b.next()],
        [Some(2u16), Some(3), Some(5), Some(7), Some(11)]
    );
    let mut c = primes::<u32>();
    assert_eq!(
        [c.next(), c.next(), c.next(), c.next(), c.next()],
        [Some(2u32), Some(3), Some(5), Some(7), Some(11)]
    );
    let mut d = primes::<u64>();
    assert_eq!(
        [d.next(), d.next(), d.next(), d.next(), d.next()],
        [Some(2u64), Some(3), Some(5), Some(7), Some(11)]
    );
    let mut e = primes::<u128>();
    assert_eq!(
        [e.next(), e.next(), e.next(), e.next(), e.next()],
        [Some(2u128), Some(3), Some(5), Some(7), Some(11)]
    );
    let mut f = primes::<usize>();
    assert_eq!(
        [f.next(), f.next(), f.next(), f.next(), f.next()],
        [Some(2usize), Some(3), Some(5), Some(7), Some(11)]
    );
    let mut g = primes::<i8>();
    assert_eq!(
        [g.next(), g.next(), g.next(), g.next(), g.next()],
        [Some(2i8), Some(3), Some(5), Some(7), Some(11)]
    );
    let mut h = primes::<i16>();
    assert_eq!(
        [h.next(), h.next(), h.next(), h.next(), h.next()],
        [Some(2i16), Some(3), Some(5), Some(7), Some(11)]
    );
    let mut i = primes::<i32>();
    assert_eq!(
        [i.next(), i.next(), i.next(), i.next(), i.next()],
        [Some(2i32), Some(3), Some(5), Some(7), Some(11)]
    );
    let mut j = primes::<i64>();
    assert_eq!(
        [j.next(), j.next(), j.next(), j.next(), j.next()],
        [Some(2i64), Some(3), Some(5), Some(7), Some(11)]
    );
    let mut k = primes::<i128>();
    assert_eq!(
        [k.next(), k.next(), k.next(), k.next(), k.next()],
        [Some(2i128), Some(3), Some(5), Some(7), Some(11)]
    );
    let mut l = primes::<isize>();
    assert_eq!(
        [l.next(), l.next(), l.next(), l.next(), l.next()],
        [Some(2isize), Some(3), Some(5), Some(7), Some(11)]
    );
}

#[test]
fn ascending_and_no_earlier_divisor() {
    let mut g = primes::<u8>();
    let mut seen: Vec<u8> = Vec::new();
    while let Some(p) = g.next() {
        for &q in &seen {
            assert!(q < p);
            assert_ne!(p % q, 0);
        }
        seen.push(p);
    }

    let mut h = primes::<i32>();
    let mut seen2: Vec<i32> = Vec::new();
    while seen2.len() < 200 {
        let p = h.next().unwrap();
        for &q in &seen2 {
            assert!(q < p);
            assert_ne!(p % q, 0);
        }
        seen2.push(p);
    }
}

#[test]
fn determinism_same_width() {
    let mut a = primes::<i32>();
    let mut b = primes::<i32>();
    for _ in 0..300 {
        assert_eq!(a.next(), b.next());
    }
    let mut c = primes::<u8>();
    let mut d = primes::<u8>();
    for _ in 0..100 {
        assert_eq!(c.next(), d.next());
    }
}

#[test]
fn boundary_u8() {
    let mut g = primes::<u8>();
    let mut last = None;
    while let Some(p) = g.next() {
        last = Some(p);
    }
    assert_eq!(last, Some(251));
    assert_eq!(g.next(), None);
    assert_eq!(g.next(), None);
    assert_eq!(g.next(), None);
}

#[test]
fn boundary_i8() {
    // The largest value of the width is itself prime here, and is produced.
    let mut g = primes::<i8>();
    let mut last = None;
    while let Some(p) = g.next() {
        last = Some(p);
    }
    assert_eq!(last, Some(127));
    assert_eq!(g.next(), None);
    assert_eq!(g.next(), None);
}

#[test]
fn fifty_second_prime() {
    let mut g = primes::<i32>();
    let mut nth = 0;
    for _ in 0..52 {
        nth = g.next().unwrap();
    }
    assert_eq!(nth, 239);
}

#[test]
fn sum_of_first_hundred() {
    let mut g = primes::<i32>();
    let mut sum: i32 = 0;
    for _ in 0..100 {
        sum += g.next().unwrap();
    }
    assert_eq!(sum, 24133);
}

#[test]
fn two_digit_primes() {
    let mut g = primes::<i32>();
    let mut found: Vec<i32> = Vec::new();
    while let Some(p) = g.next() {
        if p >= 100 {
            break;
        }
        if p >= 10 {
            found.push(p);
        }
    }
    assert_eq!(
        found,
        [11, 13, 17, 19, 23, 29, 31, 37, 41, 43, 47, 53, 59, 61, 67, 71, 73, 79, 83, 89, 97]
    );
}

#[test]
fn cross_width_consistency() {
    let mut wide = primes::<u16>();
    let mut narrowed: Vec<u8> = Vec::new();
    while let Some(p) = wide.next() {
        if p <= u8::MAX as u16 {
            narrowed.push(p as u8);
        }
    }
    let mut narrow = primes::<u8>();
    let mut direct: Vec<u8> = Vec::new();
    while let Some(p) = narrow.next() {
        direct.push(p);
    }
    assert_eq!(narrowed, direct);

    let mut wide2 = primes::<i64>();
    let mut narrowed2: Vec<i16> = Vec::new();
    for _ in 0..500 {
        let p = wide2.next().unwrap();
        if p <= i16::MAX as i64 {
            narrowed2.push(p as i16);
        }
    }
    let mut narrow2 = primes::<i16>();
    for expected in narrowed2 {
        assert_eq!(narrow2.next(), Some(expected));
    }
}
