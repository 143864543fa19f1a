use prime_iter::primes;

#[test]
fn test_functionality() {
    let mut gen_i32 = primes::<i32>();
    let mut primes_list: Vec<i32> = Vec::new();
    while primes_list.len() < 5 {
        primes_list.push(gen_i32.next().unwrap());
    }

    let mut gen_u8 = primes::<u8>();
    let mut primes_range: Vec<u8> = Vec::new();
    let mut skipping = true;
    while let Some(x) = gen_u8.next() {
        if skipping && x >= 10 {
            continue;
        }
        skipping = false;
        if !(x < 100) {
            break;
        }
        if x % 10 + x / 10 == 11 {
            primes_range.push(x);
        }
    }

    assert_eq!(primes_list, [2, 3, 5, 7, 11]);
    assert_eq!(primes_range, [29, 47, 83]);
}

#[test]
fn test_overflow() {
    let mut gen_u8 = primes::<u8>();
    let mut small_primes: Vec<u8> = Vec::new();
    while let Some(p) = gen_u8.next() {
        small_primes.push(p);
    }

    let mut gen_i32 = primes::<i32>();
    let mut small_primes2: Vec<u8> = Vec::new();
    while let Some(p) = gen_i32.next() {
        match TryInto::<u8>::try_into(p).ok() {
            Some(b) => small_primes2.push(b),
            None => break,
        }
    }

    assert_eq!(small_primes, small_primes2)
}
