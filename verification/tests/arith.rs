use distancia::arith::{mul_div_div, mul_div_rem, mul_mul_div};

#[test]
fn mul_div_rem_of_small_numbers() {
    assert_eq!(mul_div_rem(7, 5, 3), Some((11, 2)));
    assert_eq!(mul_div_rem(0, 5, 3), Some((0, 0)));
    assert_eq!(mul_div_rem(7, 0, 3), Some((0, 0)));
    assert_eq!(mul_div_rem(7, 1, 8), Some((0, 7)));
    assert_eq!(mul_div_rem(6, 4, 1), Some((24, 0)));
    assert_eq!(mul_div_rem(1, 1, u128::MAX), Some((0, 1)));
}

#[test]
fn mul_div_rem_where_the_product_leaves_128_bits() {
    assert_eq!(mul_div_rem(u128::MAX, u128::MAX, u128::MAX), Some((u128::MAX, 0)));
    assert_eq!(mul_div_rem(u128::MAX, 2, 2), Some((u128::MAX, 0)));
    assert_eq!(mul_div_rem(u128::MAX, 3, 4), Some((255211775190703847597530955573826158591, 1)));
    assert_eq!(mul_div_rem(u128::MAX - 1, u128::MAX, u128::MAX), Some((u128::MAX - 1, 0)));
    assert_eq!(
        mul_div_rem(u128::MAX, u128::MAX - 1, u128::MAX - 2),
        None
    );
    assert_eq!(
        mul_div_rem(1 << 127, 1 << 127, (1 << 127) + 1),
        Some(((1 << 127) - 1, 1))
    );
}

#[test]
fn mul_div_rem_whose_quotient_does_not_fit() {
    assert_eq!(mul_div_rem(u128::MAX, 2, 1), None);
    assert_eq!(mul_div_rem(u128::MAX, u128::MAX, 1), None);
    assert_eq!(mul_div_rem(1 << 64, 1 << 64, 1), None);
    assert_eq!(mul_div_rem(1 << 64, (1 << 64) - 1, 1), Some((u128::MAX - (1 << 64) + 1, 0)));
    assert_eq!(mul_div_rem(u128::MAX, 4, 3), None);
}

#[test]
fn mul_mul_div_matches_long_hand() {
    assert_eq!(mul_mul_div(9_000, 100_000, 2, 1_200_000), Some(1_500));
    assert_eq!(mul_mul_div(7, 5, 3, 4), Some(26));
    assert_eq!(mul_mul_div(u128::MAX, u128::MAX, 0, 1), Some(0));
    assert_eq!(mul_mul_div(u128::MAX, u128::MAX, 1, u128::MAX), Some(u128::MAX));
    assert_eq!(mul_mul_div(u128::MAX, u128::MAX, 2, u128::MAX), None);
    assert_eq!(mul_mul_div(u128::MAX, 7, 11, 77), Some(u128::MAX));
    assert_eq!(mul_mul_div(u128::MAX, 7, 11, 76), None);
}

#[test]
fn mul_div_div_matches_long_hand() {
    assert_eq!(mul_div_div(1_200, 1_200_000, 2, 1_000_000), Some(720));
    assert_eq!(mul_div_div(7, 5, 2, 3), Some(5));
    assert_eq!(mul_div_div(u128::MAX, u128::MAX, u128::MAX, 1), Some(u128::MAX));
    assert_eq!(mul_div_div(u128::MAX, u128::MAX, u128::MAX, u128::MAX), Some(1));
    assert_eq!(mul_div_div(u128::MAX, u128::MAX, 1, 1), None);
    assert_eq!(mul_div_div(u128::MAX, 6, 2, 3), Some(u128::MAX));
    assert_eq!(mul_div_div(u128::MAX, 7, 2, 3), None);
    assert_eq!(mul_div_div(u128::MAX, 1 << 120, 1 << 100, 1 << 20), Some(u128::MAX));
    assert_eq!(mul_div_div(u128::MAX, (1 << 120) + 1, 1 << 100, 1 << 20), None);
}

/// A sequence of numbers of mixed sizes, the same on every run.
fn numbers(count: usize) -> Vec<u128> {
    let mut state: u128 = 0x9E37_79B9_7F4A_7C15_F39C_C060_5CED_C834;
    let mut out = Vec::new();
    for i in 0..count {
        state = state.wrapping_mul(0x2360_ED05_1FC6_5DA4_4385_DF64_9FCC_F645).wrapping_add(1_442_695_040_888_963_407);
        let width = (i * 37) % 129;
        let n = if width == 0 { 0 } else { state >> (128 - width) };
        out.push(n);
    }
    out
}

#[test]
fn mul_div_rem_agrees_with_plain_arithmetic_where_the_product_fits() {
    let ns = numbers(400);
    let mut compared = 0;
    for w in ns.windows(3) {
        let (a, b, d) = (w[0], w[1], w[2]);
        if d == 0 {
            continue;
        }
        if let Some(product) = a.checked_mul(b) {
            assert_eq!(mul_div_rem(a, b, d), Some((product / d, product % d)));
            compared += 1;
        }
    }
    assert!(compared > 50);
}

#[test]
fn mul_div_rem_gives_a_quotient_and_remainder_that_multiply_back() {
    let ns = numbers(400);
    let mut found = 0;
    for w in ns.windows(3) {
        let (a, b, d) = (w[0], w[1], w[2]);
        if d == 0 {
            continue;
        }
        match mul_div_rem(a, b, d) {
            Some((q, r)) => {
                assert!(r < d);
                // q * d + r == a * b, compared in the low 128 bits
                assert_eq!(q.wrapping_mul(d).wrapping_add(r), a.wrapping_mul(b));
                found += 1;
            }
            // a quotient beyond 128 bits takes a product beyond 128 bits
            None => assert!(a.checked_mul(b).is_none()),
        }
    }
    assert!(found > 100);
}

#[test]
fn mul_mul_div_and_mul_div_div_agree_with_plain_arithmetic_where_the_products_fit() {
    let ns = numbers(600);
    let mut compared = 0;
    for w in ns.windows(4) {
        let (a, b) = (w[0] % (1 << 40), w[1] % (1 << 40));
        let (c, d) = (w[2] % (1 << 40) + 1, w[3] % (1 << 40) + 1);
        assert_eq!(mul_mul_div(a, b, c, d), Some(a * b * c / d));
        assert_eq!(mul_div_div(a, b, c, d), Some(a * b / (c * d)));
        compared += 1;
    }
    assert!(compared > 500);
}
