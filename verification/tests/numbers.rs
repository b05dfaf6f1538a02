use speed_cloudflare_cli::double::Double;
use speed_cloudflare_cli::percentile::{p90, p90_index, sort};

fn d(x: f64) -> Double {
    Double::from_bits(x.to_bits())
}

fn samples() -> Vec<f64> {
    vec![
        f64::NEG_INFINITY,
        -1.0e300,
        -100.5,
        -1.0,
        -5.0e-324,
        -0.0,
        0.0,
        5.0e-324,
        2.2250738585072014e-308,
        0.1,
        0.5,
        0.9999999999999999,
        1.0,
        1.0000000000000002,
        99.99999999999999,
        100.0,
        100.00000000000001,
        1.7976931348623157e308,
        f64::INFINITY,
        f64::NAN,
        -f64::NAN,
    ]
}

#[test]
fn comparisons_are_those_of_doubles() {
    for a in samples() {
        for b in samples() {
            assert_eq!(d(a).le(d(b)), a <= b, "{} <= {}", a, b);
            assert_eq!(d(a).gt(d(b)), a > b, "{} > {}", a, b);
        }
        assert_eq!(d(a).is_nan(), a.is_nan());
        assert_eq!(d(a).to_bits(), a.to_bits());
    }
}

#[test]
fn max_is_that_of_doubles() {
    for a in samples() {
        for b in samples() {
            let m = f64::from_bits(d(a).max(d(b)).to_bits());
            let expected = a.max(b);
            assert!(m == expected || (m.is_nan() && expected.is_nan()), "{} {}", a, b);
        }
    }
}

#[test]
fn zero_is_zero() {
    assert_eq!(Double::zero().to_bits(), (0.0f64).to_bits());
}

#[test]
fn index_is_the_truncated_product() {
    for len in 0usize..20_000 {
        assert_eq!(p90_index(len), (len as f64 * 0.9) as usize);
    }
    for k in 0u32..48 {
        for len in [(1usize << k) - 1, 1usize << k, (1usize << k) + 1, 10 * (1usize << k)] {
            if len <= 1usize << 49 {
                assert_eq!(p90_index(len), (len as f64 * 0.9) as usize, "{}", len);
            }
        }
    }
    assert_eq!(p90_index(6), 5);
    assert_eq!(p90_index(10), 9);
    assert_eq!(p90_index(11), 9);
    assert_eq!(p90_index(usize::MAX), usize::MAX / 10 * 9 + 4);
}

#[test]
fn sorting_is_stable_and_ascending() {
    let speeds: Vec<Double> = [3.5, 0.0, 12.0, -0.0, 3.5, 1.0].iter().map(|&x| d(x)).collect();
    let ordered: Vec<u64> = sort(&speeds).iter().map(|x| x.to_bits()).collect();
    let expected: Vec<u64> =
        [0.0f64, -0.0, 1.0, 3.5, 3.5, 12.0].iter().map(|x| x.to_bits()).collect();
    assert_eq!(ordered, expected);
}

#[test]
fn sorting_agrees_with_the_standard_library() {
    let mut state: u64 = 7;
    let mut values: Vec<f64> = Vec::new();
    for _ in 0..200 {
        state = state.wrapping_mul(6364136223846793005).wrapping_add(1442695040888963407);
        values.push(((state >> 40) % 50) as f64 / 4.0);
    }
    let ours: Vec<u64> =
        sort(&values.iter().map(|&x| d(x)).collect()).iter().map(|x| x.to_bits()).collect();
    values.sort_by(|a, b| a.partial_cmp(b).unwrap());
    let theirs: Vec<u64> = values.iter().map(|x| x.to_bits()).collect();
    assert_eq!(ours, theirs);
}

#[test]
fn reported_speed_is_at_nine_tenths() {
    assert_eq!(p90(&vec![]), Double::zero());
    assert_eq!(p90(&vec![d(42.0)]), d(42.0));
    assert_eq!(p90(&vec![d(2.0), d(1.0)]), d(2.0));
    assert_eq!(p90(&vec![d(5.0), d(1.0), d(9.0), d(3.0), d(7.0), d(2.0)]), d(9.0));
    let twenty: Vec<Double> = (1..=20).rev().map(|i| d(i as f64)).collect();
    assert_eq!(p90(&twenty), d(19.0));
    assert!(p90(&vec![d(f64::NAN)]).is_nan());
}

#[test]
fn reported_speed_ignores_the_order() {
    let mut speeds: Vec<Double> = [4.0, 8.0, 1.0, 9.5, 2.0, 7.0].iter().map(|&x| d(x)).collect();
    let expected = p90(&speeds);
    for _ in 0..speeds.len() {
        speeds.rotate_left(1);
        assert_eq!(p90(&speeds), expected);
    }
    speeds.reverse();
    assert_eq!(p90(&speeds), expected);
}
