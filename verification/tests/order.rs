//! Order keys and order statistics.

use gc2607_isp::order::{bits32, first_min, key32, key64, median, percentile_select, search_left};

#[test]
fn keys_order_as_numbers_do() {
    let v = [f32::NEG_INFINITY, -3.5, -1.0, -0.0, 0.0, 1e-30, 1.0, 3.5, f32::INFINITY, f32::NAN];
    for i in 0..v.len() {
        assert_eq!(bits32(key32(v[i].to_bits())), v[i].to_bits());
        for j in 0..i {
            assert!(key32(v[j].to_bits()) < key32(v[i].to_bits()), "{} {}", v[j], v[i]);
        }
    }
    let w = [-7.25f64, -0.0, 0.0, 2.0, 1e300];
    for i in 1..w.len() {
        assert!(key64(w[i - 1].to_bits()) < key64(w[i].to_bits()));
    }
    assert_eq!(key32(0x8000_0000), -1);
    assert_eq!(key64(0x8000_0000_0000_0000), -1);
}

#[test]
fn percentiles_interpolate_between_ranks() {
    let mut v = vec![40, 10, 30, 20];
    let p = percentile_select(&mut v, 50).unwrap();
    assert_eq!((p.lo, p.hi, p.frac.num, p.frac.den), (20, 30, 50, 100));
    let p = percentile_select(&mut v, 0).unwrap();
    assert_eq!((p.lo, p.hi, p.frac.num), (10, 10, 0));
    let p = percentile_select(&mut v, 100).unwrap();
    assert_eq!((p.lo, p.hi, p.frac.num), (40, 40, 0));
    let p = percentile_select(&mut vec![7], 60).unwrap();
    assert_eq!((p.lo, p.hi, p.frac.num), (7, 7, 0));
    assert_eq!(percentile_select(&mut vec![], 60), None);
    v.sort();
    assert_eq!(v, vec![10, 20, 30, 40]);
}

#[test]
fn selection_agrees_with_sorting() {
    let mut seed = 12345u32;
    for n in 1..60usize {
        let mut v = Vec::new();
        for _ in 0..n {
            seed = seed.wrapping_mul(1_664_525).wrapping_add(1_013_904_223);
            v.push((seed >> 24) as i32 % 20 - 10);
        }
        let mut sorted = v.clone();
        sorted.sort();
        let pos = (n - 1) * 60;
        let p = percentile_select(&mut v.clone(), 60).unwrap();
        assert_eq!(p.lo, sorted[pos / 100]);
        assert_eq!(p.hi, sorted[(pos + 99) / 100]);
        let m = median(&mut v).unwrap();
        assert_eq!((m.lo, m.hi), (sorted[(n - 1) / 2], sorted[n / 2]));
    }
}

#[test]
fn median_of_nothing_is_nothing() {
    assert_eq!(median(&mut vec![]), None);
    let m = median(&mut vec![3, 1]).unwrap();
    assert_eq!((m.lo, m.hi), (1, 3));
}

#[test]
fn first_of_equal_minima_wins() {
    assert_eq!(first_min(&[5, 2, 9, 2]), 1);
    assert_eq!(first_min(&[5]), 0);
    assert_eq!(search_left(&[1, 3, 3, 7], 3), 1);
    assert_eq!(search_left(&[1, 3, 3, 7], 8), 4);
    assert_eq!(search_left(&[], 8), 0);
}
