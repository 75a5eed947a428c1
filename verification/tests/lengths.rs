use bm3d_deblur::fast_len::next_fast_len;
use bm3d_deblur::reflect::reflect_index;
use bm3d_deblur::text::too_small;

#[test]
fn test_next_fast_len() {
    assert_eq!(next_fast_len(1), 1);
    assert_eq!(next_fast_len(64), 64);
    assert_eq!(next_fast_len(100), 100); // 2^2 * 5^2
    assert_eq!(next_fast_len(101), 105); // 3 * 5 * 7
    assert!(next_fast_len(1000) >= 1000);
}

#[test]
fn test_reflect_index() {
    assert_eq!(reflect_index(0, 5), 0);
    assert_eq!(reflect_index(4, 5), 4);
    assert_eq!(reflect_index(-1, 5), 1);
    assert_eq!(reflect_index(5, 5), 3);
    assert_eq!(reflect_index(-4, 5), 4);
    assert_eq!(reflect_index(3, 1), 0);
}

#[test]
fn fast_lengths_have_small_factors_only() {
    assert_eq!(next_fast_len(0), 1);
    assert_eq!(next_fast_len(4), 4);
    assert_eq!(next_fast_len(11), 12);
    assert_eq!(next_fast_len(13), 14);
    assert_eq!(next_fast_len(121), 125);
    for n in 1..600 {
        let len = next_fast_len(n);
        let is_smooth = |mut m: usize| -> bool {
            for p in [2, 3, 5, 7] {
                while m % p == 0 {
                    m /= p;
                }
            }
            m == 1
        };
        assert!(len >= n && is_smooth(len));
        assert!((n..len).all(|m| !is_smooth(m)));
    }
}

#[test]
fn fast_lengths_are_idempotent_and_monotone() {
    for n in 0..300 {
        let len = next_fast_len(n);
        assert_eq!(next_fast_len(len), len);
        assert!(len <= next_fast_len(n + 1));
    }
}

#[test]
fn reflection_is_periodic_and_symmetric() {
    for n in 2..7usize {
        let period = 2 * n as isize - 2;
        for index in -20..20isize {
            let at = reflect_index(index, n);
            assert!(at < n);
            assert_eq!(reflect_index(index + period, n), at);
            assert_eq!(reflect_index(-index, n), at);
            assert_eq!(reflect_index(period - index, n), at);
        }
        for index in 0..n {
            assert_eq!(reflect_index(index as isize, n), index);
        }
    }
    assert_eq!(reflect_index(7, 0), 0);
}

#[test]
fn numbers_are_written_in_decimal() {
    assert_eq!(too_small(4, 17, 8), "Image size (4, 17) is smaller than patch_size 8");
    assert_eq!(too_small(0, 1000, 1234567890), "Image size (0, 1000) is smaller than patch_size 1234567890");
}
