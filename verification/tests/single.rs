use snapbar::single::{from_int, ratio, Single};

fn single(value: f32) -> Single {
    if value == 0.0 {
        return Single { negative: false, mantissa: 0, exponent: 0 };
    }
    let bits = value.to_bits();
    let field = ((bits >> 23) & 0xff) as i64;
    Single {
        negative: bits >> 31 == 1,
        mantissa: (bits & 0x7f_ffff) | 0x80_0000,
        exponent: field - 150,
    }
}

fn samples() -> Vec<f32> {
    let mut values = vec![
        0.0, 1.0, -1.0, 0.5, 2.0, 3.0, 0.1, -0.1, 255.0, 0.33333334, 16777215.0, 16777216.0, 1e-6,
        1e9, -7.25, 0.48, 0.82, 0.9999999, 1.0000001,
    ];
    let mut seed = 0x1234_5678_9abc_def1_u64;
    for _ in 0..400 {
        seed ^= seed << 13;
        seed ^= seed >> 7;
        seed ^= seed << 17;
        let exponent = 127 - 40 + (seed >> 32) % 80;
        let bits = ((seed & 1) << 31) as u32
            | ((exponent as u32) << 23)
            | ((seed >> 8) as u32 & 0x7f_ffff);
        values.push(f32::from_bits(bits));
    }
    values
}

#[test]
fn operations_agree_with_single_precision() {
    let values = samples();
    for &left in &values {
        let a = single(left);
        assert_eq!(a.canon(), a);
        assert_eq!(a.neg(), single(-left));
        assert_eq!(a.abs(), single(left.abs()));
        if left >= 0.0 {
            assert_eq!(a.sqrt(), single(left.sqrt()));
        }
        assert_eq!(a.to_nearest(), left.round() as u32);
        for &right in &values {
            let b = single(right);
            assert_eq!(a.add(b), single(left + right));
            assert_eq!(a.sub(b), single(left - right));
            assert_eq!(a.mul(b), single(left * right));
            if right != 0.0 {
                assert_eq!(a.div(b), single(left / right));
            }
            assert_eq!(a.lt(b), left < right);
            assert_eq!(a.ge(b), left >= right);
            assert_eq!(a.min(b), single(left.min(right)));
            assert_eq!(a.max(b), single(left.max(right)));
        }
    }
}

#[test]
fn halfway_results_go_to_the_even_neighbour() {
    let one = single(1.0);
    let half = single(f32::EPSILON / 2.0);
    assert_eq!(one.add(half), one);
    let next = single(1.0 + f32::EPSILON);
    assert_eq!(next.add(half), single(1.0 + 2.0 * f32::EPSILON));
    assert_eq!(from_int(16_777_217), from_int(16_777_216));
    assert_eq!(from_int(16_777_219), from_int(16_777_220));
    assert_eq!(single(0.5).to_nearest(), 1);
    assert_eq!(single(1.5).to_nearest(), 2);
    assert_eq!(single(2.4999998).to_nearest(), 2);
}

#[test]
fn far_smaller_numbers_are_lost() {
    for exponent in 20..70 {
        let small = (2.0_f32).powi(-exponent);
        for left in [1.0_f32, 1.5, 0.99999994] {
            assert_eq!(single(left).add(single(small)), single(left + small));
            assert_eq!(single(left).sub(single(small)), single(left - small));
            assert_eq!(single(small).sub(single(left)), single(small - left));
        }
    }
}

#[test]
fn integers_and_decimals_are_the_nearest_numbers() {
    for value in [0_u64, 1, 255, 16_777_217, 4_294_967_295, u64::MAX, 1 << 40] {
        assert_eq!(from_int(value), single(value as f32));
    }
    let decimals = [
        (4, 100, 0.04_f32), (45, 100, 0.45), (35, 100, 0.35), (995, 1000, 0.995), (65, 10, 6.5),
        (82, 100, 0.82), (3, 1000, 0.003), (12, 1000, 0.012), (2126, 10000, 0.2126), (22, 10, 2.2),
    ];
    for (value, divisor, decimal) in decimals {
        assert_eq!(ratio(value, divisor), single(decimal));
    }
    for hundredths in 0..=700_u64 {
        let decimal: f32 = format!("{}.{:02}", hundredths / 100, hundredths % 100).parse().unwrap();
        assert_eq!(ratio(hundredths, 100), single(decimal));
    }
    assert_eq!(ratio(1, 0), single(0.0));
}

#[test]
fn any_mantissa_has_a_meaning() {
    let six = Single { negative: false, mantissa: 3, exponent: 1 };
    assert_eq!(six.canon(), single(6.0));
    assert_eq!(six.mul(six), single(36.0));
    let long = Single { negative: true, mantissa: 0xffff_ffff, exponent: 0 };
    assert_eq!(long.canon(), single(-4294967295.0));
    assert!(long.lt(six));
    let huge = Single { negative: false, mantissa: 1, exponent: i64::MAX };
    assert_eq!(huge.canon().exponent, 0x100_0000_0000);
    assert_eq!(huge.to_nearest(), u32::MAX);
    let tiny = Single { negative: false, mantissa: 1, exponent: i64::MIN };
    assert_eq!(tiny.to_nearest(), 0);
    assert!(tiny.lt(huge));
    assert_eq!(single(5.0).clamp(single(0.0), single(1.0)), single(1.0));
}
