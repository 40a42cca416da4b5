use verification_errors::{assert_approx_eq_impl, parse_decimal, ApproxEqError};

#[derive(Debug)]
struct Foo(u32);

fn fail_with_message(outcome: Result<(), ApproxEqError>) {
    if let Err(e) = outcome {
        panic!("{}", e.message());
    }
}

#[test]
fn assert_approx() {
    assert!(assert_approx_eq_impl(9_u32.into(), 10_u32.into(), "0.12", None).is_ok());
    assert!(assert_approx_eq_impl(9_u64.into(), 10_u64.into(), "0.12", None).is_ok());
    assert!(assert_approx_eq_impl(
        9_000_000_000_000_000_000_000_000_000_000_000_000_u128,
        10_000_000_000_000_000_000_000_000_000_000_000_000_u128,
        "0.10",
        None
    )
    .is_ok());
}

#[test]
fn assert_approx_with_vars() {
    let a = 66_u32;
    let b = 67_u32;
    assert!(assert_approx_eq_impl(a.into(), b.into(), "0.02", None).is_ok());

    let a = 66_u64;
    let b = 67_u64;
    assert!(assert_approx_eq_impl(a.into(), b.into(), "0.02", None).is_ok());

    let a = 66_u128;
    let b = 67_u128;
    assert!(assert_approx_eq_impl(a, b, "0.02", None).is_ok());
}

#[test]
fn approx_failure_reports_both_differences() {
    match assert_approx_eq_impl(8, 10, "0.12", None) {
        Err(ApproxEqError::NotApproxEqual { left, right, rel_diff, max_rel_diff, panic_msg }) => {
            assert_eq!(left, 8);
            assert_eq!(right, 10);
            assert_eq!(rel_diff, 200_000_000_000_000_000);
            assert_eq!(max_rel_diff, 120_000_000_000_000_000);
            assert!(panic_msg.is_none());
        }
        other => panic!("unexpected outcome: {:?}", other),
    }
}

#[test]
fn approx_failure_carries_message() {
    let msg = format!("some {} {} about the error", "extra", "info");
    match assert_approx_eq_impl(17, 20, "0.12", Some(msg.clone())) {
        Err(ApproxEqError::NotApproxEqual { rel_diff, panic_msg, .. }) => {
            assert_eq!(rel_diff, 150_000_000_000_000_000);
            assert_eq!(panic_msg, Some(msg));
        }
        other => panic!("unexpected outcome: {:?}", other),
    }
}

#[test]
fn approx_is_symmetric_in_its_magnitudes() {
    assert!(assert_approx_eq_impl(10, 9, "0.1", None).is_ok());
    assert!(assert_approx_eq_impl(10, 8, "0.12", None).is_err());
    assert!(assert_approx_eq_impl(5, 5, "0", None).is_ok());
}

#[test]
fn approx_rounds_relative_difference_down() {
    // 1 / 3 is 0.333333333333333333 after rounding down.
    match assert_approx_eq_impl(2, 3, "0.3", None) {
        Err(ApproxEqError::NotApproxEqual { rel_diff, .. }) => {
            assert_eq!(rel_diff, 333_333_333_333_333_333)
        }
        other => panic!("unexpected outcome: {:?}", other),
    }
    assert!(assert_approx_eq_impl(2, 3, "0.333333333333333333", None).is_ok());
}

#[test]
fn approx_of_largest_magnitudes() {
    assert!(assert_approx_eq_impl(u128::MAX, u128::MAX - 1, "0.000000000000000001", None).is_ok());
    match assert_approx_eq_impl(0, u128::MAX, "0.5", None) {
        Err(ApproxEqError::NotApproxEqual { rel_diff, .. }) => {
            assert_eq!(rel_diff, 1_000_000_000_000_000_000)
        }
        other => panic!("unexpected outcome: {:?}", other),
    }
}

#[test]
fn approx_of_two_zeros_has_no_denominator() {
    assert!(matches!(
        assert_approx_eq_impl(0, 0, "0.1", None),
        Err(ApproxEqError::ZeroMagnitudes)
    ));
}

#[test]
fn approx_rejects_malformed_tolerance() {
    for bad in ["", ".5", "1.", "1.2.3", "abc", "0.1234567890123456789", "-1", "1e3"] {
        assert!(
            matches!(
                assert_approx_eq_impl(9, 10, bad, None),
                Err(ApproxEqError::InvalidMaxRelDiff)
            ),
            "{} was accepted",
            bad
        );
    }
}

#[test]
fn parse_decimal_values() {
    assert_eq!(parse_decimal("0.12"), Some(120_000_000_000_000_000));
    assert_eq!(parse_decimal("1"), Some(1_000_000_000_000_000_000));
    assert_eq!(parse_decimal("007.5"), Some(7_500_000_000_000_000_000));
    assert_eq!(parse_decimal("0.000000000000000001"), Some(1));
    assert_eq!(parse_decimal("0.0000000000000000001"), None);
    assert_eq!(
        parse_decimal("340282366920938463463.374607431768211455"),
        Some(u128::MAX)
    );
    assert_eq!(parse_decimal("340282366920938463463.374607431768211456"), None);
    assert_eq!(parse_decimal("340282366920938463464"), None);
    assert_eq!(parse_decimal("1.5x"), None);
}

#[test]
#[should_panic(
    expected = "assertion failed: `(left ≈ right)`\nleft: 8\nright: 10\nrelative difference: 0.2\nmax allowed relative difference: 0.12\n"
)]
fn assert_approx_fail() {
    fail_with_message(assert_approx_eq_impl(8_u32.into(), 10_u32.into(), "0.12", None));
}

#[test]
#[should_panic(
    expected = "assertion failed: `(left ≈ right)`\nleft: 17\nright: 20\nrelative difference: 0.15\nmax allowed relative difference: 0.12\n: some extra info about the error: Foo(8)"
)]
fn assert_approx_with_custom_panic_msg() {
    let adjective = "extra";
    fail_with_message(assert_approx_eq_impl(
        17_u32.into(),
        20_u32.into(),
        "0.12",
        Some(format!("some {adjective} {} about the error: {:?}", "info", Foo(8))),
    ));
}

#[test]
fn approx_messages_render_decimals() {
    let err = assert_approx_eq_impl(2, 3, "0.3", None).unwrap_err();
    assert_eq!(
        err.message(),
        "assertion failed: `(left ≈ right)`\nleft: 2\nright: 3\nrelative difference: 0.333333333333333333\nmax allowed relative difference: 0.3\n"
    );
    let err = assert_approx_eq_impl(0, 7, "0.000000000000000001", None).unwrap_err();
    assert_eq!(
        err.message(),
        "assertion failed: `(left ≈ right)`\nleft: 0\nright: 7\nrelative difference: 1\nmax allowed relative difference: 0.000000000000000001\n"
    );
    assert_eq!(
        assert_approx_eq_impl(0, 0, "1", None).unwrap_err().message(),
        "Denominator must not be zero"
    );
    assert_eq!(
        assert_approx_eq_impl(1, 1, "x", None).unwrap_err().message(),
        "Invalid maximum relative difference"
    );
}

#[test]
fn approx_message_with_large_whole_part() {
    let err = ApproxEqError::NotApproxEqual {
        left: u128::MAX,
        right: 1,
        rel_diff: 12_500_000_000_000_000_000,
        max_rel_diff: 0,
        panic_msg: Some(String::from("m")),
    };
    assert_eq!(
        err.message(),
        "assertion failed: `(left ≈ right)`\nleft: 340282366920938463463374607431768211455\nright: 1\nrelative difference: 12.5\nmax allowed relative difference: 0\n: m"
    );
}
