use chetan::rust_fibonacci;

#[test]
fn term_at_zero_is_zero() {
    assert_eq!(rust_fibonacci(0), 0);
}

#[test]
fn term_at_one_is_one() {
    assert_eq!(rust_fibonacci(1), 1);
}

#[test]
fn term_at_two_is_one() {
    assert_eq!(rust_fibonacci(2), 1);
}

#[test]
fn term_at_ten() {
    assert_eq!(rust_fibonacci(10), 55);
}

#[test]
fn term_at_twenty() {
    assert_eq!(rust_fibonacci(20), 6765);
}

#[test]
fn first_terms_in_order() {
    let expected: [u128; 13] = [0, 1, 1, 2, 3, 5, 8, 13, 21, 34, 55, 89, 144];
    for (n, term) in expected.iter().enumerate() {
        assert_eq!(rust_fibonacci(n as u32), *term);
    }
}

#[test]
fn last_term_that_fits() {
    assert_eq!(rust_fibonacci(185), 205697230343233228174223751303346572685);
    assert_eq!(rust_fibonacci(186), 332825110087067562321196029789634457848);
}

#[test]
fn first_term_that_wraps() {
    // 538522340430300790495419781092981030533 less two to the power 128
    assert_eq!(rust_fibonacci(187), 198239973509362327032045173661212819077);
}

#[test]
fn wrapped_terms_far_out() {
    assert_eq!(rust_fibonacci(188), 190782716675491425889866596019079065469);
    assert_eq!(rust_fibonacci(200), 178502649656846143791255889261670949781);
    assert_eq!(rust_fibonacci(1000), 101760851154547862183199185335023067211);
    assert_eq!(rust_fibonacci(100000), 123084731589716971363493501662014098043);
}

#[test]
fn recurrence_holds_while_terms_fit() {
    for n in 2..=186u32 {
        assert_eq!(rust_fibonacci(n), rust_fibonacci(n - 1) + rust_fibonacci(n - 2));
    }
}

#[test]
fn recurrence_holds_modulo_the_width_everywhere() {
    for n in 2..=600u32 {
        assert_eq!(
            rust_fibonacci(n),
            rust_fibonacci(n - 1).wrapping_add(rust_fibonacci(n - 2))
        );
    }
}

#[test]
fn plain_recurrence_holds_exactly_where_the_sum_fits() {
    for n in 2..=600u32 {
        let sum = rust_fibonacci(n - 1).checked_add(rust_fibonacci(n - 2));
        assert_eq!(sum == Some(rust_fibonacci(n)), sum.is_some());
    }
    assert!(rust_fibonacci(186).checked_add(rust_fibonacci(185)).is_none());
}

#[test]
fn terms_never_decrease_while_they_fit() {
    for n in 1..186u32 {
        assert!(rust_fibonacci(n + 1) >= rust_fibonacci(n));
    }
    assert!(rust_fibonacci(0) <= rust_fibonacci(186));
}

#[test]
fn a_step_decreases_exactly_where_the_sum_wraps() {
    for n in 1..600u32 {
        let fits = rust_fibonacci(n).checked_add(rust_fibonacci(n - 1)).is_some();
        assert_eq!(rust_fibonacci(n + 1) >= rust_fibonacci(n), fits);
    }
    assert!(rust_fibonacci(187) < rust_fibonacci(186));
}

#[test]
fn repeated_calls_agree() {
    for n in [0u32, 1, 2, 10, 93, 186, 187, 5000] {
        let first = rust_fibonacci(n);
        let second = rust_fibonacci(n);
        assert_eq!(first, second);
    }
}
