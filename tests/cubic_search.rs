use cucoqu::cu2qu::{curve_to_quadratic, curves_to_quadratic, ApproxNotFoundError, MAX_N};

#[test]
fn error_description() {
    assert_eq!(
        ApproxNotFoundError.description(),
        "Could not approximate cubic curve with a quadratic"
    );
}

#[test]
fn curve_to_quadratic_takes_the_first_count_that_fits() {
    let fit = |n: usize| if n >= 7 { Ok(n * 10) } else { Err(ApproxNotFoundError) };
    assert_eq!(curve_to_quadratic(&fit), Ok(70));
}

#[test]
fn curve_to_quadratic_one_segment_when_it_fits() {
    let fit = |n: usize| -> Result<usize, ApproxNotFoundError> { Ok(n) };
    assert_eq!(curve_to_quadratic(&fit), Ok(1));
}

#[test]
fn curve_to_quadratic_reaches_the_last_count() {
    let fit = |n: usize| if n == MAX_N { Ok(n) } else { Err(ApproxNotFoundError) };
    assert_eq!(curve_to_quadratic(&fit), Ok(100));
}

#[test]
fn curve_to_quadratic_fails_when_no_count_fits() {
    let tried = std::cell::Cell::new(0usize);
    let fit = |_n: usize| -> Result<usize, ApproxNotFoundError> {
        tried.set(tried.get() + 1);
        Err(ApproxNotFoundError)
    };
    assert_eq!(curve_to_quadratic(&fit), Err(ApproxNotFoundError));
    assert_eq!(tried.get(), 100);
}

#[test]
fn curves_to_quadratic_empty_batch() {
    let fit = |_i: usize, _n: usize| -> Result<u8, ApproxNotFoundError> { Err(ApproxNotFoundError) };
    assert_eq!(curves_to_quadratic(0, &fit), Ok(vec![]));
}

#[test]
fn curves_to_quadratic_keeps_length_and_order() {
    let needed = [2usize, 1, 4, 3];
    let fit = |i: usize, n: usize| {
        if n >= needed[i] {
            Ok((i, n))
        } else {
            Err(ApproxNotFoundError)
        }
    };
    let r = curves_to_quadratic(needed.len(), &fit).unwrap();
    assert_eq!(r, vec![(0, 4), (1, 4), (2, 4), (3, 4)]);
}

#[test]
fn curves_to_quadratic_single_curve() {
    let fit = |i: usize, n: usize| if n >= 5 { Ok((i, n)) } else { Err(ApproxNotFoundError) };
    assert_eq!(curves_to_quadratic(1, &fit), Ok(vec![(0, 5)]));
}

#[test]
fn curves_to_quadratic_fails_when_one_curve_never_fits() {
    let fit = |i: usize, n: usize| if i != 1 { Ok(n) } else { Err(ApproxNotFoundError) };
    assert_eq!(curves_to_quadratic(3, &fit), Err(ApproxNotFoundError));
}

#[test]
fn curves_to_quadratic_revisits_the_ring_after_a_change() {
    let visits = std::cell::RefCell::new(Vec::new());
    let fit = |i: usize, n: usize| {
        visits.borrow_mut().push((i, n));
        if i == 2 && n < 2 {
            Err(ApproxNotFoundError)
        } else {
            Ok(n)
        }
    };
    assert_eq!(curves_to_quadratic(3, &fit), Ok(vec![2, 2, 2]));
    assert_eq!(
        visits.into_inner(),
        vec![(0, 1), (1, 1), (2, 1), (2, 2), (0, 2), (1, 2)]
    );
}

#[test]
fn curves_to_quadratic_fails_without_a_common_count() {
    let fit = |i: usize, n: usize| if n == i + 1 { Ok(n) } else { Err(ApproxNotFoundError) };
    assert_eq!(curves_to_quadratic(2, &fit), Err(ApproxNotFoundError));
}

#[test]
fn curves_to_quadratic_shares_the_count_of_the_hardest_curve() {
    let needed = [1usize, 2];
    let fit = |i: usize, n: usize| {
        if n >= needed[i] {
            Ok(vec![i; n])
        } else {
            Err(ApproxNotFoundError)
        }
    };
    let r = curves_to_quadratic(2, &fit).unwrap();
    assert_eq!(r, vec![vec![0, 0], vec![1, 1]]);
}

#[test]
fn curves_to_quadratic_each_result_spans_its_own_curve() {
    let ends = [(0i32, 10i32), (10, 25), (25, 0)];
    let fit = |i: usize, n: usize| {
        if n < 3 {
            return Err(ApproxNotFoundError);
        }
        let (a, b) = ends[i];
        Ok((0..=n as i32).map(|k| a + (b - a) * k / n as i32).collect::<Vec<i32>>())
    };
    let r = curves_to_quadratic(3, &fit).unwrap();
    for (i, spline) in r.iter().enumerate() {
        assert_eq!(spline.len(), 4);
        assert_eq!(spline[0], ends[i].0);
        assert_eq!(spline[spline.len() - 1], ends[i].1);
    }
}
