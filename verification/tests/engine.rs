use sobol::params::JoeKuoD6;
use sobol::params::JoeKuoD6Dim;
use sobol::Sobol;

fn standard() -> JoeKuoD6 {
    JoeKuoD6::standard().unwrap()
}

/** The first point of every sequence is the origin: all raw values zero */
#[test]
fn test_first_point_origin() {
    let params = standard();
    let mut s = Sobol::<u32>::new(6, &params);
    assert_eq!(s.next().unwrap(), vec![0u32; 6]);
}

/** Signed output types render the zero raw value as the type's minimum */
#[test]
fn test_first_point_signed_minimum() {
    let params = standard();
    let mut s8 = Sobol::<i8>::new(2, &params);
    assert_eq!(s8.next().unwrap(), vec![i8::MIN; 2]);
    let mut s32 = Sobol::<i32>::new(3, &params);
    assert_eq!(s32.next().unwrap(), vec![i32::MIN; 3]);
    let mut s128 = Sobol::<i128>::new(2, &params);
    assert_eq!(s128.next().unwrap(), vec![i128::MIN; 2]);
}

/** Exactly 2^resolution - 1 points come out; exhaustion is terminal */
#[test]
fn test_exhaustion_is_terminal() {
    let params = standard();
    let mut s = Sobol::<u8>::new_with_resolution(2, &params, Some(2));
    assert_eq!(s.max_len, 3);
    assert_eq!(s.next().unwrap(), vec![0, 0]);
    assert_eq!(s.next().unwrap(), vec![128, 128]);
    assert_eq!(s.next().unwrap(), vec![192, 64]);
    assert!(s.next().is_none());
    assert!(s.next().is_none());
    assert_eq!(s.count, 3);
}

/** The first points of the two-dimensional 32-bit sequence */
#[test]
fn test_known_sequence_u32() {
    let params = standard();
    let mut s = Sobol::<u32>::new(2, &params);
    assert_eq!(s.next().unwrap(), vec![0, 0]);
    assert_eq!(s.next().unwrap(), vec![2147483648, 2147483648]);
    assert_eq!(s.next().unwrap(), vec![3221225472, 1073741824]);
    assert_eq!(s.next().unwrap(), vec![1073741824, 3221225472]);
}

/** Unsigned renders are the identity across widths */
#[test]
fn test_identity_render_widths() {
    let params = standard();
    let mut s16 = Sobol::<u16>::new(2, &params);
    s16.next();
    assert_eq!(s16.next().unwrap(), vec![32768, 32768]);
    let mut s128 = Sobol::<u128>::new_with_resolution(1, &params, Some(2));
    s128.next();
    assert_eq!(
        s128.next().unwrap(),
        vec![170141183460469231731687303715884105728u128]
    );
    assert_eq!(
        s128.next().unwrap(),
        vec![255211775190703847597530955573826158592u128]
    );
    assert!(s128.next().is_none());
}

/** SkipAhead(n) returns what the (n+1)-th ProduceNext would */
#[test]
fn test_nth_equals_repeated_next() {
    let params = standard();
    let mut a = Sobol::<u32>::new(2, &params);
    let mut b = Sobol::<u32>::new(2, &params);
    let mut last = None;
    for _ in 0..4 {
        last = a.next();
    }
    let skipped = b.nth(3);
    assert_eq!(skipped, last);
    assert_eq!(last.unwrap(), vec![1073741824, 3221225472]);
    assert_eq!(a.count, b.count);
    /* and the two paths stay in lockstep afterwards */
    assert_eq!(a.next(), b.next());
    /* skipping past the end yields the end marker */
    let mut c = Sobol::<u8>::new_with_resolution(2, &params, Some(2));
    assert!(c.nth(500).is_none());
    assert_eq!(c.count, 3);
}

/** A clone continues identically and independently of the original */
#[test]
fn test_clone_continues_identically() {
    let params = standard();
    let mut a = Sobol::<u32>::new(6, &params);
    a.next();
    a.next();
    a.next();
    let mut b = a.clone();
    assert_eq!(a.next(), b.next());
    assert_eq!(a.next(), b.next());
    /* advancing the clone further does not disturb the original */
    b.next();
    assert_eq!(a.count, 5);
    assert_eq!(b.count, 6);
}

/** A resolution below a dimension's degree uses only the first values */
#[test]
fn test_truncated_resolution() {
    let params = standard();
    /* dimension 6 has degree 4; at resolution 2 only m(0) and m(1) are used */
    let dir_vals = Sobol::<u32>::init_direction_vals(6, 2, &params);
    assert_eq!(dir_vals[5], vec![2147483648, 1073741824]);
    /* the truncated sequence is still produced in full */
    let mut s = Sobol::<u32>::new_with_resolution(6, &params, Some(2));
    assert_eq!(s.resolution, 2);
    assert_eq!(s.max_len, 3);
    assert!(s.next().is_some());
    assert!(s.next().is_some());
    assert!(s.next().is_some());
    assert!(s.next().is_none());
}

/** An explicit resolution above the type's maximum is clamped */
#[test]
fn test_resolution_clamped() {
    let params = standard();
    let s = Sobol::<u8>::new_with_resolution(1, &params, Some(99));
    assert_eq!(s.resolution, 8);
    assert_eq!(s.max_len, 255);
}

/** More dimensions than the provider supports fail construction cleanly */
#[test]
fn test_dims_beyond_provider_fail() {
    let params = standard();
    assert_eq!(params.max_dims, 6);
    assert!(Sobol::<u32>::try_new(7, &params).is_none());
    assert!(Sobol::<u32>::try_new(0, &params).is_none());
    let s = Sobol::<u32>::try_new(6, &params).unwrap();
    assert_eq!(s.dims, 6);
    assert_eq!(s.count, 0);
}

/** The Gray-code index: position of the rightmost binary zero */
#[test]
fn test_rightmost_zero() {
    assert_eq!(Sobol::<u32>::rightmost_zero(0), 0);
    assert_eq!(Sobol::<u32>::rightmost_zero(1), 1);
    assert_eq!(Sobol::<u32>::rightmost_zero(2), 0);
    assert_eq!(Sobol::<u32>::rightmost_zero(3), 2);
    assert_eq!(Sobol::<u32>::rightmost_zero(u32::MAX), 32);
    assert_eq!(Sobol::<u8>::rightmost_zero(u8::MAX), 8);
}

/** Parameter values are narrowed lossily into the working type */
#[test]
fn test_lossy_narrowing() {
    /* 257 truncates to 1 in an 8-bit working type */
    let rec = JoeKuoD6Dim::parse("2 1 0 257").unwrap();
    let params = JoeKuoD6 {
        dim_params: vec![rec],
        max_dims: 2,
    };
    let dir_vals = Sobol::<u8>::init_direction_vals(2, 1, &params);
    assert_eq!(dir_vals[1], vec![128]);
}
