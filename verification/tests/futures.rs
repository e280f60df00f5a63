use picoserve::futures::Either;

#[test]
fn first_is_error_maps_sides() {
    let first: Either<u8, &str> = Either::First(3);
    assert_eq!(first.first_is_error(), Err(3));
    let second: Either<u8, &str> = Either::Second("ok");
    assert_eq!(second.first_is_error(), Ok("ok"));
}

#[test]
fn ignoring_impossible_sides() {
    let a: Either<u8, core::convert::Infallible> = Either::First(9);
    assert_eq!(a.ignore_never_b(), 9);
    let b: Either<core::convert::Infallible, u8> = Either::Second(4);
    assert_eq!(b.ignore_never_a(), 4);
}
