use cfront::span::{Offset, Span};

#[test]
fn span_order_independence() {
    let a = Span::new(Offset(5), Offset(2));
    let b = Span::new(Offset(2), Offset(5));
    assert_eq!(a, b);
    let d = a.data();
    assert_eq!(d.lo, Offset(2));
    assert_eq!(d.hi, Offset(5));
}

#[test]
fn default_span_is_empty_at_zero() {
    let d = Span::default().data();
    assert_eq!(d.lo.0, 0);
    assert_eq!(d.hi.0, 0);
    assert_eq!(Span::default(), Span::dummy());
    assert_eq!(Span::default(), Span::new(Offset(0), Offset(0)));
}

#[test]
fn span_width_is_truncated_to_sixteen_bits() {
    let s = Span::new(Offset(10), Offset(10 + 65536 + 3));
    let d = s.data();
    assert_eq!(d.lo.0, 10);
    assert_eq!(d.hi.0, 13);
}

#[test]
fn span_at_high_offsets() {
    let s = Span::new(Offset(u32::MAX), Offset(u32::MAX - 4));
    let d = s.data();
    assert_eq!(d.lo.0, u32::MAX - 4);
    assert_eq!(d.hi.0, u32::MAX);
}
