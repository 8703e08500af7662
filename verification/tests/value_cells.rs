use lib::value::{Value, ValueKind, QNAN_BASE, SIGN_BIT};

fn number(x: f64) -> Value {
    Value::from_raw(x.to_bits())
}

#[test]
fn nil_is_only_nil() {
    let v = Value::nil();
    assert_eq!(v.raw(), 0x7ffc000000000001);
    assert!(v.is_nil());
    assert!(!v.is_number());
    assert!(!v.is_boolean());
    assert!(!v.is_obj());
    assert_eq!(v.kind(), ValueKind::Nil);
}

#[test]
fn booleans_round_trip() {
    let t = Value::boolean(true);
    let f = Value::boolean(false);
    assert_eq!(t.raw(), 0x7ffc000000000003);
    assert_eq!(f.raw(), 0x7ffc000000000002);
    assert!(t.is_boolean() && f.is_boolean());
    assert!(t.as_boolean());
    assert!(!f.as_boolean());
    assert!(!t.is_number() && !t.is_nil() && !t.is_obj());
    assert_eq!(t.kind(), ValueKind::Boolean(true));
    assert_eq!(f.kind(), ValueKind::Boolean(false));
}

#[test]
fn numbers_are_numbers() {
    for x in [0.0, -0.0, 5.0, 10.5, -3.25, f64::INFINITY, f64::NEG_INFINITY, f64::MAX] {
        let v = number(x);
        assert!(v.is_number(), "{}", x);
        assert!(!v.is_nil() && !v.is_boolean() && !v.is_obj());
        assert_eq!(v.kind(), ValueKind::Number);
        assert_eq!(f64::from_bits(v.raw()), x);
    }
    // The canonical NaN does not carry the whole quiet-NaN prefix, so it is a number.
    assert!(number(f64::NAN).is_number());
}

#[test]
fn objects_round_trip() {
    let addr: u64 = 0x0000_7fff_dead_beef;
    let v = Value::obj(addr);
    assert_eq!(v.raw(), SIGN_BIT | QNAN_BASE | addr);
    assert!(v.is_obj());
    assert!(!v.is_number() && !v.is_nil() && !v.is_boolean());
    assert_eq!(v.as_obj(), addr);
    assert_eq!(v.kind(), ValueKind::Object(addr));
}

#[test]
fn object_with_wide_address_loses_tag_bits() {
    // Only 48-bit addresses survive the round trip.
    let v = Value::obj(0xffff_0000_0000_0001);
    assert!(v.is_obj());
    assert_eq!(v.as_obj(), 0x0003_0000_0000_0001);
}

#[test]
fn bare_quiet_nan_prefix_is_invalid() {
    let v = Value::from_raw(QNAN_BASE);
    assert!(!v.is_number() && !v.is_nil() && !v.is_boolean() && !v.is_obj());
    assert_eq!(v.kind(), ValueKind::Invalid);
    assert_eq!(Value::from_raw(QNAN_BASE | 7).kind(), ValueKind::Invalid);
}

#[test]
fn raw_round_trip() {
    for bits in [0u64, 1, QNAN_BASE, u64::MAX, 0x4014000000000000] {
        assert_eq!(Value::from_raw(bits).raw(), bits);
    }
}
