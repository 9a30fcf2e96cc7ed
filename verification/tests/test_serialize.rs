use columnar::EncodeError;
use columnar::schema::UnionMode;
use columnar::schema::VariantShape;
use columnar::value::PrimKind;
use columnar::deserialize::decode;
use columnar::schema::DataType;
use columnar::schema::Field;
use columnar::schema::Shape;
use columnar::schema::derive_field;
use columnar::serialize::Builder;
use columnar::serialize::encode;
use columnar::value::PrimValue;
use columnar::value::Value;

fn derive(name: &str, s: &Shape) -> Field {
    derive_field(&name.as_bytes().to_vec(), s).unwrap()
}

#[test]
fn test_error_exceed_fixed_size_binary() {
    let f = derive("root", &Shape::FixedSizeBinary(2));
    let rows = vec![Some(Value::Blob(b"abc".to_vec()))];
    let r = encode(f, &rows);
    assert!(r.is_err());
    assert_eq!(r.unwrap_err(), EncodeError::FixedSizeMismatch);
}

#[test]
fn test_array() {
    let f = derive("root", &Shape::FixedSizeBinary(3));
    assert_eq!(f.dtype, DataType::FixedSizeBinary { size: 3 });
    let rows = vec![Some(Value::Blob(b"abc".to_vec()))];
    let col = encode(f, &rows).unwrap();
    let f2 = derive("root", &Shape::FixedSizeBinary(3));
    let out = decode(&f2.dtype, &col).unwrap();
    assert_eq!(out.len(), 1);
    assert_eq!(out, rows);

    let f = derive("root", &Shape::Binary);
    assert_eq!(f.dtype, DataType::Binary { large: false });
    let rows = vec![Some(Value::Blob(b"abc".to_vec()))];
    let col = encode(f, &rows).unwrap();
    let f2 = derive("root", &Shape::Binary);
    let out = decode(&f2.dtype, &col).unwrap();
    assert_eq!(out.len(), 1);
    assert_eq!(out, rows);
}

#[test]
fn test_field_serialize_error() {
    // a value whose variant does not match the declared type is rejected,
    // and the error surfaces through the whole append
    let f = derive("custom", &Shape::Primitive(PrimKind::UInt64));
    let rows = vec![Some(Value::Text(b"custom".to_vec()))];
    let r = encode(f, &rows);
    assert_eq!(r.unwrap_err(), EncodeError::TypeMismatch);
}

#[test]
fn test_builder_unchanged_after_error() {
    // a rejected append leaves the builder exactly as it was: the rows
    // sealed afterwards are the rows appended before the error
    let f = derive("root", &Shape::FixedSizeBinary(2));
    let mut b = Builder::new(f);
    b.append(Some(&Value::Blob(b"ab".to_vec()))).unwrap();
    let r = b.append(Some(&Value::Blob(b"abc".to_vec())));
    assert_eq!(r.unwrap_err(), EncodeError::FixedSizeMismatch);
    let col = b.seal();
    let f2 = derive("root", &Shape::FixedSizeBinary(2));
    let out = decode(&f2.dtype, &col).unwrap();
    assert_eq!(out, vec![Some(Value::Blob(b"ab".to_vec()))]);
}

#[test]
fn test_builder_reserve() {
    let f = derive("root", &Shape::Utf8);
    let mut b = Builder::new(f);
    b.reserve(16, 64);
    b.append(Some(&Value::Text(b"abc".to_vec()))).unwrap();
    b.reserve(1, 1);
    b.append(None).unwrap_err();
    let col = b.seal();
    let f2 = derive("root", &Shape::Utf8);
    let out = decode(&f2.dtype, &col).unwrap();
    assert_eq!(out, vec![Some(Value::Text(b"abc".to_vec()))]);
}

#[test]
fn test_null_not_allowed() {
    // a missing value on a non-nullable slot is rejected
    let f = derive("root", &Shape::Primitive(columnar::value::PrimKind::Int32));
    let rows = vec![None];
    assert_eq!(encode(f, &rows).unwrap_err(), EncodeError::NullNotAllowed);
}

#[test]
fn test_invalid_tag() {
    let s = Shape::Union(
        UnionMode::Dense,
        vec![VariantShape { name: b"VAL1".to_vec(), payload: None }],
    );
    let f = derive("root", &s);
    let rows = vec![Some(Value::Tagged(7, None))];
    assert_eq!(encode(f, &rows).unwrap_err(), EncodeError::InvalidTag);

    // a union slot never accepts a missing value: it has no validity bitmap
    let f = derive("root", &s);
    let rows = vec![None];
    assert_eq!(encode(f, &rows).unwrap_err(), EncodeError::NullNotAllowed);
}

#[test]
fn test_decimal_mismatch() {
    // same payload width, different declared precision: structurally
    // different types
    let s1 = Shape::Primitive(PrimKind::Decimal { precision: 32, scale: 32 });
    let s2 = Shape::Primitive(PrimKind::Decimal { precision: 2, scale: 2 });
    let f = derive("root", &s1);
    let rows = vec![Some(Value::Prim(PrimValue::Dec(7)))];
    let col = encode(f, &rows).unwrap();
    let f2 = derive("root", &s2);
    assert!(decode(&f2.dtype, &col).is_err());
}
