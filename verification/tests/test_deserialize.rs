use columnar::ShapeError;
use columnar::deserialize::decode;
use columnar::schema::Field;
use columnar::schema::FieldShape;
use columnar::schema::Shape;
use columnar::schema::derive_field;
use columnar::serialize::encode;
use columnar::value::PrimKind;
use columnar::value::PrimValue;
use columnar::value::Value;

fn derive(name: &str, s: &Shape) -> Field {
    derive_field(&name.as_bytes().to_vec(), s).unwrap()
}

fn i64_rec_shape() -> Shape {
    Shape::Record(vec![FieldShape {
        name: b"a1".to_vec(),
        shape: Shape::Primitive(PrimKind::Int64),
    }])
}

#[test]
fn test_deserialize_iterator() {
    let s = i64_rec_shape();
    let rec = |a1: i64| Some(Value::Record(vec![Some(Value::Prim(PrimValue::I64(a1)))]));
    let rows = vec![rec(1), rec(100), rec(1000)];
    let f = derive("root", &s);
    let col = encode(f, &rows).unwrap();
    let f2 = derive("root", &s);
    let out = decode(&f2.dtype, &col).unwrap();
    for (i, k) in out.iter().zip(rows.iter()) {
        assert_eq!(i, k);
    }

    // a doubly optional slot is rejected at derivation: the columnar model
    // has exactly one validity bit per position
    let ss = Shape::Optional(Box::new(Shape::Optional(Box::new(Shape::Primitive(
        PrimKind::Int32,
    )))));
    let r = derive_field(&b"root".to_vec(), &ss);
    assert_eq!(r.unwrap_err(), ShapeError::AmbiguousNesting);
}

#[test]
fn test_deserialize_schema_mismatch_error() {
    let s1 = Shape::Record(vec![FieldShape {
        name: b"a".to_vec(),
        shape: Shape::Primitive(PrimKind::Int64),
    }]);
    let s2 = Shape::Record(vec![FieldShape { name: b"a".to_vec(), shape: Shape::Utf8 }]);
    let rec = |a: i64| Some(Value::Record(vec![Some(Value::Prim(PrimValue::I64(a)))]));
    let rows = vec![rec(1), rec(2)];
    let f = derive("root", &s1);
    let col = encode(f, &rows).unwrap();
    let f2 = derive("root", &s2);
    let result = decode(&f2.dtype, &col);
    assert!(result.is_err());

    let f = derive("root", &s1);
    let rows = vec![rec(1), rec(2)];
    let col = encode(f, &rows).unwrap();
    let f2 = derive("root", &s2);
    let result = decode(&f2.dtype, &col);
    assert!(result.is_err());
}

#[test]
fn test_deserialize_large_types_schema_mismatch_error() {
    let s1 = Shape::Record(vec![FieldShape { name: b"a".to_vec(), shape: Shape::Utf8 }]);
    let s2 = Shape::Record(vec![FieldShape { name: b"a".to_vec(), shape: Shape::LargeUtf8 }]);
    let rec = |a: &str| Some(Value::Record(vec![Some(Value::Text(a.as_bytes().to_vec()))]));
    let rows = vec![rec("123"), rec("333")];
    let f = derive("root", &s1);
    let col = encode(f, &rows).unwrap();
    let f2 = derive("root", &s2);
    let result = decode(&f2.dtype, &col);
    assert!(result.is_err());
}

#[test]
fn test_deserialize_buffer() {
    // lists of 16-bit integers, reconstructed element by element
    let s = Shape::List(Box::new(Shape::Primitive(PrimKind::UInt16)));
    let u16v = |x: u16| Some(Value::Prim(PrimValue::U16(x)));
    let rows = vec![
        Some(Value::List(vec![u16v(0), u16v(1), u16v(2), u16v(3), u16v(4)])),
        Some(Value::List(vec![u16v(7), u16v(8)])),
    ];
    let f = derive("root", &s);
    let col = encode(f, &rows).unwrap();
    let f2 = derive("root", &s);
    let out = decode(&f2.dtype, &col).unwrap();
    for (i, k) in out.iter().zip(rows.iter()) {
        assert_eq!(i, k);
    }
}
