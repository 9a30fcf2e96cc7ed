use columnar::deserialize::decode;
use columnar::schema::DataType;
use columnar::schema::Field;
use columnar::schema::FieldShape;
use columnar::schema::Shape;
use columnar::schema::derive_field;
use columnar::serialize::encode;
use columnar::value::PrimKind;
use columnar::value::PrimValue;
use columnar::value::Value;

fn derive(name: &str, s: &Shape) -> Field {
    derive_field(&name.as_bytes().to_vec(), s).unwrap()
}

fn roundtrip(s: &Shape, rows: &Vec<Option<Value>>) -> Vec<Option<Value>> {
    let f = derive("root", s);
    let col = encode(f, rows).unwrap();
    let f2 = derive("root", s);
    decode(&f2.dtype, &col).unwrap()
}

fn txt(s: &str) -> Value {
    Value::Text(s.as_bytes().to_vec())
}

fn i64v(x: i64) -> Value {
    Value::Prim(PrimValue::I64(x))
}

#[test]
fn test_round_trip_test_nested_optional_struct_array() {
    let child = Shape::Record(vec![FieldShape {
        name: b"a1".to_vec(),
        shape: Shape::Primitive(PrimKind::Int64),
    }]);
    let top = Shape::Record(vec![FieldShape {
        name: b"child_array".to_vec(),
        shape: Shape::List(Box::new(Shape::Optional(Box::new(child)))),
    }]);
    let rec = |a1: i64| Some(Value::Record(vec![Some(i64v(a1))]));
    let row = |items: Vec<Option<Value>>| Some(Value::Record(vec![Some(Value::List(items))]));
    let rows = vec![
        row(vec![rec(10), None, rec(12), rec(14)]),
        row(vec![None, None, None, None]),
        row(vec![None, None, rec(12), None]),
    ];
    let out = roundtrip(&top, &rows);
    assert_eq!(out, rows);
}

#[test]
fn test_large_string() {
    let rows = vec![Some(txt("1")), Some(txt("2"))];
    let f = derive("root", &Shape::LargeUtf8);
    assert_eq!(f.dtype, DataType::Utf8 { large: true });
    let col = encode(f, &rows).unwrap();
    let f2 = derive("root", &Shape::LargeUtf8);
    let out = decode(&f2.dtype, &col).unwrap();
    assert_eq!(out, rows);
}

#[test]
fn test_large_string_nested() {
    let s = Shape::List(Box::new(Shape::LargeUtf8));
    let f = derive("root", &s);
    match &f.dtype {
        DataType::List { large, item } => {
            assert!(!large);
            assert_eq!(item.name, b"item".to_vec());
            assert_eq!(item.dtype, DataType::Utf8 { large: true });
            assert!(!item.nullable);
        },
        _ => unreachable!(),
    }
    let rows = vec![Some(Value::List(vec![Some(txt("1")), Some(txt("2"))]))];
    let out = roundtrip(&s, &rows);
    assert_eq!(out, rows);
}

#[test]
fn test_large_binary() {
    let rows = vec![Some(Value::Blob(b"abc".to_vec()))];
    let f = derive("root", &Shape::LargeBinary);
    assert_eq!(f.dtype, DataType::Binary { large: true });
    let col = encode(f, &rows).unwrap();
    let f2 = derive("root", &Shape::LargeBinary);
    let out = decode(&f2.dtype, &col).unwrap();
    assert_eq!(out, rows);
}

#[test]
fn test_large_binary_nested() {
    let s = Shape::List(Box::new(Shape::LargeBinary));
    let f = derive("root", &s);
    match &f.dtype {
        DataType::List { large, item } => {
            assert!(!large);
            assert_eq!(item.name, b"item".to_vec());
            assert_eq!(item.dtype, DataType::Binary { large: true });
        },
        _ => unreachable!(),
    }
    let rows = vec![Some(Value::List(vec![
        Some(Value::Blob(b"abc".to_vec())),
        Some(Value::Blob(b"abd".to_vec())),
    ]))];
    let out = roundtrip(&s, &rows);
    assert_eq!(out, rows);
}

#[test]
fn test_fixed_size_binary() {
    let rows = vec![Some(Value::Blob(b"abc".to_vec()))];
    let f = derive("root", &Shape::FixedSizeBinary(3));
    assert_eq!(f.dtype, DataType::FixedSizeBinary { size: 3 });
    let col = encode(f, &rows).unwrap();
    let f2 = derive("root", &Shape::FixedSizeBinary(3));
    let out = decode(&f2.dtype, &col).unwrap();
    assert_eq!(out, rows);
}

#[test]
fn test_large_vec() {
    let s = Shape::LargeList(Box::new(Shape::Primitive(PrimKind::Int32)));
    let f = derive("root", &s);
    match &f.dtype {
        DataType::List { large, item } => {
            assert!(large);
            assert_eq!(item.name, b"item".to_vec());
            assert_eq!(item.dtype, DataType::Primitive(PrimKind::Int32));
            assert!(!item.nullable);
        },
        _ => unreachable!(),
    }
    let i32v = |x: i32| Some(Value::Prim(PrimValue::I32(x)));
    let rows = vec![Some(Value::List(vec![i32v(1), i32v(2), i32v(3)]))];
    let out = roundtrip(&s, &rows);
    assert_eq!(out, rows);
}

#[test]
fn test_large_vec_nested() {
    let s = Shape::LargeList(Box::new(Shape::LargeBinary));
    let f = derive("root", &s);
    match &f.dtype {
        DataType::List { large, item } => {
            assert!(large);
            assert_eq!(item.dtype, DataType::Binary { large: true });
        },
        _ => unreachable!(),
    }
    let rows = vec![Some(Value::List(vec![
        Some(Value::Blob(b"abc".to_vec())),
        Some(Value::Blob(b"abd".to_vec())),
    ]))];
    let out = roundtrip(&s, &rows);
    assert_eq!(out, rows);
}

#[test]
fn test_fixed_size_vec() {
    let s = Shape::FixedSizeList(Box::new(Shape::Primitive(PrimKind::Int32)), 3);
    let f = derive("root", &s);
    match &f.dtype {
        DataType::FixedSizeList { size, item } => {
            assert_eq!(*size, 3);
            assert_eq!(item.name, b"item".to_vec());
            assert_eq!(item.dtype, DataType::Primitive(PrimKind::Int32));
        },
        _ => unreachable!(),
    }
    let i32v = |x: i32| Some(Value::Prim(PrimValue::I32(x)));
    let rows = vec![Some(Value::List(vec![i32v(1), i32v(2), i32v(3)]))];
    let out = roundtrip(&s, &rows);
    assert_eq!(out, rows);
}

#[test]
fn test_primitive_type_vec() {
    // required and nullable rows of every integer width
    let cases: Vec<(PrimKind, fn(i64) -> PrimValue)> = vec![
        (PrimKind::Int8, |x| PrimValue::I8(x as i8)),
        (PrimKind::Int16, |x| PrimValue::I16(x as i16)),
        (PrimKind::Int32, |x| PrimValue::I32(x as i32)),
        (PrimKind::Int64, |x| PrimValue::I64(x)),
        (PrimKind::UInt8, |x| PrimValue::U8(x as u8)),
        (PrimKind::UInt16, |x| PrimValue::U16(x as u16)),
        (PrimKind::UInt32, |x| PrimValue::U32(x as u32)),
        (PrimKind::UInt64, |x| PrimValue::U64(x as u64)),
    ];
    for (pk, mk) in cases {
        let s = Shape::Primitive(pk);
        let rows = vec![
            Some(Value::Prim(mk(1))),
            Some(Value::Prim(mk(2))),
            Some(Value::Prim(mk(3))),
        ];
        let out = roundtrip(&s, &rows);
        assert_eq!(out, rows);

        let so = Shape::Optional(Box::new(Shape::Primitive(pk)));
        let rows = vec![Some(Value::Prim(mk(1))), None, Some(Value::Prim(mk(3)))];
        let out = roundtrip(&so, &rows);
        assert_eq!(out, rows);
    }

    // floats round-trip bit-exactly through their stored bit patterns
    let s = Shape::Primitive(PrimKind::Float32);
    let f32v = |x: f32| Some(Value::Prim(PrimValue::F32Bits(x.to_bits())));
    let rows = vec![f32v(1.0), f32v(2.0), f32v(47800.0)];
    let out = roundtrip(&s, &rows);
    assert_eq!(out, rows);

    let s = Shape::Optional(Box::new(Shape::Primitive(PrimKind::Float64)));
    let f64v = |x: f64| Some(Value::Prim(PrimValue::F64Bits(x.to_bits())));
    let rows = vec![f64v(1.0), None, f64v(3.0)];
    let out = roundtrip(&s, &rows);
    assert_eq!(out, rows);

    // 128-bit decimal with declared precision and scale
    let s = Shape::Primitive(PrimKind::Decimal { precision: 32, scale: 32 });
    let decv = |x: i128| Some(Value::Prim(PrimValue::Dec(x)));
    let rows = vec![decv(1), decv(2), decv(3)];
    let out = roundtrip(&s, &rows);
    assert_eq!(out, rows);

    let s = Shape::Optional(Box::new(Shape::Primitive(PrimKind::Decimal {
        precision: 32,
        scale: 32,
    })));
    let rows = vec![decv(1), None, decv(3)];
    let out = roundtrip(&s, &rows);
    assert_eq!(out, rows);

    // booleans
    let s = Shape::Primitive(PrimKind::Bool);
    let bv = |x: bool| Some(Value::Prim(PrimValue::Bool(x)));
    let rows = vec![bv(false), bv(true), bv(false)];
    let out = roundtrip(&s, &rows);
    assert_eq!(out, rows);

    let s = Shape::Optional(Box::new(Shape::Primitive(PrimKind::Bool)));
    let rows = vec![bv(false), bv(true), None];
    let out = roundtrip(&s, &rows);
    assert_eq!(out, rows);

    // nullable binary
    let s = Shape::Optional(Box::new(Shape::Binary));
    let rows = vec![Some(Value::Blob(b"aa".to_vec())), None];
    let out = roundtrip(&s, &rows);
    assert_eq!(out, rows);
}

#[test]
fn test_escaped_name() {
    let s = Shape::Record(vec![FieldShape {
        name: b"type".to_vec(),
        shape: Shape::Primitive(PrimKind::Bool),
    }]);
    let f = derive("root", &s);
    match &f.dtype {
        DataType::Record { fields } => {
            assert_eq!(fields[0].name, b"type".to_vec());
        },
        _ => unreachable!(),
    }
    let bv = |x: bool| Some(Value::Record(vec![Some(Value::Prim(PrimValue::Bool(x)))]));
    let rows = vec![bv(true), bv(false)];
    let out = roundtrip(&s, &rows);
    assert_eq!(out, rows);
}
