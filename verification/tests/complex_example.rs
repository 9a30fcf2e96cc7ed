use columnar::column::Column;
use columnar::column::length;
use columnar::deserialize::decode;
use columnar::schema::DataType;
use columnar::schema::Field;
use columnar::schema::FieldShape;
use columnar::schema::Shape;
use columnar::schema::derive_field;
use columnar::serialize::encode;
use columnar::value::PrimKind;
use columnar::value::PrimValue;
use columnar::value::Value;

fn fld(name: &str, s: Shape) -> FieldShape {
    FieldShape { name: name.as_bytes().to_vec(), shape: s }
}

fn derive(name: &str, s: &Shape) -> Field {
    derive_field(&name.as_bytes().to_vec(), s).unwrap()
}

fn txt(s: &str) -> Value {
    Value::Text(s.as_bytes().to_vec())
}

fn i32v(x: i32) -> Value {
    Value::Prim(PrimValue::I32(x))
}

fn i64v(x: i64) -> Value {
    Value::Prim(PrimValue::I64(x))
}

fn u64v(x: u64) -> Value {
    Value::Prim(PrimValue::U64(x))
}

fn boolv(x: bool) -> Value {
    Value::Prim(PrimValue::Bool(x))
}

fn f64v(x: f64) -> Value {
    Value::Prim(PrimValue::F64Bits(x.to_bits()))
}

fn date32(days: i32) -> Value {
    Value::Prim(PrimValue::I32(days))
}

fn timestamp_ns(ns: i64) -> Value {
    Value::Prim(PrimValue::I64(ns))
}

fn child_child_shape() -> Shape {
    Shape::Record(vec![
        fld("a1", Shape::Primitive(PrimKind::Int32)),
        fld("bool_array", Shape::List(Box::new(Shape::Primitive(PrimKind::Bool)))),
        fld("int64_array", Shape::List(Box::new(Shape::Primitive(PrimKind::Int64)))),
    ])
}

fn root_shape() -> Shape {
    let child = Shape::Record(vec![
        fld("a1", Shape::Primitive(PrimKind::Int64)),
        fld("a2", Shape::Utf8),
        fld("child_array", Shape::List(Box::new(child_child_shape()))),
    ]);
    Shape::Record(vec![
        fld("name", Shape::Optional(Box::new(Shape::Utf8))),
        fld("is_deleted", Shape::Primitive(PrimKind::Bool)),
        fld("a1", Shape::Optional(Box::new(Shape::Primitive(PrimKind::Float64)))),
        fld("a2", Shape::Primitive(PrimKind::Int64)),
        fld("a3", Shape::Optional(Box::new(Shape::Binary))),
        fld("a4", Shape::Primitive(PrimKind::Date32)),
        fld("a5", Shape::Primitive(PrimKind::TimestampNano)),
        fld("a6", Shape::Optional(Box::new(Shape::Primitive(PrimKind::TimestampNano)))),
        fld(
            "date_time_list",
            Shape::List(Box::new(Shape::Primitive(PrimKind::TimestampNano))),
        ),
        fld(
            "nullable_list",
            Shape::Optional(Box::new(Shape::List(Box::new(Shape::Optional(Box::new(
                Shape::Utf8,
            )))))),
        ),
        fld(
            "required_list",
            Shape::List(Box::new(Shape::Optional(Box::new(Shape::Utf8)))),
        ),
        fld("custom", Shape::Primitive(PrimKind::UInt64)),
        fld("nullable_custom", Shape::Optional(Box::new(Shape::Primitive(PrimKind::UInt64)))),
        fld("custom_list", Shape::List(Box::new(Shape::Primitive(PrimKind::UInt64)))),
        fld("child", child),
        fld("int32_array", Shape::List(Box::new(Shape::Primitive(PrimKind::Int32)))),
    ])
}

fn child_child(a1: i32, bools: Vec<bool>, ints: Vec<i64>) -> Value {
    Value::Record(vec![
        Some(i32v(a1)),
        Some(Value::List(bools.into_iter().map(|b| Some(boolv(b))).collect())),
        Some(Value::List(ints.into_iter().map(|x| Some(i64v(x))).collect())),
    ])
}

fn item1() -> Option<Value> {
    Some(Value::Record(vec![
        Some(txt("a")),
        Some(boolv(false)),
        Some(f64v(0.1)),
        Some(i64v(1)),
        Some(Value::Blob(b"aa".to_vec())),
        Some(date32(1)),
        Some(timestamp_ns(10000_000_000_000)),
        Some(timestamp_ns(10001_000_000_000)),
        Some(Value::List(vec![
            Some(timestamp_ns(10000_000_000_010)),
            Some(timestamp_ns(10000_000_000_011)),
        ])),
        Some(Value::List(vec![Some(txt("cc")), Some(txt("dd"))])),
        Some(Value::List(vec![Some(txt("aa")), Some(txt("bb"))])),
        Some(u64v(10)),
        Some(u64v(11)),
        Some(Value::List(vec![Some(u64v(12)), Some(u64v(13))])),
        Some(Value::Record(vec![
            Some(i64v(10)),
            Some(txt("hello")),
            Some(Value::List(vec![
                Some(child_child(100, vec![false], vec![45555, 2124214, 224, 24214, 2424])),
                Some(child_child(101, vec![true, true, true], vec![4533, 22222, 2323, 333, 33322])),
            ])),
        ])),
        Some(Value::List(vec![Some(i32v(0)), Some(i32v(1)), Some(i32v(3))])),
    ]))
}

fn item2() -> Option<Value> {
    Some(Value::Record(vec![
        Some(txt("b")),
        Some(boolv(true)),
        Some(f64v(0.1)),
        Some(i64v(1)),
        Some(Value::Blob(b"aa".to_vec())),
        Some(date32(1)),
        Some(timestamp_ns(10000_000_000_000)),
        None,
        Some(Value::List(vec![
            Some(timestamp_ns(10000_000_000_010)),
            Some(timestamp_ns(10000_000_000_011)),
        ])),
        None,
        Some(Value::List(vec![Some(txt("ee")), Some(txt("ff"))])),
        Some(u64v(11)),
        None,
        Some(Value::List(vec![Some(u64v(14)), Some(u64v(13))])),
        Some(Value::Record(vec![
            Some(i64v(11)),
            Some(txt("hello again")),
            Some(Value::List(vec![
                Some(child_child(100, vec![true, false, false, true], vec![111111, 2222, 33])),
                Some(child_child(102, vec![false], vec![45555, 2124214, 224, 24214, 2424])),
            ])),
        ])),
        Some(Value::List(vec![Some(i32v(111)), Some(i32v(1))])),
    ]))
}

#[test]
fn complex_example_test_round_trip() {
    let s = root_shape();
    let rows = vec![item1(), item2()];
    let f = derive("root", &s);
    let col = encode(f, &rows).unwrap();
    assert_eq!(length(&col), 2);
    match &col {
        Column::Record { fields, .. } => {
            assert_eq!(fields.len(), 16);
        },
        _ => unreachable!(),
    }
    assert_eq!(length(&col), 2);
    let f2 = derive("root", &s);
    let out = decode(&f2.dtype, &col).unwrap();
    assert_eq!(out, rows);
}

#[test]
fn test_schema() {
    let s = root_shape();
    let f = derive("root", &s);
    match &f.dtype {
        DataType::Record { fields } => {
            let names: Vec<&[u8]> = fields.iter().map(|f| f.name.as_slice()).collect();
            assert_eq!(
                names,
                vec![
                    b"name".as_slice(),
                    b"is_deleted",
                    b"a1",
                    b"a2",
                    b"a3",
                    b"a4",
                    b"a5",
                    b"a6",
                    b"date_time_list",
                    b"nullable_list",
                    b"required_list",
                    b"custom",
                    b"nullable_custom",
                    b"custom_list",
                    b"child",
                    b"int32_array",
                ],
            );
        },
        _ => unreachable!(),
    }
}
