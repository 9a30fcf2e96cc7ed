use columnar::column::Column;
use columnar::column::length;
use columnar::deserialize::decode;
use columnar::schema::DataType;
use columnar::schema::Field;
use columnar::schema::FieldShape;
use columnar::schema::Shape;
use columnar::schema::derive_field;
use columnar::serialize::encode;
use columnar::value::PrimKind;
use columnar::value::PrimValue;
use columnar::value::Value;

fn fld(name: &str, s: Shape) -> FieldShape {
    FieldShape { name: name.as_bytes().to_vec(), shape: s }
}

fn derive(name: &str, s: &Shape) -> Field {
    derive_field(&name.as_bytes().to_vec(), s).unwrap()
}

fn txt(s: &str) -> Value {
    Value::Text(s.as_bytes().to_vec())
}

#[test]
fn new() {
    let s = Shape::Record(vec![
        fld("name", Shape::Optional(Box::new(Shape::Utf8))),
        fld("mass", Shape::Optional(Box::new(Shape::Primitive(PrimKind::Float64)))),
        fld("mass1", Shape::Primitive(PrimKind::Int64)),
        fld("a3", Shape::Optional(Box::new(Shape::Binary))),
        fld(
            "nullable_list",
            Shape::Optional(Box::new(Shape::List(Box::new(Shape::Optional(Box::new(
                Shape::Utf8,
            )))))),
        ),
        fld(
            "required_list",
            Shape::List(Box::new(Shape::Optional(Box::new(Shape::Utf8)))),
        ),
        fld(
            "other_list",
            Shape::Optional(Box::new(Shape::List(Box::new(Shape::Optional(Box::new(
                Shape::Primitive(PrimKind::Int32),
            )))))),
        ),
    ]);
    let item = Some(Value::Record(vec![
        Some(txt("a")),
        Some(Value::Prim(PrimValue::F64Bits((0.1f64).to_bits()))),
        Some(Value::Prim(PrimValue::I64(1))),
        Some(Value::Blob(b"aa".to_vec())),
        None,
        Some(Value::List(vec![Some(txt("aa")), Some(txt("bb"))])),
        None,
    ]));
    let f = derive("root", &s);
    let col = encode(f, &vec![item]).unwrap();
    assert_eq!(length(&col), 1);

    let f2 = derive("root", &s);
    match &f2.dtype {
        DataType::Record { fields } => {
            assert_eq!(fields.len(), 7);
            assert_eq!(fields[0].name, b"name".to_vec());
            assert!(fields[0].nullable);
            assert_eq!(fields[1].dtype, DataType::Primitive(PrimKind::Float64));
            assert_eq!(fields[5].name, b"required_list".to_vec());
            assert!(!fields[5].nullable);
            match &fields[5].dtype {
                DataType::List { item, .. } => {
                    assert_eq!(item.name, b"item".to_vec());
                    assert!(item.nullable);
                },
                _ => unreachable!(),
            }
        },
        _ => unreachable!(),
    }
    let out = decode(&f2.dtype, &col).unwrap();
    assert_eq!(out.len(), 1);
}

#[test]
fn main() {
    let s = Shape::Record(vec![
        fld("time", Shape::Utf8),
        fld("query", Shape::Utf8),
        fld("user", Shape::Utf8),
        fld("db", Shape::Utf8),
        fld("pid", Shape::Primitive(PrimKind::Int32)),
        fld("xid", Shape::Primitive(PrimKind::Int32)),
        fld("uid", Shape::Primitive(PrimKind::Int32)),
    ]);
    let item = Some(Value::Record(vec![
        Some(txt("a")),
        Some(txt("a")),
        Some(txt("a")),
        Some(txt("a")),
        Some(Value::Prim(PrimValue::I32(32))),
        Some(Value::Prim(PrimValue::I32(32))),
        Some(Value::Prim(PrimValue::I32(32))),
    ]));
    let f = derive("root", &s);
    let col = encode(f, &vec![item]).unwrap();
    assert_eq!(length(&col), 1);
    match &col {
        Column::Record { fields, .. } => {
            assert_eq!(fields.len(), 7);
        },
        _ => unreachable!(),
    }
    let f2 = derive("root", &s);
    let out = decode(&f2.dtype, &col).unwrap();
    assert_eq!(out.len(), 1);
}
