use columnar::deserialize::decode;
use columnar::schema::Field;
use columnar::schema::FieldShape;
use columnar::schema::Shape;
use columnar::schema::derive_field;
use columnar::serialize::encode;
use columnar::slicing::col_slice;
use columnar::value::PrimKind;
use columnar::value::PrimValue;
use columnar::value::Value;

fn derive(name: &str, s: &Shape) -> Field {
    derive_field(&name.as_bytes().to_vec(), s).unwrap()
}

fn i64v(x: i64) -> Value {
    Value::Prim(PrimValue::I64(x))
}

fn top_shape() -> Shape {
    let child = Shape::Record(vec![FieldShape {
        name: b"a1".to_vec(),
        shape: Shape::Primitive(PrimKind::Int64),
    }]);
    Shape::Record(vec![FieldShape {
        name: b"child_array".to_vec(),
        shape: Shape::List(Box::new(Shape::Optional(Box::new(child)))),
    }])
}

fn top_rows() -> Vec<Option<Value>> {
    let rec = |a1: i64| Some(Value::Record(vec![Some(i64v(a1))]));
    let row = |items: Vec<Option<Value>>| Some(Value::Record(vec![Some(Value::List(items))]));
    vec![
        row(vec![rec(10), None, rec(12), rec(14)]),
        row(vec![None, None, None, None]),
        row(vec![None, None, rec(12), None]),
    ]
}

#[test]
fn test_struct_test_nested_optional_struct_array() {
    let s = top_shape();
    let rows = top_rows();
    let f = derive("root", &s);
    let col = encode(f, &rows).unwrap();
    let f2 = derive("root", &s);
    let out = decode(&f2.dtype, &col).unwrap();
    assert_eq!(out, rows);
}

#[test]
fn test_struct_test_slice() {
    let s = Shape::Record(vec![FieldShape {
        name: b"a1".to_vec(),
        shape: Shape::Primitive(PrimKind::Int64),
    }]);
    let rec = |a1: i64| Some(Value::Record(vec![Some(i64v(a1))]));
    let rows = vec![rec(1), rec(2), rec(3), rec(4)];
    let f = derive("root", &s);
    let col = encode(f, &rows).unwrap();
    for i in 0..rows.len() {
        let part = col_slice(&col, i, rows.len() - i);
        let f2 = derive("root", &s);
        let out = decode(&f2.dtype, &part).unwrap();
        let expected: Vec<Option<Value>> = rows[i..]
            .iter()
            .map(|r| match r {
                Some(Value::Record(fs)) => Some(Value::Record(
                    fs.iter()
                        .map(|w| match w {
                            Some(Value::Prim(p)) => Some(Value::Prim(*p)),
                            _ => None,
                        })
                        .collect(),
                )),
                _ => None,
            })
            .collect();
        assert_eq!(out, expected);
    }
}

#[test]
fn test_nested_slice() {
    let s = top_shape();
    let rows = top_rows();
    let f = derive("root", &s);
    let col = encode(f, &rows).unwrap();
    for i in 0..rows.len() {
        let part = col_slice(&col, i, rows.len() - i);
        let f2 = derive("root", &s);
        let out = decode(&f2.dtype, &part).unwrap();
        // decode the whole column and drop the first i rows
        let f3 = derive("root", &s);
        let whole = decode(&f3.dtype, &col).unwrap();
        let expected: Vec<Option<Value>> = whole.into_iter().skip(i).collect();
        assert_eq!(out, expected);
    }
}
