use columnar::column::length;
use columnar::deserialize::decode;
use columnar::schema::Field;
use columnar::schema::FieldShape;
use columnar::schema::Shape;
use columnar::schema::derive_field;
use columnar::serialize::encode;
use columnar::value::Value;

fn derive(name: &str, s: &Shape) -> Field {
    derive_field(&name.as_bytes().to_vec(), s).unwrap()
}

#[test]
fn simple_example_test_simple_roundtrip() {
    let s = Shape::Record(vec![FieldShape { name: b"name".to_vec(), shape: Shape::Utf8 }]);
    let foo = |name: &str| {
        Some(Value::Record(vec![Some(Value::Text(name.as_bytes().to_vec()))]))
    };
    let rows = vec![foo("hello"), foo("one more"), foo("good bye")];

    let f = derive("root", &s);
    let col = encode(f, &rows).unwrap();
    assert_eq!(length(&col), 3);

    let f2 = derive("root", &s);
    let out = decode(&f2.dtype, &col).unwrap();
    assert_eq!(out, rows);
}
