use columnar::deserialize::decode;
use columnar::schema::Field;
use columnar::schema::FieldShape;
use columnar::schema::Shape;
use columnar::schema::UnionMode;
use columnar::schema::VariantShape;
use columnar::schema::derive_field;
use columnar::serialize::encode;
use columnar::slicing::col_slice;
use columnar::value::PrimKind;
use columnar::value::PrimValue;
use columnar::value::Value;

fn derive(name: &str, s: &Shape) -> Field {
    derive_field(&name.as_bytes().to_vec(), s).unwrap()
}

fn unit_variant(name: &str) -> VariantShape {
    VariantShape { name: name.as_bytes().to_vec(), payload: None }
}

fn payload_variant(name: &str, s: Shape) -> VariantShape {
    VariantShape { name: name.as_bytes().to_vec(), payload: Some(Box::new(s)) }
}

fn tag(t: usize) -> Option<Value> {
    Some(Value::Tagged(t, None))
}

fn tagv(t: usize, v: Value) -> Option<Value> {
    Some(Value::Tagged(t, Some(Box::new(v))))
}

fn unit_enum_shape(mode: UnionMode) -> Shape {
    Shape::Union(
        mode,
        vec![
            unit_variant("VAL1"),
            unit_variant("VAL2"),
            unit_variant("VAL3"),
            unit_variant("VAL4"),
        ],
    )
}

#[test]
fn test_dense_enum_unit_variant() {
    let s = unit_enum_shape(UnionMode::Dense);
    let rows = vec![tag(0), tag(1), tag(2), tag(3)];
    let f = derive("root", &s);
    let col = encode(f, &rows).unwrap();
    let f2 = derive("root", &s);
    let out = decode(&f2.dtype, &col).unwrap();
    assert_eq!(out, rows);
}

#[test]
fn test_sparse_enum_unit_variant() {
    let s = unit_enum_shape(UnionMode::Sparse);
    let rows = vec![tag(0), tag(1), tag(2), tag(3)];
    let f = derive("root", &s);
    let col = encode(f, &rows).unwrap();
    let f2 = derive("root", &s);
    let out = decode(&f2.dtype, &col).unwrap();
    assert_eq!(out, rows);
}

fn test_struct_shape() -> Shape {
    Shape::Record(vec![FieldShape {
        name: b"a1".to_vec(),
        shape: Shape::Primitive(PrimKind::Int64),
    }])
}

fn test_struct_value(a1: i64) -> Value {
    Value::Record(vec![Some(Value::Prim(PrimValue::I64(a1)))])
}

fn child_enum_shape(mode: UnionMode) -> Shape {
    Shape::Union(
        mode,
        vec![
            unit_variant("VAL1"),
            payload_variant("VAL2", Shape::Primitive(PrimKind::Int32)),
            payload_variant("VAL3", Shape::Primitive(PrimKind::Float64)),
            payload_variant("VAL4", test_struct_shape()),
        ],
    )
}

#[test]
fn test_nested_unit_variant() {
    let s = Shape::Union(
        UnionMode::Dense,
        vec![
            unit_variant("VAL1"),
            payload_variant("VAL2", Shape::Primitive(PrimKind::Int32)),
            payload_variant("VAL3", Shape::Primitive(PrimKind::Float64)),
            payload_variant("VAL4", test_struct_shape()),
            payload_variant("VAL5", child_enum_shape(UnionMode::Dense)),
            payload_variant("VAL6", child_enum_shape(UnionMode::Sparse)),
        ],
    );
    let rows = vec![
        tag(0),
        tagv(1, Value::Prim(PrimValue::I32(2))),
        tagv(2, Value::Prim(PrimValue::F64Bits((1.2f64).to_bits()))),
        tagv(3, test_struct_value(10)),
        tagv(4, Value::Tagged(3, Some(Box::new(test_struct_value(42))))),
        tagv(5, Value::Tagged(3, Some(Box::new(test_struct_value(42))))),
    ];
    let f = derive("root", &s);
    let col = encode(f, &rows).unwrap();
    let f2 = derive("root", &s);
    let out = decode(&f2.dtype, &col).unwrap();
    assert_eq!(out, rows);
}

#[test]
fn test_enum_test_slice() {
    let s = Shape::Union(
        UnionMode::Dense,
        vec![
            unit_variant("VAL1"),
            payload_variant("VAL2", Shape::Primitive(PrimKind::Int32)),
            payload_variant("VAL3", Shape::Primitive(PrimKind::Float64)),
            payload_variant("VAL4", test_struct_shape()),
            payload_variant("VAL5", child_enum_shape(UnionMode::Sparse)),
        ],
    );
    let mk_rows = || {
        vec![
            tagv(3, test_struct_value(11)),
            tag(0),
            tagv(1, Value::Prim(PrimValue::I32(2))),
            tagv(2, Value::Prim(PrimValue::F64Bits((1.2f64).to_bits()))),
            tagv(3, test_struct_value(10)),
        ]
    };
    let rows = mk_rows();
    let f = derive("root", &s);
    let col = encode(f, &rows).unwrap();
    for i in 0..rows.len() {
        let part = col_slice(&col, i, rows.len() - i);
        let f2 = derive("root", &s);
        let out = decode(&f2.dtype, &part).unwrap();
        let expected: Vec<Option<Value>> = mk_rows().into_iter().skip(i).collect();
        assert_eq!(out, expected);
    }
}
