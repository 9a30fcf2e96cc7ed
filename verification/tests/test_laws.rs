use columnar::EncodeError;
use columnar::column::Column;
use columnar::column::length;
use columnar::deserialize::decode;
use columnar::schema::Field;
use columnar::schema::FieldShape;
use columnar::schema::Shape;
use columnar::schema::UnionMode;
use columnar::schema::VariantShape;
use columnar::schema::derive_field;
use columnar::serialize::encode;
use columnar::slicing::col_slice;
use columnar::value::PrimKind;
use columnar::value::PrimValue;
use columnar::value::Value;

fn derive(name: &str, s: &Shape) -> Field {
    derive_field(&name.as_bytes().to_vec(), s).unwrap()
}

fn roundtrip(s: &Shape, rows: &Vec<Option<Value>>) -> Vec<Option<Value>> {
    let f = derive("root", s);
    let col = encode(f, rows).unwrap();
    let f2 = derive("root", s);
    decode(&f2.dtype, &col).unwrap()
}

fn txt(s: &str) -> Value {
    Value::Text(s.as_bytes().to_vec())
}

fn i64v(x: i64) -> Value {
    Value::Prim(PrimValue::I64(x))
}

#[test]
fn law_round_trip_supported_values() {
    // plain scalar
    let rows = vec![Some(i64v(7))];
    assert_eq!(roundtrip(&Shape::Primitive(PrimKind::Int64), &rows), rows);

    // every nullable scalar kind with both present and missing values
    let scalars: Vec<(PrimKind, PrimValue)> = vec![
        (PrimKind::Bool, PrimValue::Bool(true)),
        (PrimKind::Int8, PrimValue::I8(-1)),
        (PrimKind::Int16, PrimValue::I16(-2)),
        (PrimKind::Int32, PrimValue::I32(-3)),
        (PrimKind::Int64, PrimValue::I64(-4)),
        (PrimKind::UInt8, PrimValue::U8(1)),
        (PrimKind::UInt16, PrimValue::U16(2)),
        (PrimKind::UInt32, PrimValue::U32(3)),
        (PrimKind::UInt64, PrimValue::U64(4)),
        (PrimKind::Float32, PrimValue::F32Bits((1.5f32).to_bits())),
        (PrimKind::Float64, PrimValue::F64Bits((2.5f64).to_bits())),
        (PrimKind::Decimal { precision: 10, scale: 2 }, PrimValue::Dec(123)),
        (PrimKind::Date32, PrimValue::I32(19000)),
        (PrimKind::TimestampNano, PrimValue::I64(1_000_000_007)),
        (PrimKind::Time32Second, PrimValue::I32(86399)),
    ];
    for (pk, pv) in scalars {
        let s = Shape::Optional(Box::new(Shape::Primitive(pk)));
        let rows = vec![Some(Value::Prim(pv)), None];
        assert_eq!(roundtrip(&s, &rows), rows);
    }

    // nested record with a null child
    let s = Shape::Record(vec![FieldShape {
        name: b"c".to_vec(),
        shape: Shape::Optional(Box::new(Shape::Record(vec![FieldShape {
            name: b"x".to_vec(),
            shape: Shape::Primitive(PrimKind::Int32),
        }]))),
    }]);
    let rows = vec![
        Some(Value::Record(vec![Some(Value::Record(vec![Some(Value::Prim(PrimValue::I32(1)))]))])),
        Some(Value::Record(vec![None])),
    ];
    assert_eq!(roundtrip(&s, &rows), rows);

    // list of optional strings
    let s = Shape::List(Box::new(Shape::Optional(Box::new(Shape::Utf8))));
    let rows = vec![Some(Value::List(vec![Some(txt("a")), None]))];
    assert_eq!(roundtrip(&s, &rows), rows);

    // fixed-size list with exact-length input
    let s = Shape::FixedSizeList(Box::new(Shape::Primitive(PrimKind::Int64)), 2);
    let rows = vec![Some(Value::List(vec![Some(i64v(5)), Some(i64v(6))]))];
    assert_eq!(roundtrip(&s, &rows), rows);

    // dense and sparse unions with a unit variant and a payload variant
    for mode in [UnionMode::Dense, UnionMode::Sparse] {
        let s = Shape::Union(
            mode,
            vec![
                VariantShape { name: b"U".to_vec(), payload: None },
                VariantShape {
                    name: b"P".to_vec(),
                    payload: Some(Box::new(Shape::Primitive(PrimKind::Int64))),
                },
            ],
        );
        let rows = vec![
            Some(Value::Tagged(0, None)),
            Some(Value::Tagged(1, Some(Box::new(i64v(9))))),
            Some(Value::Tagged(0, None)),
        ];
        assert_eq!(roundtrip(&s, &rows), rows);
    }

    // a nullable payload variant may carry a missing payload
    let s = Shape::Union(
        UnionMode::Dense,
        vec![VariantShape {
            name: b"P".to_vec(),
            payload: Some(Box::new(Shape::Optional(Box::new(Shape::Primitive(
                PrimKind::Int64,
            ))))),
        }],
    );
    let rows = vec![
        Some(Value::Tagged(0, Some(Box::new(i64v(1))))),
        Some(Value::Tagged(0, None)),
    ];
    assert_eq!(roundtrip(&s, &rows), rows);

    // empty input seals an empty column
    let rows: Vec<Option<Value>> = vec![];
    assert_eq!(roundtrip(&Shape::Utf8, &rows), rows);
}

#[test]
fn law_schema_mismatch_rejection() {
    let f = derive("root", &Shape::Primitive(PrimKind::Int64));
    let rows = vec![Some(i64v(1))];
    let col = encode(f, &rows).unwrap();
    let f2 = derive("root", &Shape::Utf8);
    let r = decode(&f2.dtype, &col);
    assert_eq!(r.unwrap_err(), columnar::SchemaError::SchemaMismatch);
}

#[test]
fn law_fixed_size_violation() {
    let s = Shape::FixedSizeList(Box::new(Shape::Primitive(PrimKind::Int64)), 3);
    // a column sealed beforehand stays intact
    let f = derive("root", &s);
    let good = vec![Some(Value::List(vec![Some(i64v(1)), Some(i64v(2)), Some(i64v(3))]))];
    let sealed = encode(f, &good).unwrap();

    let f2 = derive("root", &s);
    let bad = vec![Some(Value::List(vec![
        Some(i64v(1)),
        Some(i64v(2)),
        Some(i64v(3)),
        Some(i64v(4)),
    ]))];
    assert_eq!(encode(f2, &bad).unwrap_err(), EncodeError::FixedSizeMismatch);

    let f3 = derive("root", &s);
    assert_eq!(decode(&f3.dtype, &sealed).unwrap(), good);
}

#[test]
fn law_record_null_alignment() {
    let s = Shape::Optional(Box::new(Shape::Record(vec![FieldShape {
        name: b"a".to_vec(),
        shape: Shape::Primitive(PrimKind::Int64),
    }])));
    let rec = |a: i64| Some(Value::Record(vec![Some(i64v(a))]));
    let rows = vec![rec(1), None, rec(3)];
    let f = derive("root", &s);
    let col = encode(f, &rows).unwrap();
    // the child column holds a placeholder at the null position
    match &col {
        Column::Record { fields, .. } => {
            assert_eq!(length(&fields[0].col), 3);
        },
        _ => unreachable!(),
    }
    let f2 = derive("root", &s);
    let out = decode(&f2.dtype, &col).unwrap();
    assert_eq!(out, rows);
    assert!(out[0].is_some());
    assert!(out[1].is_none());
    assert!(out[2].is_some());
}

#[test]
fn law_slice_correctness() {
    // byte strings, lists and fixed-size lists, sliced at every boundary
    let shapes_rows: Vec<(Shape, Vec<Option<Value>>)> = vec![
        (
            Shape::Optional(Box::new(Shape::Utf8)),
            vec![Some(txt("a")), None, Some(txt("ccc")), Some(txt("dd"))],
        ),
        (
            Shape::List(Box::new(Shape::Primitive(PrimKind::Int64))),
            vec![
                Some(Value::List(vec![Some(i64v(1)), Some(i64v(2))])),
                Some(Value::List(vec![])),
                Some(Value::List(vec![Some(i64v(3))])),
            ],
        ),
        (
            Shape::FixedSizeList(Box::new(Shape::Primitive(PrimKind::Int64)), 2),
            vec![
                Some(Value::List(vec![Some(i64v(1)), Some(i64v(2))])),
                Some(Value::List(vec![Some(i64v(3)), Some(i64v(4))])),
            ],
        ),
    ];
    for (s, rows) in shapes_rows {
        let f = derive("root", &s);
        let col = encode(f, &rows).unwrap();
        for i in 0..=rows.len() {
            let part = col_slice(&col, i, rows.len() - i);
            let f2 = derive("root", &s);
            let out = decode(&f2.dtype, &part).unwrap();
            let f3 = derive("root", &s);
            let whole = decode(&f3.dtype, &col).unwrap();
            let expected: Vec<Option<Value>> = whole.into_iter().skip(i).collect();
            assert_eq!(out, expected);
        }
    }
}

#[test]
fn law_dense_sparse_equivalence() {
    let variants = || {
        vec![
            VariantShape { name: b"U".to_vec(), payload: None },
            VariantShape {
                name: b"I".to_vec(),
                payload: Some(Box::new(Shape::Primitive(PrimKind::Int64))),
            },
            VariantShape { name: b"S".to_vec(), payload: Some(Box::new(Shape::Utf8)) },
        ]
    };
    let mk_rows = || {
        vec![
            Some(Value::Tagged(1, Some(Box::new(i64v(10))))),
            Some(Value::Tagged(0, None)),
            Some(Value::Tagged(2, Some(Box::new(txt("x"))))),
            Some(Value::Tagged(1, Some(Box::new(i64v(20))))),
        ]
    };
    let sd = Shape::Union(UnionMode::Dense, variants());
    let ss = Shape::Union(UnionMode::Sparse, variants());
    let out_dense = roundtrip(&sd, &mk_rows());
    let out_sparse = roundtrip(&ss, &mk_rows());
    assert_eq!(out_dense, out_sparse);
    assert_eq!(out_dense, mk_rows());
}

#[test]
fn law_seal_idempotent() {
    let s = Shape::List(Box::new(Shape::Optional(Box::new(Shape::Utf8))));
    let mk_rows = || vec![Some(Value::List(vec![Some(txt("a")), None])), None];
    let s_nullable = Shape::Optional(Box::new(s));
    let f1 = derive("root", &s_nullable);
    let f2 = derive("root", &s_nullable);
    let c1 = encode(f1, &mk_rows()).unwrap();
    let c2 = encode(f2, &mk_rows()).unwrap();
    let f3 = derive("root", &s_nullable);
    let f4 = derive("root", &s_nullable);
    let o1 = decode(&f3.dtype, &c1).unwrap();
    let o2 = decode(&f4.dtype, &c2).unwrap();
    assert_eq!(o1, o2);
    assert_eq!(o1, mk_rows());
}
