use columnar::field::ArrowField;
use columnar::field::LargeString;
use columnar::schema::DataType;
use columnar::schema::Field;
use columnar::schema::FieldShape;
use columnar::schema::Shape;
use columnar::schema::derive_field;
use columnar::value::PrimKind;

fn fld(name: &str, s: Shape) -> FieldShape {
    FieldShape { name: name.as_bytes().to_vec(), shape: s }
}

fn field(name: &str, dtype: DataType, nullable: bool) -> Field {
    Field { name: name.as_bytes().to_vec(), dtype, nullable }
}

fn item(dtype: DataType, nullable: bool) -> Box<Field> {
    Box::new(field("item", dtype, nullable))
}

#[test]
fn test_schema_types() {
    let child_child = Shape::Record(vec![
        fld("a1", Shape::Primitive(PrimKind::Int32)),
        fld("bool_array", Shape::List(Box::new(Shape::Primitive(PrimKind::Bool)))),
        fld("int64_array", Shape::List(Box::new(Shape::Primitive(PrimKind::Int64)))),
    ]);
    let child = Shape::Record(vec![
        fld("a1", Shape::Primitive(PrimKind::Int64)),
        fld("a2", Shape::Utf8),
        fld("child_array", Shape::List(Box::new(child_child))),
    ]);
    let root = Shape::Record(vec![
        fld("name", Shape::Optional(Box::new(Shape::Utf8))),
        fld("is_deleted", Shape::Primitive(PrimKind::Bool)),
        fld("a1", Shape::Optional(Box::new(Shape::Primitive(PrimKind::Float64)))),
        fld("a2", Shape::Primitive(PrimKind::Int64)),
        fld("a3", Shape::Optional(Box::new(Shape::Binary))),
        fld("a4", Shape::Primitive(PrimKind::Date32)),
        fld("a5", Shape::Primitive(PrimKind::TimestampNano)),
        fld("a6", Shape::Optional(Box::new(Shape::Primitive(PrimKind::TimestampNano)))),
        fld("a7", Shape::Primitive(PrimKind::Decimal { precision: 32, scale: 32 })),
        fld(
            "date_time_list",
            Shape::List(Box::new(Shape::Primitive(PrimKind::TimestampNano))),
        ),
        fld(
            "nullable_list",
            Shape::Optional(Box::new(Shape::List(Box::new(Shape::Optional(Box::new(
                Shape::Utf8,
            )))))),
        ),
        fld(
            "required_list",
            Shape::List(Box::new(Shape::Optional(Box::new(Shape::Utf8)))),
        ),
        fld("custom", Shape::Primitive(PrimKind::UInt64)),
        fld("nullable_custom", Shape::Optional(Box::new(Shape::Primitive(PrimKind::UInt64)))),
        fld("custom_list", Shape::List(Box::new(Shape::Primitive(PrimKind::UInt64)))),
        fld("child", child),
        fld("int32_array", Shape::List(Box::new(Shape::Primitive(PrimKind::Int32)))),
        fld("large_binary", Shape::LargeBinary),
        fld("fixed_size_binary", Shape::FixedSizeBinary(3)),
        fld("large_string", Shape::LargeUtf8),
        fld("large_vec", Shape::LargeList(Box::new(Shape::Primitive(PrimKind::Int64)))),
        fld(
            "fixed_size_vec",
            Shape::FixedSizeList(Box::new(Shape::Primitive(PrimKind::Int64)), 3),
        ),
    ]);

    let f = derive_field(&b"root".to_vec(), &root).unwrap();
    let expected_child_child = DataType::Record {
        fields: vec![
            field("a1", DataType::Primitive(PrimKind::Int32), false),
            field(
                "bool_array",
                DataType::List {
                    large: false,
                    item: item(DataType::Primitive(PrimKind::Bool), false),
                },
                false,
            ),
            field(
                "int64_array",
                DataType::List {
                    large: false,
                    item: item(DataType::Primitive(PrimKind::Int64), false),
                },
                false,
            ),
        ],
    };
    let expected = DataType::Record {
        fields: vec![
            field("name", DataType::Utf8 { large: false }, true),
            field("is_deleted", DataType::Primitive(PrimKind::Bool), false),
            field("a1", DataType::Primitive(PrimKind::Float64), true),
            field("a2", DataType::Primitive(PrimKind::Int64), false),
            field("a3", DataType::Binary { large: false }, true),
            field("a4", DataType::Primitive(PrimKind::Date32), false),
            field("a5", DataType::Primitive(PrimKind::TimestampNano), false),
            field("a6", DataType::Primitive(PrimKind::TimestampNano), true),
            field(
                "a7",
                DataType::Primitive(PrimKind::Decimal { precision: 32, scale: 32 }),
                false,
            ),
            field(
                "date_time_list",
                DataType::List {
                    large: false,
                    item: item(DataType::Primitive(PrimKind::TimestampNano), false),
                },
                false,
            ),
            field(
                "nullable_list",
                DataType::List {
                    large: false,
                    item: item(DataType::Utf8 { large: false }, true),
                },
                true,
            ),
            field(
                "required_list",
                DataType::List {
                    large: false,
                    item: item(DataType::Utf8 { large: false }, true),
                },
                false,
            ),
            field("custom", DataType::Primitive(PrimKind::UInt64), false),
            field("nullable_custom", DataType::Primitive(PrimKind::UInt64), true),
            field(
                "custom_list",
                DataType::List {
                    large: false,
                    item: item(DataType::Primitive(PrimKind::UInt64), false),
                },
                false,
            ),
            field(
                "child",
                DataType::Record {
                    fields: vec![
                        field("a1", DataType::Primitive(PrimKind::Int64), false),
                        field("a2", DataType::Utf8 { large: false }, false),
                        field(
                            "child_array",
                            DataType::List {
                                large: false,
                                item: item(expected_child_child, false),
                            },
                            false,
                        ),
                    ],
                },
                false,
            ),
            field(
                "int32_array",
                DataType::List {
                    large: false,
                    item: item(DataType::Primitive(PrimKind::Int32), false),
                },
                false,
            ),
            field("large_binary", DataType::Binary { large: true }, false),
            field("fixed_size_binary", DataType::FixedSizeBinary { size: 3 }, false),
            field("large_string", DataType::Utf8 { large: true }, false),
            field(
                "large_vec",
                DataType::List {
                    large: true,
                    item: item(DataType::Primitive(PrimKind::Int64), false),
                },
                false,
            ),
            field(
                "fixed_size_vec",
                DataType::FixedSizeList {
                    size: 3,
                    item: item(DataType::Primitive(PrimKind::Int64), false),
                },
                false,
            ),
        ],
    };
    assert_eq!(f.dtype, expected);
}

#[test]
fn test_large_string_schema() {
    let f = derive_field(&b"root".to_vec(), &<LargeString as ArrowField>::shape()).unwrap();
    assert_eq!(f.dtype, DataType::Utf8 { large: true });
    assert!(!<LargeString as ArrowField>::is_nullable());
    assert!(<Option<LargeString> as ArrowField>::is_nullable());

    let f = derive_field(&b"root".to_vec(), &<Vec<LargeString> as ArrowField>::shape()).unwrap();
    assert_eq!(
        f.dtype,
        DataType::List { large: false, item: item(DataType::Utf8 { large: true }, false) },
    );
}
