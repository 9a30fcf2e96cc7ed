//! Shapes, data-type descriptors, and schema derivation.
//!
//! A [`Shape`] is the machine-readable description of a native type: the
//! ordered field list of a record, the variant list and mode of a union,
//! optional wrapping, and the leaf kinds. [`derive_field`] maps a shape to
//! the [`Field`] descriptor (kind, nullability, children) that both the
//! builder and the reader obey. Derivation is pure and total over the
//! supported shapes; the unsupported ones are rejected with a
//! [`ShapeError`], exactly as [`shape_err`] states.

use vstd::prelude::*;

use crate::ShapeError;
use crate::value::PrimKind;
use crate::value::bytes_clone;

verus! {

/// Layout mode of a tagged union column.
#[derive(Clone, Copy, PartialEq, Eq, Structural, Debug)]
pub enum UnionMode {
    /// Each variant column holds only that variant's occurrences; a
    /// per-position offset buffer links positions to entries.
    Dense,
    /// Every variant column has the union's full logical length, padded with
    /// nulls at non-selected positions; no offset buffer.
    Sparse,
}

/// The shape of a native type, as handed over by introspection: leaf kinds,
/// optional wrapping, byte strings, homogeneous lists, records and unions.
#[derive(PartialEq, Debug)]
pub enum Shape {
    Primitive(PrimKind),
    Utf8,
    LargeUtf8,
    Binary,
    LargeBinary,
    FixedSizeBinary(usize),
    Optional(Box<Shape>),
    List(Box<Shape>),
    LargeList(Box<Shape>),
    FixedSizeList(Box<Shape>, usize),
    Record(Vec<FieldShape>),
    Union(UnionMode, Vec<VariantShape>),
}

/// One named field of a record shape.
#[derive(PartialEq, Debug)]
pub struct FieldShape {
    pub name: Vec<u8>,
    pub shape: Shape,
}

/// One named variant of a union shape; `payload` is `None` for a unit
/// variant, which derives as an always-true boolean column.
#[derive(PartialEq, Debug)]
pub struct VariantShape {
    pub name: Vec<u8>,
    pub payload: Option<Box<Shape>>,
}

/// A data-type descriptor: the kind of one column together with its child
/// descriptors.
#[derive(PartialEq, Debug)]
pub enum DataType {
    Primitive(PrimKind),
    Utf8 { large: bool },
    Binary { large: bool },
    FixedSizeBinary { size: usize },
    List { large: bool, item: Box<Field> },
    FixedSizeList { size: usize, item: Box<Field> },
    Record { fields: Vec<Field> },
    Union { mode: UnionMode, variants: Vec<Variant> },
}

/// A named, possibly nullable slot of a given data type.
#[derive(PartialEq, Debug)]
pub struct Field {
    pub name: Vec<u8>,
    pub dtype: DataType,
    pub nullable: bool,
}

/// A named union variant. A unit variant has `unit` set, a `Bool` data type
/// and is never nullable.
#[derive(PartialEq, Debug)]
pub struct Variant {
    pub name: Vec<u8>,
    pub dtype: DataType,
    pub nullable: bool,
    pub unit: bool,
}

/// The name every list item field carries (the bytes of `item`).
pub open spec fn item_name_spec() -> Seq<u8> {
    seq![105u8, 116u8, 101u8, 109u8]
}

/// Exec counterpart of [`item_name_spec`].
pub fn item_name() -> (r: Vec<u8>)
    ensures
        r@ == item_name_spec(),
{
    let mut r: Vec<u8> = Vec::new();
    r.push(105);
    r.push(116);
    r.push(101);
    r.push(109);
    proof {
        assert(r@ =~= item_name_spec());
    }
    r
}

/// Whether a shape derives as nullable: exactly the optional shapes.
pub open spec fn shape_nullable(s: Shape) -> bool {
    s is Optional
}

/// First error if one is kept, else the other.
pub open spec fn err_or(a: Option<ShapeError>, b: Option<ShapeError>) -> Option<ShapeError> {
    if a is Some {
        a
    } else {
        b
    }
}

/// The error that derivation reports for shape `s`, `None` when `s` is
/// supported. Double optionals are ambiguous (one validity bit per
/// position); optional unions, empty records, empty unions and zero fixed
/// sizes are unsupported. Sub-shapes are visited in declaration order and
/// the first error wins.
pub open spec fn shape_err(s: Shape) -> Option<ShapeError>
    decreases s, 0int,
{
    match s {
        Shape::Primitive(_) => Option::None,
        Shape::Utf8 => Option::None,
        Shape::LargeUtf8 => Option::None,
        Shape::Binary => Option::None,
        Shape::LargeBinary => Option::None,
        Shape::FixedSizeBinary(size) => if size == 0 {
            Option::Some(ShapeError::UnsupportedShape)
        } else {
            Option::None
        },
        Shape::Optional(inner) => if *inner is Optional {
            Option::Some(ShapeError::AmbiguousNesting)
        } else if *inner is Union {
            Option::Some(ShapeError::UnsupportedShape)
        } else {
            shape_err(*inner)
        },
        Shape::List(item) => shape_err(*item),
        Shape::LargeList(item) => shape_err(*item),
        Shape::FixedSizeList(item, size) => if size == 0 {
            Option::Some(ShapeError::UnsupportedShape)
        } else {
            shape_err(*item)
        },
        Shape::Record(fs) => if fs@.len() == 0 {
            Option::Some(ShapeError::UnsupportedShape)
        } else {
            shape_err_fields(fs@)
        },
        Shape::Union(_, vs) => if vs@.len() == 0 {
            Option::Some(ShapeError::UnsupportedShape)
        } else {
            shape_err_variants(vs@)
        },
    }
}

/// First derivation error among record fields, in order.
pub open spec fn shape_err_fields(fs: Seq<FieldShape>) -> Option<ShapeError>
    decreases fs, 1int,
{
    if fs.len() == 0 {
        Option::None
    } else {
        err_or(shape_err_fields(fs.drop_last()), shape_err(fs.last().shape))
    }
}

/// First derivation error among union variants, in order; unit variants
/// cannot fail.
pub open spec fn shape_err_variants(vs: Seq<VariantShape>) -> Option<ShapeError>
    decreases vs, 1int,
{
    if vs.len() == 0 {
        Option::None
    } else {
        err_or(
            shape_err_variants(vs.drop_last()),
            match vs.last().payload {
                Option::None => Option::None,
                Option::Some(p) => shape_err(*p),
            },
        )
    }
}

/// Whether `dt` is the data type that shape `s` derives to. Optional
/// wrapping is transparent here: it only sets the surrounding slot's
/// nullability.
pub open spec fn shape_matches_dt(s: Shape, dt: DataType) -> bool
    decreases s, 0int,
{
    match s {
        Shape::Primitive(pk) => dt == DataType::Primitive(pk),
        Shape::Utf8 => dt == (DataType::Utf8 { large: false }),
        Shape::LargeUtf8 => dt == (DataType::Utf8 { large: true }),
        Shape::Binary => dt == (DataType::Binary { large: false }),
        Shape::LargeBinary => dt == (DataType::Binary { large: true }),
        Shape::FixedSizeBinary(size) => dt == (DataType::FixedSizeBinary { size }),
        Shape::Optional(inner) => shape_matches_dt(*inner, dt),
        Shape::List(item) => {
            &&& dt matches DataType::List { large, item: df }
            &&& !(dt->List_large)
            &&& item_field_matches(*item, *dt->List_item)
        },
        Shape::LargeList(item) => {
            &&& dt matches DataType::List { large, item: df }
            &&& dt->List_large
            &&& item_field_matches(*item, *dt->List_item)
        },
        Shape::FixedSizeList(item, size) => {
            &&& dt matches DataType::FixedSizeList { size: ds, item: df }
            &&& dt->FixedSizeList_size == size
            &&& item_field_matches(*item, *dt->FixedSizeList_item)
        },
        Shape::Record(fs) => {
            &&& dt matches DataType::Record { fields }
            &&& fields_match(fs@, dt->Record_fields@)
        },
        Shape::Union(mode, vs) => {
            &&& dt matches DataType::Union { mode: dm, variants }
            &&& dt->Union_mode == mode
            &&& variants_match(vs@, dt->Union_variants@)
        },
    }
}

/// Whether `f` is the derived item field of a list over item shape `s`.
pub open spec fn item_field_matches(s: Shape, f: Field) -> bool
    decreases s, 1int,
{
    &&& f.name@ == item_name_spec()
    &&& f.nullable == shape_nullable(s)
    &&& shape_matches_dt(s, f.dtype)
}

/// Whether `dfs` are the derived fields of record field shapes `fs`.
pub open spec fn fields_match(fs: Seq<FieldShape>, dfs: Seq<Field>) -> bool
    decreases fs, 1int,
{
    &&& fs.len() == dfs.len()
    &&& if fs.len() == 0 {
        true
    } else {
        &&& fields_match(fs.drop_last(), dfs.drop_last())
        &&& dfs.last().name@ == fs.last().name@
        &&& dfs.last().nullable == shape_nullable(fs.last().shape)
        &&& shape_matches_dt(fs.last().shape, dfs.last().dtype)
    }
}

/// Whether `dvs` are the derived variants of union variant shapes `vs`.
pub open spec fn variants_match(vs: Seq<VariantShape>, dvs: Seq<Variant>) -> bool
    decreases vs, 1int,
{
    &&& vs.len() == dvs.len()
    &&& if vs.len() == 0 {
        true
    } else {
        &&& variants_match(vs.drop_last(), dvs.drop_last())
        &&& dvs.last().name@ == vs.last().name@
        &&& match vs.last().payload {
            Option::None => {
                &&& dvs.last().unit
                &&& dvs.last().dtype == DataType::Primitive(PrimKind::Bool)
                &&& !dvs.last().nullable
            },
            Option::Some(p) => {
                &&& !dvs.last().unit
                &&& dvs.last().nullable == shape_nullable(*p)
                &&& shape_matches_dt(*p, dvs.last().dtype)
            },
        }
    }
}

/// Structural sanity of a data type, guaranteed for every derived one:
/// fixed sizes are at least one, records and unions have at least one
/// child, and a unit variant is a non-nullable boolean.
pub open spec fn wf_dt(dt: DataType) -> bool
    decreases dt, 0int,
{
    match dt {
        DataType::Primitive(_) => true,
        DataType::Utf8 { .. } => true,
        DataType::Binary { .. } => true,
        DataType::FixedSizeBinary { size } => size >= 1,
        DataType::List { item, .. } => wf_dt(item.dtype),
        DataType::FixedSizeList { size, item } => size >= 1 && wf_dt(item.dtype),
        DataType::Record { fields } => fields@.len() >= 1 && wf_dt_fields(fields@),
        DataType::Union { variants, .. } => variants@.len() >= 1 && wf_dt_variants(variants@),
    }
}

/// [`wf_dt`] over a field list.
pub open spec fn wf_dt_fields(fs: Seq<Field>) -> bool
    decreases fs, 1int,
{
    if fs.len() == 0 {
        true
    } else {
        wf_dt_fields(fs.drop_last()) && wf_dt(fs.last().dtype)
    }
}

/// [`wf_dt`] over a variant list, with the unit-variant constraint.
pub open spec fn wf_dt_variants(vs: Seq<Variant>) -> bool
    decreases vs, 1int,
{
    if vs.len() == 0 {
        true
    } else {
        &&& wf_dt_variants(vs.drop_last())
        &&& wf_dt(vs.last().dtype)
        &&& (vs.last().unit ==> vs.last().dtype == DataType::Primitive(PrimKind::Bool)
            && !vs.last().nullable)
    }
}

/// Pointwise reading of [`wf_dt_fields`].
pub proof fn lemma_wf_dt_fields(fs: Seq<Field>)
    requires
        wf_dt_fields(fs),
    ensures
        forall|j: int| 0 <= j < fs.len() ==> wf_dt((#[trigger] fs[j]).dtype),
    decreases fs.len(),
{
    if fs.len() > 0 {
        lemma_wf_dt_fields(fs.drop_last());
        assert forall|j: int| 0 <= j < fs.len() implies wf_dt((#[trigger] fs[j]).dtype) by {
            if j < fs.len() - 1 {
                assert(fs.drop_last()[j] == fs[j]);
            }
        }
    }
}

/// Pointwise reading of [`wf_dt_variants`].
pub proof fn lemma_wf_dt_variants(vs: Seq<Variant>)
    requires
        wf_dt_variants(vs),
    ensures
        forall|j: int|
            0 <= j < vs.len() ==> {
                &&& wf_dt((#[trigger] vs[j]).dtype)
                &&& (vs[j].unit ==> vs[j].dtype == DataType::Primitive(PrimKind::Bool)
                    && !vs[j].nullable)
            },
    decreases vs.len(),
{
    if vs.len() > 0 {
        lemma_wf_dt_variants(vs.drop_last());
        assert forall|j: int| 0 <= j < vs.len() implies {
            &&& wf_dt((#[trigger] vs[j]).dtype)
            &&& (vs[j].unit ==> vs[j].dtype == DataType::Primitive(PrimKind::Bool)
                && !vs[j].nullable)
        } by {
            if j < vs.len() - 1 {
                assert(vs.drop_last()[j] == vs[j]);
            }
        }
    }
}

/// Derives the data type of shape `s`, or reports exactly [`shape_err`].
pub fn derive_dt(s: &Shape) -> (r: Result<DataType, ShapeError>)
    ensures
        match r {
            Result::Ok(dt) => shape_err(*s) is None && shape_matches_dt(*s, dt) && wf_dt(dt),
            Result::Err(e) => shape_err(*s) == Option::Some(e),
        },
    decreases *s, 0int,
{
    match s {
        Shape::Primitive(pk) => Result::Ok(DataType::Primitive(*pk)),
        Shape::Utf8 => Result::Ok(DataType::Utf8 { large: false }),
        Shape::LargeUtf8 => Result::Ok(DataType::Utf8 { large: true }),
        Shape::Binary => Result::Ok(DataType::Binary { large: false }),
        Shape::LargeBinary => Result::Ok(DataType::Binary { large: true }),
        Shape::FixedSizeBinary(size) => {
            if *size == 0 {
                Result::Err(ShapeError::UnsupportedShape)
            } else {
                Result::Ok(DataType::FixedSizeBinary { size: *size })
            }
        },
        Shape::Optional(inner) => {
            if matches!(&**inner, Shape::Optional(_)) {
                Result::Err(ShapeError::AmbiguousNesting)
            } else if matches!(&**inner, Shape::Union(_, _)) {
                Result::Err(ShapeError::UnsupportedShape)
            } else {
                derive_dt(inner)
            }
        },
        Shape::List(item) => {
            match derive_item_field(item) {
                Result::Ok(f) => Result::Ok(DataType::List { large: false, item: Box::new(f) }),
                Result::Err(e) => Result::Err(e),
            }
        },
        Shape::LargeList(item) => {
            match derive_item_field(item) {
                Result::Ok(f) => Result::Ok(DataType::List { large: true, item: Box::new(f) }),
                Result::Err(e) => Result::Err(e),
            }
        },
        Shape::FixedSizeList(item, size) => {
            if *size == 0 {
                Result::Err(ShapeError::UnsupportedShape)
            } else {
                match derive_item_field(item) {
                    Result::Ok(f) => Result::Ok(
                        DataType::FixedSizeList { size: *size, item: Box::new(f) },
                    ),
                    Result::Err(e) => Result::Err(e),
                }
            }
        },
        Shape::Record(fs) => {
            if fs.len() == 0 {
                Result::Err(ShapeError::UnsupportedShape)
            } else {
                match derive_fields(fs) {
                    Result::Ok(dfs) => Result::Ok(DataType::Record { fields: dfs }),
                    Result::Err(e) => Result::Err(e),
                }
            }
        },
        Shape::Union(mode, vs) => {
            if vs.len() == 0 {
                Result::Err(ShapeError::UnsupportedShape)
            } else {
                match derive_variants(vs) {
                    Result::Ok(dvs) => Result::Ok(
                        DataType::Union { mode: *mode, variants: dvs },
                    ),
                    Result::Err(e) => Result::Err(e),
                }
            }
        },
    }
}

/// Derives the named item field of a list item shape.
fn derive_item_field(s: &Shape) -> (r: Result<Field, ShapeError>)
    ensures
        match r {
            Result::Ok(f) => shape_err(*s) is None && item_field_matches(*s, f) && wf_dt(f.dtype),
            Result::Err(e) => shape_err(*s) == Option::Some(e),
        },
    decreases *s, 1int,
{
    match derive_dt(s) {
        Result::Ok(dt) => Result::Ok(
            Field { name: item_name(), dtype: dt, nullable: matches!(s, Shape::Optional(_)) },
        ),
        Result::Err(e) => Result::Err(e),
    }
}

/// An error in a prefix of the field shapes is the error of the whole list.
proof fn lemma_err_fields_extend(fs: Seq<FieldShape>, i: int)
    requires
        0 <= i <= fs.len(),
        shape_err_fields(fs.take(i)) is Some,
    ensures
        shape_err_fields(fs) == shape_err_fields(fs.take(i)),
    decreases fs.len() - i,
{
    if i < fs.len() {
        assert(fs.take(i + 1).drop_last() =~= fs.take(i));
        assert(shape_err_fields(fs.take(i + 1)) == shape_err_fields(fs.take(i)));
        lemma_err_fields_extend(fs, i + 1);
    } else {
        assert(fs.take(i) =~= fs);
    }
}

/// An error in a prefix of the variant shapes is the error of the whole list.
proof fn lemma_err_variants_extend(vs: Seq<VariantShape>, i: int)
    requires
        0 <= i <= vs.len(),
        shape_err_variants(vs.take(i)) is Some,
    ensures
        shape_err_variants(vs) == shape_err_variants(vs.take(i)),
    decreases vs.len() - i,
{
    if i < vs.len() {
        assert(vs.take(i + 1).drop_last() =~= vs.take(i));
        assert(shape_err_variants(vs.take(i + 1)) == shape_err_variants(vs.take(i)));
        lemma_err_variants_extend(vs, i + 1);
    } else {
        assert(vs.take(i) =~= vs);
    }
}

/// Derives all record fields, in order, stopping at the first error.
fn derive_fields(fs: &Vec<FieldShape>) -> (r: Result<Vec<Field>, ShapeError>)
    ensures
        match r {
            Result::Ok(dfs) => shape_err_fields(fs@) is None && fields_match(fs@, dfs@)
                && wf_dt_fields(dfs@),
            Result::Err(e) => shape_err_fields(fs@) == Option::Some(e),
        },
    decreases *fs, 2int,
{
    let mut out: Vec<Field> = Vec::new();
    let mut i: usize = 0;
    while i < fs.len()
        invariant
            i <= fs.len(),
            out@.len() == i,
            shape_err_fields(fs@.take(i as int)) is None,
            fields_match(fs@.take(i as int), out@),
            wf_dt_fields(out@),
        decreases fs.len() - i,
    {
        proof {
            assert(decreases_to!(*fs, 2int => fs@, 2int));
            assert(decreases_to!(fs@, 2int => fs@[i as int], 1int));
            assert(decreases_to!(fs@[i as int], 1int => fs@[i as int].shape, 0int));
        }
        let fsh = &fs[i];
        let dr = derive_dt(&fsh.shape);
        proof {
            assert(fs@.take(i as int + 1).drop_last() =~= fs@.take(i as int));
            assert(fs@.take(i as int + 1).last() == fs@[i as int]);
        }
        match dr {
            Result::Ok(dt) => {
                let nm = bytes_clone(&fsh.name);
                let nullable = matches!(&fsh.shape, Shape::Optional(_));
                let ghost out0 = out@;
                out.push(Field { name: nm, dtype: dt, nullable });
                proof {
                    assert(out@.drop_last() =~= out0);
                    assert(fields_match(fs@.take(i as int + 1), out@));
                }
                i = i + 1;
            },
            Result::Err(e) => {
                proof {
                    lemma_err_fields_extend(fs@, i as int + 1);
                }
                return Result::Err(e);
            },
        }
    }
    proof {
        assert(fs@.take(fs@.len() as int) =~= fs@);
    }
    Result::Ok(out)
}

/// Derives all union variants, in order, stopping at the first error. A unit
/// variant derives as a non-nullable `Bool` column that is `true` whenever
/// the variant is the active tag.
fn derive_variants(vs: &Vec<VariantShape>) -> (r: Result<Vec<Variant>, ShapeError>)
    ensures
        match r {
            Result::Ok(dvs) => shape_err_variants(vs@) is None && variants_match(vs@, dvs@)
                && wf_dt_variants(dvs@),
            Result::Err(e) => shape_err_variants(vs@) == Option::Some(e),
        },
    decreases *vs, 2int,
{
    let mut out: Vec<Variant> = Vec::new();
    let mut i: usize = 0;
    while i < vs.len()
        invariant
            i <= vs.len(),
            out@.len() == i,
            shape_err_variants(vs@.take(i as int)) is None,
            variants_match(vs@.take(i as int), out@),
            wf_dt_variants(out@),
        decreases vs.len() - i,
    {
        proof {
            assert(decreases_to!(*vs, 2int => vs@, 2int));
            assert(decreases_to!(vs@, 2int => vs@[i as int], 1int));
            assert(vs@.take(i as int + 1).drop_last() =~= vs@.take(i as int));
            assert(vs@.take(i as int + 1).last() == vs@[i as int]);
        }
        let vsh = &vs[i];
        match &vsh.payload {
            Option::None => {
                let nm = bytes_clone(&vsh.name);
                let ghost out0 = out@;
                out.push(
                    Variant {
                        name: nm,
                        dtype: DataType::Primitive(PrimKind::Bool),
                        nullable: false,
                        unit: true,
                    },
                );
                proof {
                    assert(out@.drop_last() =~= out0);
                    assert(variants_match(vs@.take(i as int + 1), out@));
                    assert(out@.last().unit);
                    assert(out@.last().dtype == DataType::Primitive(PrimKind::Bool));
                    assert(!out@.last().nullable);
                    assert(wf_dt(out@.last().dtype));
                    assert(wf_dt_variants(out@.drop_last()));
                    assert(wf_dt_variants(out@));
                }
                i = i + 1;
            },
            Option::Some(p) => {
                proof {
                    assert(decreases_to!(vs@[i as int], 1int => vs@[i as int].payload, 1int));
                }
                let dr = derive_dt(p);
                match dr {
                    Result::Ok(dt) => {
                        let nm = bytes_clone(&vsh.name);
                        let nullable = matches!(&**p, Shape::Optional(_));
                        let ghost out0 = out@;
                        out.push(Variant { name: nm, dtype: dt, nullable, unit: false });
                        proof {
                            assert(out@.drop_last() =~= out0);
                            assert(variants_match(vs@.take(i as int + 1), out@));
                            assert(wf_dt_variants(out@));
                        }
                        i = i + 1;
                    },
                    Result::Err(e) => {
                        proof {
                            lemma_err_variants_extend(vs@, i as int + 1);
                        }
                        return Result::Err(e);
                    },
                }
            },
        }
    }
    proof {
        assert(vs@.take(vs@.len() as int) =~= vs@);
    }
    Result::Ok(out)
}

/// Derives the full descriptor of a named slot of shape `s`: its data type,
/// and its nullability, which is set exactly when `s` is optional.
pub fn derive_field(name: &Vec<u8>, s: &Shape) -> (r: Result<Field, ShapeError>)
    ensures
        match r {
            Result::Ok(f) => {
                &&& shape_err(*s) is None
                &&& f.name@ == name@
                &&& f.nullable == shape_nullable(*s)
                &&& shape_matches_dt(*s, f.dtype)
                &&& wf_dt(f.dtype)
            },
            Result::Err(e) => shape_err(*s) == Option::Some(e),
        },
{
    match derive_dt(s) {
        Result::Ok(dt) => Result::Ok(
            Field {
                name: bytes_clone(name),
                dtype: dt,
                nullable: matches!(s, Shape::Optional(_)),
            },
        ),
        Result::Err(e) => Result::Err(e),
    }
}

} // verus!
