//! The append side: builders that accumulate a column.
//!
//! A [`Builder`] is created for one [`Field`], takes one `append` call per
//! source element (a present value or a null), and is finished by a single
//! consuming [`Builder::seal`] that yields the immutable [`Column`].
//! A failed append reports exactly [`row_error`] and leaves the builder
//! unchanged; no partially appended element is ever committed.

use vstd::prelude::*;

use crate::EncodeError;
use crate::column::Column;
use crate::column::NamedCol;
use crate::column::VariantCol;
use crate::column::col_at;
use crate::column::col_len;
use crate::column::col_matches;
use crate::column::col_seq;
use crate::column::named_cols_match;
use crate::column::variant_cols_match;
use crate::column::lemma_named_cols_match;
use crate::column::lemma_variant_cols_match;
use crate::column::lemma_wf_named_cols;
use crate::column::lemma_wf_variant_cols;
use crate::column::lemma_col_seq;
use crate::column::lemma_offsets_bound;
use crate::column::lemma_offsets_mono;
use crate::column::lemma_variant_lens;
use crate::column::count_tag;
use crate::column::dense_canonical;
use crate::column::lemma_count_tag_push;
use crate::column::offsets_ok;
use crate::column::record_row;
use crate::column::variant_lens;
use crate::column::vbit;
use crate::column::vlen_ok;
use crate::column::wf_col;
use crate::column::wf_named_cols;
use crate::column::wf_variant_cols;
use crate::schema::DataType;
use crate::schema::Field;
use crate::schema::UnionMode;
use crate::schema::wf_dt;
use crate::value::Datum;
use crate::value::PrimKind;
use crate::value::PrimValue;
use crate::value::Value;
use crate::value::bytes_clone;
use crate::value::orv;
use crate::value::ovw;
use crate::value::prim_fits;
use crate::value::prim_fits_x;
use crate::value::prim_zero;
use crate::value::svw;
use crate::value::lemma_svw;
use crate::value::vw;
use crate::value::vbytes;

verus! {

/// First encode error if one is kept, else the other.
pub open spec fn enc_or(a: Option<EncodeError>, b: Option<EncodeError>) -> Option<EncodeError> {
    if a is Some {
        a
    } else {
        b
    }
}

/// The error that appending `d` to a slot of data type `dt` and nullability
/// `nullable` reports, `None` exactly when the append is accepted.
///
/// A missing value needs a nullable slot, and a union slot never accepts
/// one (a union column has no validity bitmap); the same rule makes a
/// missing payload of a nullable union variant acceptable only when the
/// variant's own type is not again a union. A fixed-size mismatch is
/// checked before the items, and sub-values are visited in order with the
/// first error winning.
pub open spec fn row_error(dt: DataType, nullable: bool, d: Option<Datum>) -> Option<EncodeError>
    decreases dt, 0int, 0int,
{
    match d {
        Option::None => if dt is Union {
            Option::Some(EncodeError::NullNotAllowed)
        } else if !nullable {
            Option::Some(EncodeError::NullNotAllowed)
        } else {
            Option::None
        },
        Option::Some(v) => match dt {
            DataType::Primitive(pk) => if v matches Datum::Prim(pv) && prim_fits(pk, pv) {
                Option::None
            } else {
                Option::Some(EncodeError::TypeMismatch)
            },
            DataType::Utf8 { .. } => if v is Text {
                Option::None
            } else {
                Option::Some(EncodeError::TypeMismatch)
            },
            DataType::Binary { .. } => if v is Blob {
                Option::None
            } else {
                Option::Some(EncodeError::TypeMismatch)
            },
            DataType::FixedSizeBinary { size } => if !(v is Blob) {
                Option::Some(EncodeError::TypeMismatch)
            } else if v->Blob_0.len() != size {
                Option::Some(EncodeError::FixedSizeMismatch)
            } else {
                Option::None
            },
            DataType::List { item, .. } => if !(v is List) {
                Option::Some(EncodeError::TypeMismatch)
            } else {
                items_error(*item, v->List_0)
            },
            DataType::FixedSizeList { size, item } => if !(v is List) {
                Option::Some(EncodeError::TypeMismatch)
            } else if v->List_0.len() != size {
                Option::Some(EncodeError::FixedSizeMismatch)
            } else {
                items_error(*item, v->List_0)
            },
            DataType::Record { fields } => if !(v is Record) {
                Option::Some(EncodeError::TypeMismatch)
            } else if v->Record_0.len() != fields@.len() {
                Option::Some(EncodeError::TypeMismatch)
            } else {
                fields_error(fields@, v->Record_0)
            },
            DataType::Union { variants, .. } => if !(v is Tagged) {
                Option::Some(EncodeError::TypeMismatch)
            } else if v->Tagged_0 >= variants@.len() {
                Option::Some(EncodeError::InvalidTag)
            } else {
                let vr = variants@[v->Tagged_0 as int];
                if vr.unit {
                    if v->Tagged_1 is Some {
                        Option::Some(EncodeError::TypeMismatch)
                    } else {
                        Option::None
                    }
                } else {
                    match v->Tagged_1 {
                        Option::None => if vr.nullable && !(vr.dtype is Union) {
                            Option::None
                        } else {
                            Option::Some(EncodeError::NullNotAllowed)
                        },
                        Option::Some(x) => row_error(vr.dtype, vr.nullable, Option::Some(*x)),
                    }
                }
            },
        },
    }
}

/// First append error among list items, in order.
pub open spec fn items_error(f: Field, items: Seq<Option<Datum>>) -> Option<EncodeError>
    decreases f, 1int, items.len(),
{
    if items.len() == 0 {
        Option::None
    } else {
        enc_or(
            items_error(f, items.drop_last()),
            row_error(f.dtype, f.nullable, items.last()),
        )
    }
}

/// First append error among record field values, in declared field order.
/// Meaningful when `vals` and `fields` have equal length.
pub open spec fn fields_error(fields: Seq<Field>, vals: Seq<Option<Datum>>) -> Option<EncodeError>
    decreases fields, 1int, 0int,
{
    if fields.len() == 0 || fields.len() != vals.len() {
        Option::None
    } else {
        enc_or(
            fields_error(fields.drop_last(), vals.drop_last()),
            row_error(fields.last().dtype, fields.last().nullable, vals.last()),
        )
    }
}

/// Whether appending `d` is accepted.
pub open spec fn fits(dt: DataType, nullable: bool, d: Option<Datum>) -> bool {
    row_error(dt, nullable, d) is None
}

/// An error in a prefix of the items is the error of the whole list.
pub proof fn lemma_items_error_extend(f: Field, items: Seq<Option<Datum>>, i: int)
    requires
        0 <= i <= items.len(),
        items_error(f, items.take(i)) is Some,
    ensures
        items_error(f, items) == items_error(f, items.take(i)),
    decreases items.len() - i,
{
    if i < items.len() {
        assert(items.take(i + 1).drop_last() =~= items.take(i));
        lemma_items_error_extend(f, items, i + 1);
    } else {
        assert(items.take(i) =~= items);
    }
}

/// No error in the whole list means no error at any item.
pub proof fn lemma_items_error_none(f: Field, items: Seq<Option<Datum>>)
    requires
        items_error(f, items) is None,
    ensures
        forall|j: int|
            0 <= j < items.len() ==> row_error(f.dtype, f.nullable, #[trigger] items[j]) is None,
    decreases items.len(),
{
    if items.len() > 0 {
        lemma_items_error_none(f, items.drop_last());
        assert forall|j: int| 0 <= j < items.len() implies row_error(
            f.dtype,
            f.nullable,
            #[trigger] items[j],
        ) is None by {
            if j < items.len() - 1 {
                assert(items.drop_last()[j] == items[j]);
            }
        }
    }
}

/// An error in a prefix of the record fields is the error of the whole row.
pub proof fn lemma_fields_error_extend(fields: Seq<Field>, vals: Seq<Option<Datum>>, i: int)
    requires
        fields.len() == vals.len(),
        0 <= i <= fields.len(),
        fields_error(fields.take(i), vals.take(i)) is Some,
    ensures
        fields_error(fields, vals) == fields_error(fields.take(i), vals.take(i)),
    decreases fields.len() - i,
{
    if i < fields.len() {
        assert(fields.take(i + 1).drop_last() =~= fields.take(i));
        assert(vals.take(i + 1).drop_last() =~= vals.take(i));
        lemma_fields_error_extend(fields, vals, i + 1);
    } else {
        assert(fields.take(i) =~= fields);
        assert(vals.take(i) =~= vals);
    }
}

/// No error in the whole record row means no error at any field.
pub proof fn lemma_fields_error_none(fields: Seq<Field>, vals: Seq<Option<Datum>>)
    requires
        fields.len() == vals.len(),
        fields_error(fields, vals) is None,
    ensures
        forall|j: int|
            0 <= j < fields.len() ==> row_error(
                (#[trigger] fields[j]).dtype,
                fields[j].nullable,
                vals[j],
            ) is None,
    decreases fields.len(),
{
    if fields.len() > 0 {
        lemma_fields_error_none(fields.drop_last(), vals.drop_last());
        assert forall|j: int| 0 <= j < fields.len() implies row_error(
            (#[trigger] fields[j]).dtype,
            fields[j].nullable,
            vals[j],
        ) is None by {
            if j < fields.len() - 1 {
                assert(fields.drop_last()[j] == fields[j]);
                assert(vals.drop_last()[j] == vals[j]);
            }
        }
    }
}

/// Checks one row against a slot, reporting exactly [`row_error`].
pub fn check_row(dt: &DataType, nullable: bool, row: Option<&Value>) -> (r: Option<EncodeError>)
    ensures
        r == row_error(*dt, nullable, orv(row)),
    decreases *dt, 2int, 0int,
{
    match row {
        Option::None => {
            if matches!(dt, DataType::Union { .. }) {
                Option::Some(EncodeError::NullNotAllowed)
            } else if !nullable {
                Option::Some(EncodeError::NullNotAllowed)
            } else {
                Option::None
            }
        },
        Option::Some(v) => {
            match dt {
                DataType::Primitive(pk) => {
                    match v {
                        Value::Prim(pv) => {
                            if prim_fits_x(pk, pv) {
                                Option::None
                            } else {
                                Option::Some(EncodeError::TypeMismatch)
                            }
                        },
                        _ => Option::Some(EncodeError::TypeMismatch),
                    }
                },
                DataType::Utf8 { .. } => {
                    if matches!(v, Value::Text(_)) {
                        Option::None
                    } else {
                        Option::Some(EncodeError::TypeMismatch)
                    }
                },
                DataType::Binary { .. } => {
                    if matches!(v, Value::Blob(_)) {
                        Option::None
                    } else {
                        Option::Some(EncodeError::TypeMismatch)
                    }
                },
                DataType::FixedSizeBinary { size } => {
                    match v {
                        Value::Blob(b) => {
                            if b.len() != *size {
                                Option::Some(EncodeError::FixedSizeMismatch)
                            } else {
                                Option::None
                            }
                        },
                        _ => Option::Some(EncodeError::TypeMismatch),
                    }
                },
                DataType::List { item, .. } => {
                    match v {
                        Value::List(items) => check_items(item, items),
                        _ => Option::Some(EncodeError::TypeMismatch),
                    }
                },
                DataType::FixedSizeList { size, item } => {
                    match v {
                        Value::List(items) => {
                            proof {
                                lemma_svw(items@);
                            }
                            if items.len() != *size {
                                Option::Some(EncodeError::FixedSizeMismatch)
                            } else {
                                check_items(item, items)
                            }
                        },
                        _ => Option::Some(EncodeError::TypeMismatch),
                    }
                },
                DataType::Record { fields } => {
                    match v {
                        Value::Record(vals) => {
                            proof {
                                lemma_svw(vals@);
                            }
                            if vals.len() != fields.len() {
                                Option::Some(EncodeError::TypeMismatch)
                            } else {
                                check_fields(fields, vals)
                            }
                        },
                        _ => Option::Some(EncodeError::TypeMismatch),
                    }
                },
                DataType::Union { variants, .. } => {
                    match v {
                        Value::Tagged(t, p) => {
                            if *t >= variants.len() {
                                Option::Some(EncodeError::InvalidTag)
                            } else {
                                proof {
                                    assert(decreases_to!(*dt, 2int, 0int =>
                                        dt->Union_variants@[*t as int], 2int, 0int));
                                }
                                let vr = &variants[*t];
                                if vr.unit {
                                    if matches!(p, Option::Some(_)) {
                                        Option::Some(EncodeError::TypeMismatch)
                                    } else {
                                        Option::None
                                    }
                                } else {
                                    match p {
                                        Option::None => {
                                            if vr.nullable && !matches!(
                                                vr.dtype,
                                                DataType::Union { .. },
                                            ) {
                                                Option::None
                                            } else {
                                                Option::Some(EncodeError::NullNotAllowed)
                                            }
                                        },
                                        Option::Some(x) => {
                                            proof {
                                                assert(decreases_to!(
                                                    dt->Union_variants@[*t as int], 2int, 0int =>
                                                    dt->Union_variants@[*t as int].dtype, 2int, 0int));
                                            }
                                            check_row(&vr.dtype, vr.nullable, Option::Some(&**x))
                                        },
                                    }
                                }
                            }
                        },
                        _ => Option::Some(EncodeError::TypeMismatch),
                    }
                },
            }
        },
    }
}

/// Checks every list item against the item field, reporting exactly
/// [`items_error`].
fn check_items(f: &Field, items: &Vec<Option<Value>>) -> (r: Option<EncodeError>)
    ensures
        r == items_error(*f, svw(items@)),
    decreases *f, 3int, 0int,
{
    proof {
        lemma_svw(items@);
    }
    let mut j: usize = 0;
    while j < items.len()
        invariant
            j <= items.len(),
            items_error(*f, svw(items@).take(j as int)) is None,
        decreases items.len() - j,
    {
        proof {
            assert(decreases_to!(*f, 3int, 0int => f.dtype, 2int, 0int));
        }
        let row: Option<&Value> = match &items[j] {
            Option::None => Option::None,
            Option::Some(v) => Option::Some(v),
        };
        let e = check_row(&f.dtype, f.nullable, row);
        proof {
            assert(svw(items@).take(j as int + 1).drop_last() =~= svw(items@).take(j as int));
            assert(svw(items@).take(j as int + 1).last() == ovw(items@[j as int]));
            assert(orv(row) == ovw(items@[j as int]));
        }
        match e {
            Option::Some(err) => {
                proof {
                    lemma_items_error_extend(*f, svw(items@), j as int + 1);
                }
                return Option::Some(err);
            },
            Option::None => {
                j = j + 1;
            },
        }
    }
    proof {
        assert(svw(items@).take(svw(items@).len() as int) =~= svw(items@));
    }
    Option::None
}

/// Checks every record field value against its field, reporting exactly
/// [`fields_error`].
fn check_fields(fields: &Vec<Field>, vals: &Vec<Option<Value>>) -> (r: Option<EncodeError>)
    requires
        fields@.len() == vals@.len(),
    ensures
        r == fields_error(fields@, svw(vals@)),
    decreases *fields, 3int, 0int,
{
    proof {
        lemma_svw(vals@);
    }
    let mut j: usize = 0;
    while j < fields.len()
        invariant
            j <= fields.len(),
            fields_error(fields@.take(j as int), svw(vals@).take(j as int)) is None,
        decreases fields.len() - j,
    {
        proof {
            assert(decreases_to!(*fields, 3int, 0int => fields@, 3int, 0int));
            assert(decreases_to!(fields@, 3int, 0int => fields@[j as int], 2int, 0int));
            assert(decreases_to!(fields@[j as int], 2int, 0int =>
                fields@[j as int].dtype, 2int, 0int));
        }
        let row: Option<&Value> = match &vals[j] {
            Option::None => Option::None,
            Option::Some(v) => Option::Some(v),
        };
        let f = &fields[j];
        let e = check_row(&f.dtype, f.nullable, row);
        proof {
            assert(fields@.take(j as int + 1).drop_last() =~= fields@.take(j as int));
            assert(svw(vals@).take(j as int + 1).drop_last() =~= svw(vals@).take(j as int));
            assert(svw(vals@).take(j as int + 1).last() == ovw(vals@[j as int]));
            assert(orv(row) == ovw(vals@[j as int]));
        }
        match e {
            Option::Some(err) => {
                proof {
                    lemma_fields_error_extend(fields@, svw(vals@), j as int + 1);
                }
                return Option::Some(err);
            },
            Option::None => {
                j = j + 1;
            },
        }
    }
    proof {
        assert(fields@.take(fields@.len() as int) =~= fields@);
        assert(svw(vals@).take(svw(vals@).len() as int) =~= svw(vals@));
    }
    Option::None
}

/// The datum that a padding push leaves at the new position: `None`
/// everywhere except at a union, which has no validity bitmap and pads
/// through its first variant.
pub open spec fn padding_of(dt: DataType) -> Option<Datum>
    decreases dt, 0int, 0int,
{
    match dt {
        DataType::Union { variants, .. } => if variants@.len() == 0 {
            Option::None
        } else {
            let vr = variants@[0];
            if vr.unit {
                Option::Some(Datum::Tagged(0, Option::None))
            } else {
                match padding_of(vr.dtype) {
                    Option::None => if vr.nullable {
                        Option::Some(Datum::Tagged(0, Option::None))
                    } else {
                        Option::None
                    },
                    Option::Some(x) => Option::Some(Datum::Tagged(0, Option::Some(Box::new(x)))),
                }
            }
        },
        _ => Option::None,
    }
}

/// Appends one validity bit for position `n`. A set bit on a missing bitmap
/// stays implicit; the first unset bit lazily allocates the bitmap,
/// initialized to all-present for the prior positions.
fn push_valid(validity: &mut Option<Vec<bool>>, n: usize, bit: bool)
    requires
        vlen_ok(*old(validity), n as nat),
    ensures
        vlen_ok(*final(validity), n as nat + 1),
        forall|i: int| 0 <= i < n ==> vbit(*final(validity), i) == vbit(*old(validity), i),
        vbit(*final(validity), n as int) == bit,
{
    match validity {
        Option::Some(v) => {
            v.push(bit);
        },
        Option::None => {
            if !bit {
                let mut v: Vec<bool> = Vec::new();
                let mut k: usize = 0;
                while k < n
                    invariant
                        k <= n,
                        v@.len() == k,
                        forall|i: int| 0 <= i < k ==> v@[i] == true,
                    decreases n - k,
                {
                    v.push(true);
                    k = k + 1;
                }
                v.push(false);
                *validity = Option::Some(v);
            }
        },
    }
}

/// Allocates the empty column of data type `dt`: empty buffers, no validity
/// bitmap yet.
pub fn new_col(dt: &DataType) -> (c: Column)
    requires
        wf_dt(*dt),
    ensures
        wf_col(c),
        col_matches(*dt, c),
        col_len(c) == 0,
        dense_canonical(c),
    decreases *dt, 0int, 0int,
{
    match dt {
        DataType::Primitive(pk) => {
            let c0 = Column::Prims { pk: *pk, values: Vec::new(), validity: Option::None };
            proof {
                assert(wf_col(c0));
            }
            c0
        },
        DataType::Utf8 { large } => {
            let mut offsets: Vec<usize> = Vec::new();
            offsets.push(0);
            proof {
                assert(offsets@ =~= seq![0usize]);
            }
            let c0 = Column::Bytes {
                text: true,
                large: *large,
                data: Vec::new(),
                offsets,
                validity: Option::None,
            };
            proof {
                assert(c0->Bytes_data@.len() == 0);
                assert(c0->Bytes_offsets@.last() == 0);
                assert(offsets_ok(c0->Bytes_offsets@, c0->Bytes_data@.len()));
                assert(wf_col(c0));
            }
            c0
        },
        DataType::Binary { large } => {
            let mut offsets: Vec<usize> = Vec::new();
            offsets.push(0);
            proof {
                assert(offsets@ =~= seq![0usize]);
            }
            let c0 = Column::Bytes {
                text: false,
                large: *large,
                data: Vec::new(),
                offsets,
                validity: Option::None,
            };
            proof {
                assert(c0->Bytes_data@.len() == 0);
                assert(c0->Bytes_offsets@.last() == 0);
                assert(offsets_ok(c0->Bytes_offsets@, c0->Bytes_data@.len()));
                assert(wf_col(c0));
            }
            c0
        },
        DataType::FixedSizeBinary { size } => {
            let c0 = Column::FixedBytes { size: *size, data: Vec::new(), validity: Option::None };
            proof {
                assert(*size >= 1);
                assert(c0->FixedBytes_data@.len() == 0);
                assert(0nat % (*size as nat) == 0);
                assert(0nat / (*size as nat) == 0);
                assert(wf_col(c0));
            }
            c0
        },
        DataType::List { large, item } => {
            proof {
                assert(decreases_to!(*dt, 0int, 0int => dt->List_item, 0int, 0int));
                assert(decreases_to!(dt->List_item, 0int, 0int =>
                    (*dt->List_item).dtype, 0int, 0int));
            }
            let child = new_col(&item.dtype);
            let mut offsets: Vec<usize> = Vec::new();
            offsets.push(0);
            proof {
                assert(offsets@ =~= seq![0usize]);
            }
            let c0 = Column::List {
                large: *large,
                item: Box::new(
                    NamedCol { name: bytes_clone(&item.name), nullable: item.nullable, col: child },
                ),
                offsets,
                validity: Option::None,
            };
            proof {
                assert(wf_col(c0));
            }
            c0
        },
        DataType::FixedSizeList { size, item } => {
            proof {
                assert(decreases_to!(*dt, 0int, 0int => dt->FixedSizeList_item, 0int, 0int));
                assert(decreases_to!(dt->FixedSizeList_item, 0int, 0int =>
                    (*dt->FixedSizeList_item).dtype, 0int, 0int));
            }
            let child = new_col(&item.dtype);
            let c0 = Column::FixedList {
                size: *size,
                item: Box::new(
                    NamedCol { name: bytes_clone(&item.name), nullable: item.nullable, col: child },
                ),
                validity: Option::None,
            };
            proof {
                assert(wf_col(c0));
            }
            c0
        },
        DataType::Record { fields } => {
            let mut cols: Vec<NamedCol> = Vec::new();
            let mut j: usize = 0;
            proof {
                crate::schema::lemma_wf_dt_fields(fields@);
            }
            while j < fields.len()
                invariant
                    j <= fields.len(),
                    cols@.len() == j,
                    named_cols_match(fields@.take(j as int), cols@),
                    wf_named_cols(cols@, 0),
                decreases fields.len() - j,
            {
                proof {
                    assert(decreases_to!(*dt, 0int, 0int => dt->Record_fields, 0int, 0int));
                    assert(decreases_to!(dt->Record_fields, 0int, 0int =>
                        dt->Record_fields@, 0int, 0int));
                    assert(decreases_to!(dt->Record_fields@, 0int, 0int =>
                        dt->Record_fields@[j as int], 0int, 0int));
                    assert(decreases_to!(dt->Record_fields@[j as int], 0int, 0int =>
                        dt->Record_fields@[j as int].dtype, 0int, 0int));
                }
                let f = &fields[j];
                let child = new_col(&f.dtype);
                let ghost cols0 = cols@;
                cols.push(NamedCol { name: bytes_clone(&f.name), nullable: f.nullable, col: child });
                proof {
                    assert(cols@.drop_last() =~= cols0);
                    assert(fields@.take(j as int + 1).drop_last() =~= fields@.take(j as int));
                    assert(named_cols_match(fields@.take(j as int + 1), cols@));
                    assert(wf_named_cols(cols@, 0));
                }
                j = j + 1;
            }
            proof {
                assert(fields@.take(fields@.len() as int) =~= fields@);
                lemma_wf_named_cols(cols@, 0);
            }
            let c0 = Column::Record { fields: cols, validity: Option::None };
            proof {
                assert(wf_col(c0));
            }
            c0
        },
        DataType::Union { mode, variants } => {
            let mut cols: Vec<VariantCol> = Vec::new();
            let mut j: usize = 0;
            proof {
                crate::schema::lemma_wf_dt_variants(variants@);
            }
            while j < variants.len()
                invariant
                    j <= variants.len(),
                    cols@.len() == j,
                    variant_cols_match(variants@.take(j as int), cols@),
                    wf_variant_cols(cols@),
                    forall|q: int| 0 <= q < j ==> col_len((#[trigger] cols@[q]).col) == 0,
                decreases variants.len() - j,
            {
                proof {
                    assert(decreases_to!(*dt, 0int, 0int => dt->Union_variants, 0int, 0int));
                    assert(decreases_to!(dt->Union_variants, 0int, 0int =>
                        dt->Union_variants@, 0int, 0int));
                    assert(decreases_to!(dt->Union_variants@, 0int, 0int =>
                        dt->Union_variants@[j as int], 0int, 0int));
                    assert(decreases_to!(dt->Union_variants@[j as int], 0int, 0int =>
                        dt->Union_variants@[j as int].dtype, 0int, 0int));
                }
                let v = &variants[j];
                let child = new_col(&v.dtype);
                let ghost cols0 = cols@;
                cols.push(
                    VariantCol {
                        name: bytes_clone(&v.name),
                        nullable: v.nullable,
                        unit: v.unit,
                        col: child,
                    },
                );
                proof {
                    assert(cols@.drop_last() =~= cols0);
                    assert(variants@.take(j as int + 1).drop_last() =~= variants@.take(j as int));
                    assert(variant_cols_match(variants@.take(j as int + 1), cols@));
                    assert(cols@.last().unit ==> cols@.last().col matches Column::Prims {
                        pk: PrimKind::Bool,
                        ..
                    });
                    assert(wf_variant_cols(cols@));
                }
                j = j + 1;
            }
            proof {
                assert(variants@.take(variants@.len() as int) =~= variants@);
                lemma_variant_lens(cols@);
            }
            let c0 = Column::Union {
                mode: *mode,
                variants: cols,
                type_ids: Vec::new(),
                offsets: Vec::new(),
            };
            proof {
                assert(wf_col(c0));
                assert(c0->Union_type_ids@.len() == 0);
                assert(forall|v: int|
                    0 <= v < cols@.len() ==> #[trigger] variant_lens(cols@)[v] == count_tag(
                        c0->Union_type_ids@,
                        v,
                    ));
                assert(dense_canonical(c0));
            }
            c0
        },
    }
}

/// Appends one padding entry: the null push that record alignment and
/// sparse-union padding demand, below any nullability check. Everywhere but
/// at a union the new position reads back as missing; a union, having no
/// validity bitmap, pads through its first variant and reads back as
/// [`padding_of`] states.
fn append_pad(dt: &DataType, c: &mut Column)
    requires
        wf_col(*old(c)),
        col_matches(*dt, *old(c)),
    ensures
        wf_col(*final(c)),
        col_matches(*dt, *final(c)),
        col_len(*final(c)) == col_len(*old(c)) + 1,
        forall|i: int| 0 <= i < col_len(*old(c)) ==> col_at(*final(c), i) == col_at(*old(c), i),
        col_at(*final(c), col_len(*old(c)) as int) == padding_of(*dt),
        dense_canonical(*old(c)) ==> dense_canonical(*final(c)),
    decreases *dt, 1int, 0int,
{
    match dt {
        DataType::Primitive(_) => pad_prims(dt, c),
        DataType::Utf8 { .. } => pad_bytes(dt, c),
        DataType::Binary { .. } => pad_bytes(dt, c),
        DataType::FixedSizeBinary { .. } => pad_fixed_bytes(dt, c),
        DataType::List { .. } => pad_list(dt, c),
        DataType::FixedSizeList { .. } => pad_fixed_list(dt, c),
        DataType::Record { .. } => pad_record(dt, c),
        DataType::Union { .. } => pad_union(dt, c),
    }
}

/// Padding push on a scalar column.
fn pad_prims(dt: &DataType, c: &mut Column)
    requires
        wf_col(*old(c)),
        col_matches(*dt, *old(c)),
        dt is Primitive,
    ensures
        wf_col(*final(c)),
        col_matches(*dt, *final(c)),
        col_len(*final(c)) == col_len(*old(c)) + 1,
        forall|i: int| 0 <= i < col_len(*old(c)) ==> col_at(*final(c), i) == col_at(*old(c), i),
        col_at(*final(c), col_len(*old(c)) as int) == padding_of(*dt),
    decreases *dt, 0int, 0int,
{
    let ghost c0 = *c;
    match dt {
        DataType::Primitive(_) => {
            match c {

                Column::Prims { pk, values, validity } => {
                    let n = values.len();
                    let z = prim_zero(pk);
                    values.push(z);
                    push_valid(validity, n, false);
                },
                _ => {
                    proof {
                        assert(false);
                    }
                },
            }
        },
        _ => {
            proof {
                assert(false);
            }
        },
    }
}

/// Padding push on a byte-string column: a zero-width slice under an
/// unset validity bit.
fn pad_bytes(dt: &DataType, c: &mut Column)
    requires
        wf_col(*old(c)),
        col_matches(*dt, *old(c)),
        dt is Utf8 || dt is Binary,
    ensures
        wf_col(*final(c)),
        col_matches(*dt, *final(c)),
        col_len(*final(c)) == col_len(*old(c)) + 1,
        forall|i: int| 0 <= i < col_len(*old(c)) ==> col_at(*final(c), i) == col_at(*old(c), i),
        col_at(*final(c), col_len(*old(c)) as int) == padding_of(*dt),
    decreases *dt, 0int, 0int,
{
    let ghost c0 = *c;
    match c {

                Column::Bytes { data, offsets, validity, .. } => {
                    let n = offsets.len() - 1;
                    let end = data.len();
                    offsets.push(end);
                    push_valid(validity, n, false);
                },
                _ => {
                    proof {
                        assert(false);
                    }
                },
    }
}

/// Padding push on a fixed-width byte-string column: one zeroed
/// stride under an unset validity bit.
fn pad_fixed_bytes(dt: &DataType, c: &mut Column)
    requires
        wf_col(*old(c)),
        col_matches(*dt, *old(c)),
        dt is FixedSizeBinary,
    ensures
        wf_col(*final(c)),
        col_matches(*dt, *final(c)),
        col_len(*final(c)) == col_len(*old(c)) + 1,
        forall|i: int| 0 <= i < col_len(*old(c)) ==> col_at(*final(c), i) == col_at(*old(c), i),
        col_at(*final(c), col_len(*old(c)) as int) == padding_of(*dt),
    decreases *dt, 0int, 0int,
{
    let ghost c0 = *c;
    match dt {
        DataType::FixedSizeBinary { .. } => {
            match c {

                Column::FixedBytes { size, data, validity } => {
                    let sz = *size;
                    let n = data.len() / sz;
                    proof {
                        vstd::arithmetic::div_mod::lemma_fundamental_div_mod(
                            data@.len() as int,
                            sz as int,
                        );
                        assert(data@.len() == sz * n);
                    }
                    let ghost d0 = data@;
                    let mut k: usize = 0;
                    while k < sz
                        invariant
                            k <= sz,
                            data@.len() == d0.len() + k,
                            forall|q: int| 0 <= q < d0.len() ==> data@[q] == d0[q],
                        decreases sz - k,
                    {
                        data.push(0);
                        k = k + 1;
                    }
                    proof {
                        assert(data@.len() == sz * n + sz);
                        assert(sz * n + sz == sz * (n + 1)) by (nonlinear_arith);
                        assert((sz * (n + 1)) % (sz as int) == 0) by (nonlinear_arith)
                            requires sz >= 1;
                        assert((sz * (n + 1)) / (sz as int) == n + 1) by (nonlinear_arith)
                            requires sz >= 1;
                    }
                    push_valid(validity, n, false);
                    proof {
                        let ghost cnew = Column::FixedBytes {
                            size: sz,
                            data: *data,
                            validity: *validity,
                        };
                        assert forall|i: int| 0 <= i < n implies #[trigger] col_at(cnew, i)
                            == col_at(c0, i) by {
                            assert((i + 1) * sz <= n * sz) by (nonlinear_arith)
                                requires 0 <= i < n, sz >= 1;
                            assert(n * sz == sz * n) by (nonlinear_arith);
                            assert(0 <= i * sz <= (i + 1) * sz) by (nonlinear_arith)
                                requires 0 <= i, sz >= 1;
                            crate::column::lemma_prefix_subrange(
                                d0,
                                data@,
                                i * sz,
                                (i + 1) * sz,
                            );
                        }
                        assert(col_len(cnew) == n + 1);
                        assert(col_at(cnew, n as int) is None);
                        assert(wf_col(cnew));
                    }
                },
                _ => {
                    proof {
                        assert(false);
                    }
                },
            }
        },
        _ => {
            proof {
                assert(false);
            }
        },
    }
}

/// Padding push on a list column: a zero-width slice, the shared item
/// column untouched.
fn pad_list(dt: &DataType, c: &mut Column)
    requires
        wf_col(*old(c)),
        col_matches(*dt, *old(c)),
        dt is List,
    ensures
        wf_col(*final(c)),
        col_matches(*dt, *final(c)),
        col_len(*final(c)) == col_len(*old(c)) + 1,
        forall|i: int| 0 <= i < col_len(*old(c)) ==> col_at(*final(c), i) == col_at(*old(c), i),
        col_at(*final(c), col_len(*old(c)) as int) == padding_of(*dt),
    decreases *dt, 0int, 0int,
{
    let ghost c0 = *c;
    match dt {
        DataType::List { .. } => {
            match c {

                Column::List { item, offsets, validity, .. } => {
                    let n = offsets.len() - 1;
                    let end = crate::column::length(&item.col);
                    offsets.push(end);
                    push_valid(validity, n, false);
                },
                _ => {
                    proof {
                        assert(false);
                    }
                },
            }
        },
        _ => {
            proof {
                assert(false);
            }
        },
    }
}

/// Padding push on a fixed-size list column: one stride of padding in
/// the item column under an unset validity bit.
#[verifier::rlimit(60)]
fn pad_fixed_list(dt: &DataType, c: &mut Column)
    requires
        wf_col(*old(c)),
        col_matches(*dt, *old(c)),
        dt is FixedSizeList,
    ensures
        wf_col(*final(c)),
        col_matches(*dt, *final(c)),
        col_len(*final(c)) == col_len(*old(c)) + 1,
        forall|i: int| 0 <= i < col_len(*old(c)) ==> col_at(*final(c), i) == col_at(*old(c), i),
        col_at(*final(c), col_len(*old(c)) as int) == padding_of(*dt),
    decreases *dt, 0int, 0int,
{
    let ghost c0 = *c;
    match dt {
        DataType::FixedSizeList { item: ditem, .. } => {
            match c {

                Column::FixedList { size, item, validity } => {
                    let sz = *size;
                    let n = crate::column::length(&item.col) / sz;
                    proof {
                        assert(decreases_to!(*dt, 0int, 0int => dt->FixedSizeList_item, 0int, 0int));
                        assert(decreases_to!(dt->FixedSizeList_item, 0int, 0int =>
                            (*dt->FixedSizeList_item).dtype, 0int, 0int));
                        vstd::arithmetic::div_mod::lemma_fundamental_div_mod(
                            col_len(item.col) as int,
                            sz as int,
                        );
                        assert(col_len(item.col) == sz * n);
                    }
                    let ghost ch0 = item.col;
                    let mut k: usize = 0;
                    while k < sz
                        invariant
                            k <= sz,
                            wf_col(item.col),
                            (*item).name@ == (*c0->FixedList_item).name@,
                            (*item).nullable == (*c0->FixedList_item).nullable,
                            col_matches((*dt->FixedSizeList_item).dtype, item.col),
                            col_len(item.col) == col_len(ch0) + k,
                            forall|q: int|
                                0 <= q < col_len(ch0) ==> col_at(item.col, q) == col_at(ch0, q),
                        decreases sz - k,
                    {
                        append_pad(&ditem.dtype, &mut item.col);
                        k = k + 1;
                    }
                    proof {
                        assert(col_len(item.col) == sz * n + sz);
                        assert(sz * n + sz == sz * (n + 1)) by (nonlinear_arith);
                        assert((sz * (n + 1)) % (sz as int) == 0) by (nonlinear_arith)
                            requires sz >= 1;
                        assert((sz * (n + 1)) / (sz as int) == n + 1) by (nonlinear_arith)
                            requires sz >= 1;
                    }
                    push_valid(validity, n, false);
                    proof {
                        lemma_col_seq(ch0);
                        lemma_col_seq(item.col);
                        let ghost cnew = Column::FixedList {
                            size: sz,
                            item: *item,
                            validity: *validity,
                        };
                        assert forall|i: int| 0 <= i < n implies #[trigger] col_at(cnew, i)
                            == col_at(c0, i) by {
                            assert((i + 1) * sz <= n * sz) by (nonlinear_arith)
                                requires 0 <= i < n, sz >= 1;
                            assert(n * sz == sz * n) by (nonlinear_arith);
                            assert(0 <= i * sz <= (i + 1) * sz) by (nonlinear_arith)
                                requires 0 <= i, sz >= 1;
                            crate::column::lemma_prefix_subrange(
                                col_seq(ch0),
                                col_seq(item.col),
                                i * sz,
                                (i + 1) * sz,
                            );
                        }
                        assert(col_len(cnew) == n + 1);
                        assert(col_at(cnew, n as int) is None);
                        assert(wf_col(cnew));
                    }
                },
                _ => {
                    proof {
                        assert(false);
                    }
                },
            }
        },
        _ => {
            proof {
                assert(false);
            }
        },
    }
}

/// Padding push on a record column: every child receives one padding
/// entry, keeping the children equal-length and aligned.
#[verifier::rlimit(60)]
fn pad_record(dt: &DataType, c: &mut Column)
    requires
        wf_col(*old(c)),
        col_matches(*dt, *old(c)),
        dt is Record,
    ensures
        wf_col(*final(c)),
        col_matches(*dt, *final(c)),
        col_len(*final(c)) == col_len(*old(c)) + 1,
        forall|i: int| 0 <= i < col_len(*old(c)) ==> col_at(*final(c), i) == col_at(*old(c), i),
        col_at(*final(c), col_len(*old(c)) as int) == padding_of(*dt),
    decreases *dt, 0int, 0int,
{
    let ghost c0 = *c;
    match dt {
        DataType::Record { fields: dfields } => {
            match c {

                Column::Record { fields, validity } => {
                    let ghost fs0 = fields@;
                    let ghost n = col_len(fs0[0].col);
                    proof {
                        lemma_wf_named_cols(fs0, n);
                        lemma_named_cols_match(dfields@, fs0);
                    }
                    let mut j: usize = 0;
                    while j < fields.len()
                        invariant
                            j <= fields.len(),
                            fields@.len() == fs0.len(),
                            forall|q: int|
                                j <= q < fs0.len() ==> #[trigger] fields@[q] == fs0[q],
                            forall|q: int|
                                0 <= q < j ==> {
                                    &&& (#[trigger] fields@[q]).name@ == fs0[q].name@
                                    &&& fields@[q].nullable == fs0[q].nullable
                                    &&& wf_col(fields@[q].col)
                                    &&& col_matches(dfields@[q].dtype, fields@[q].col)
                                    &&& col_len(fields@[q].col) == n + 1
                                    &&& forall|m: int|
                                        0 <= m < n ==> col_at(#[trigger] fields@[q].col, m)
                                            == col_at(fs0[q].col, m)
                                },
                        decreases fields.len() - j,
                    {
                        proof {
                            assert(decreases_to!(*dt, 0int, 0int => dt->Record_fields, 0int, 0int));
                            assert(decreases_to!(dt->Record_fields, 0int, 0int =>
                                dt->Record_fields@, 0int, 0int));
                            assert(decreases_to!(dt->Record_fields@, 0int, 0int =>
                                dt->Record_fields@[j as int], 0int, 0int));
                            assert(decreases_to!(dt->Record_fields@[j as int], 0int, 0int =>
                                dt->Record_fields@[j as int].dtype, 0int, 0int));
                        }
                        let df = &dfields[j];
                        append_pad(&df.dtype, &mut fields[j].col);
                        j = j + 1;
                    }
                    push_valid(validity, record_prior_length(fields, Ghost(n)), false);
                    proof {
                        crate::column::lemma_wf_named_cols_intro(fields@, (n + 1) as nat);
                        crate::column::lemma_named_cols_match_intro(dfields@, fields@);
                        let ghost cnew = Column::Record { fields: *fields, validity: *validity };
                        assert(col_len(cnew) == n + 1);
                        assert forall|i: int| 0 <= i < n implies #[trigger] col_at(cnew, i)
                            == col_at(c0, i) by {
                            crate::column::lemma_record_row_congruence(fields@, fs0, i);
                        }
                        assert(col_at(cnew, n as int) is None);
                        assert(wf_col(cnew));
                        assert(col_matches(*dt, cnew));
                    }
                },
                _ => {
                    proof {
                        assert(false);
                    }
                },
            }
        },
        _ => {
            proof {
                assert(false);
            }
        },
    }
}

/// Padding push on a union column, through its first variant: in dense
/// mode one entry in that variant's column, in sparse mode a padding
/// entry in every variant's column.
#[verifier::rlimit(60)]
fn pad_union(dt: &DataType, c: &mut Column)
    requires
        wf_col(*old(c)),
        col_matches(*dt, *old(c)),
        dt is Union,
    ensures
        wf_col(*final(c)),
        col_matches(*dt, *final(c)),
        col_len(*final(c)) == col_len(*old(c)) + 1,
        forall|i: int| 0 <= i < col_len(*old(c)) ==> col_at(*final(c), i) == col_at(*old(c), i),
        col_at(*final(c), col_len(*old(c)) as int) == padding_of(*dt),
        dense_canonical(*old(c)) ==> dense_canonical(*final(c)),
    decreases *dt, 0int, 0int,
{
    let ghost c0 = *c;
    match dt {
        DataType::Union { variants: dvs, .. } => {
            match c {

                Column::Union { mode, variants, type_ids, offsets } => {
                    let ghost vs0 = variants@;
                    let ghost n = type_ids@.len();
                    proof {
                        lemma_wf_variant_cols(vs0);
                        lemma_variant_cols_match(dvs@, vs0);
                        lemma_variant_lens(vs0);
                        assert(decreases_to!(*dt, 0int, 0int => dt->Union_variants, 0int, 0int));
                        assert(decreases_to!(dt->Union_variants, 0int, 0int =>
                            dt->Union_variants@, 0int, 0int));
                        assert(decreases_to!(dt->Union_variants@, 0int, 0int =>
                            dt->Union_variants@[0], 0int, 0int));
                        assert(decreases_to!(dt->Union_variants@[0], 0int, 0int =>
                            dt->Union_variants@[0].dtype, 0int, 0int));
                    }
                    let is_dense = matches!(mode, UnionMode::Dense);
                    if is_dense {
                        let vl = crate::column::length(&variants[0].col);
                        append_pad(&dvs[0].dtype, &mut variants[0].col);
                        type_ids.push(0);
                        offsets.push(vl);
                        proof {
                            lemma_variant_lens(variants@);
                            assert(forall|q: int|
                                1 <= q < vs0.len() ==> #[trigger] variants@[q] == vs0[q]);
                            crate::column::lemma_wf_variant_cols_intro(variants@);
                            crate::column::lemma_variant_cols_match_intro(dvs@, variants@);
                            lemma_variant_cols_match(dvs@, variants@);
                            let ghost cnew = Column::Union {
                                mode: *mode,
                                variants: *variants,
                                type_ids: *type_ids,
                                offsets: *offsets,
                            };
                            assert(col_len(cnew) == n + 1);
                            assert forall|i: int| 0 <= i < n implies #[trigger] col_at(cnew, i)
                                == col_at(c0, i) by {
                                let t = c0->Union_type_ids@[i];
                                assert(t < vs0.len());
                                assert(type_ids@[i] == t);
                                assert(offsets@[i] == c0->Union_offsets@[i]);
                                if t == 0 {
                                    assert(c0->Union_offsets@[i] < variant_lens(vs0)[0]);
                                    assert(variant_lens(vs0)[0] == col_len(vs0[0].col));
                                    assert(col_at(variants@[0].col, c0->Union_offsets@[i] as int)
                                        == col_at(vs0[0].col, c0->Union_offsets@[i] as int));
                                } else {
                                    assert(variants@[t as int] == vs0[t as int]);
                                }
                            }
                            assert(variants@[0].unit == vs0[0].unit);
                            assert(col_at(variants@[0].col, vl as int) == padding_of(
                                dvs@[0].dtype,
                            ));
                            assert(col_at(cnew, n as int) == padding_of(*dt));
                            assert(wf_col(cnew));
                            if dense_canonical(c0) {
                                let old_tids = c0->Union_type_ids@;
                                assert(vl == variant_lens(vs0)[0]);
                                assert(vl == count_tag(old_tids, 0));
                                assert forall|v: int| 0 <= v < variants@.len() implies #[trigger]
                                    variant_lens(variants@)[v] == count_tag(type_ids@, v) by {
                                    lemma_count_tag_push(old_tids, 0, v);
                                    assert(variant_lens(vs0)[v] == count_tag(old_tids, v));
                                    if v != 0 {
                                        assert(variants@[v] == vs0[v]);
                                    }
                                }
                                assert forall|i: int| 0 <= i < type_ids@.len() implies #[trigger]
                                    offsets@[i] == count_tag(
                                    type_ids@.take(i),
                                    type_ids@[i] as int,
                                ) by {
                                    if i < n {
                                        assert(type_ids@.take(i) =~= old_tids.take(i));
                                        assert(type_ids@[i] == old_tids[i]);
                                        assert(old_tids[i] < vs0.len());
                                    } else {
                                        assert(type_ids@.take(i) =~= old_tids);
                                        assert(type_ids@[i] == 0);
                                    }
                                }
                                assert(dense_canonical(cnew));
                            }
                        }
                    } else {
                        proof {
                            assert forall|q: int| 0 <= q < vs0.len() implies col_len(
                                (#[trigger] vs0[q]).col,
                            ) == n by {
                                assert(variant_lens(vs0)[q] == col_len(vs0[q].col));
                            }
                        }
                        let mut j: usize = 0;
                        while j < variants.len()
                            invariant
                                j <= variants.len(),
                                variants@.len() == vs0.len(),
                                forall|q: int|
                                    j <= q < vs0.len() ==> #[trigger] variants@[q] == vs0[q],
                                forall|q: int|
                                    0 <= q < j ==> {
                                        &&& (#[trigger] variants@[q]).name@ == vs0[q].name@
                                        &&& variants@[q].nullable == vs0[q].nullable
                                        &&& variants@[q].unit == vs0[q].unit
                                        &&& wf_col(variants@[q].col)
                                        &&& col_matches(dvs@[q].dtype, variants@[q].col)
                                        &&& col_len(variants@[q].col) == n + 1
                                        &&& col_at(variants@[q].col, n as int) == padding_of(
                                            dvs@[q].dtype,
                                        )
                                        &&& forall|m: int|
                                            0 <= m < col_len(vs0[q].col) ==> col_at(
                                                #[trigger] variants@[q].col,
                                                m,
                                            ) == col_at(vs0[q].col, m)
                                    },
                            decreases variants.len() - j,
                        {
                            proof {
                                assert(decreases_to!(dt->Union_variants@, 0int, 0int =>
                                    dt->Union_variants@[j as int], 0int, 0int));
                                assert(decreases_to!(dt->Union_variants@[j as int], 0int, 0int =>
                                    dt->Union_variants@[j as int].dtype, 0int, 0int));
                            }
                            let dv = &dvs[j];
                            append_pad(&dv.dtype, &mut variants[j].col);
                            j = j + 1;
                        }
                        type_ids.push(0);
                        proof {
                            lemma_variant_lens(variants@);
                            crate::column::lemma_wf_variant_cols_intro(variants@);
                            crate::column::lemma_variant_cols_match_intro(dvs@, variants@);
                            lemma_variant_cols_match(dvs@, variants@);
                            let ghost cnew = Column::Union {
                                mode: *mode,
                                variants: *variants,
                                type_ids: *type_ids,
                                offsets: *offsets,
                            };
                            assert(col_len(cnew) == n + 1);
                            assert forall|i: int| 0 <= i < n implies #[trigger] col_at(cnew, i)
                                == col_at(c0, i) by {
                                let t = c0->Union_type_ids@[i];
                                assert(t < vs0.len());
                                assert(type_ids@[i] == t);
                                assert(variant_lens(vs0)[t as int] == col_len(vs0[t as int].col));
                                assert(col_len(vs0[t as int].col) == n);
                                assert(col_at(variants@[t as int].col, i) == col_at(
                                    vs0[t as int].col,
                                    i,
                                ));
                            }
                            assert(variants@[0].unit == vs0[0].unit);
                            assert(col_len(vs0[0].col) == n);
                            assert(col_at(variants@[0].col, n as int) == padding_of(
                                dvs@[0].dtype,
                            ));
                            assert(col_at(cnew, n as int) == padding_of(*dt));
                            assert(wf_col(cnew));
                        }
                    }
                },
                _ => {
                    proof {
                        assert(false);
                    }
                },
            }
        },
        _ => {
            proof {
                assert(false);
            }
        },
    }
}

/// The record length just before its validity push: the children have
/// already grown by one, so this is one less than their common length.
fn record_prior_length(fields: &Vec<NamedCol>, n: Ghost<nat>) -> (r: usize)
    requires
        fields@.len() >= 1,
        wf_col(fields@[0].col),
        col_len(fields@[0].col) == n@ + 1,
    ensures
        r == n@,
{
    crate::column::length(&fields[0].col) - 1
}

/// Appends one row (a present value or a null) to a column of data type
/// `dt` and slot nullability `nullable`. The append must be accepted
/// ([`row_error`] is `None`); the new position then reads back as exactly
/// the appended row's model.
fn append_row(dt: &DataType, c: &mut Column, nullable: bool, row: Option<&Value>)
    requires
        wf_col(*old(c)),
        col_matches(*dt, *old(c)),
        row_error(*dt, nullable, orv(row)) is None,
    ensures
        wf_col(*final(c)),
        col_matches(*dt, *final(c)),
        col_len(*final(c)) == col_len(*old(c)) + 1,
        forall|i: int| 0 <= i < col_len(*old(c)) ==> col_at(*final(c), i) == col_at(*old(c), i),
        col_at(*final(c), col_len(*old(c)) as int) == orv(row),
        dense_canonical(*old(c)) ==> dense_canonical(*final(c)),
    decreases *dt, 3int, 0int,
{
    match row {
        Option::None => {
            append_pad(dt, c);
        },
        Option::Some(v) => {
            match dt {
                DataType::Primitive(_) => app_prims(dt, c, v),
                DataType::Utf8 { .. } => app_bytes(dt, c, v),
                DataType::Binary { .. } => app_bytes(dt, c, v),
                DataType::FixedSizeBinary { .. } => app_fixed_bytes(dt, c, v),
                DataType::List { .. } => app_list(dt, c, v),
                DataType::FixedSizeList { .. } => app_fixed_list(dt, c, v),
                DataType::Record { .. } => app_record(dt, c, v),
                DataType::Union { .. } => app_union(dt, c, v),
            }
        },
    }
}

/// Value append on a scalar column.
fn app_prims(dt: &DataType, c: &mut Column, v: &Value)
    requires
        wf_col(*old(c)),
        col_matches(*dt, *old(c)),
        dt is Primitive,
        row_error(*dt, true, Option::Some(vw(*v))) is None,
    ensures
        wf_col(*final(c)),
        col_matches(*dt, *final(c)),
        col_len(*final(c)) == col_len(*old(c)) + 1,
        forall|i: int| 0 <= i < col_len(*old(c)) ==> col_at(*final(c), i) == col_at(*old(c), i),
        col_at(*final(c), col_len(*old(c)) as int) == Option::Some(vw(*v)),
    decreases *dt, 2int, 0int,
{
    let ghost c0 = *c;
    match c {
        Column::Prims { pk, values, validity } => {
            let n = values.len();
            match v {
                Value::Prim(pv) => {
                    values.push(*pv);
                },
                _ => {
                    proof {
                        assert(false);
                    }
                },
            }
            push_valid(validity, n, true);
        },
        _ => {
            proof {
                assert(false);
            }
        },
    }
}

/// Value append on a byte-string column: the payload bytes go to the
/// backing store, one offset entry delimits them, one validity bit marks
/// the position present.
#[verifier::rlimit(60)]
fn app_bytes(dt: &DataType, c: &mut Column, v: &Value)
    requires
        wf_col(*old(c)),
        col_matches(*dt, *old(c)),
        dt is Utf8 || dt is Binary,
        row_error(*dt, true, Option::Some(vw(*v))) is None,
    ensures
        wf_col(*final(c)),
        col_matches(*dt, *final(c)),
        col_len(*final(c)) == col_len(*old(c)) + 1,
        forall|i: int| 0 <= i < col_len(*old(c)) ==> col_at(*final(c), i) == col_at(*old(c), i),
        col_at(*final(c), col_len(*old(c)) as int) == Option::Some(vw(*v)),
    decreases *dt, 2int, 0int,
{
    let ghost c0 = *c;
    match c {
        Column::Bytes { text, large, data, offsets, validity } => {
            let n = offsets.len() - 1;
            let ghost d0 = data@;
            match v {
                Value::Text(b) => {
                    data.extend_from_slice(b.as_slice());
                },
                Value::Blob(b) => {
                    data.extend_from_slice(b.as_slice());
                },
                _ => {
                    proof {
                        assert(false);
                    }
                },
            }
            let end = data.len();
            offsets.push(end);
            push_valid(validity, n, true);
            proof {
                let ghost cnew = Column::Bytes {
                    text: *text,
                    large: *large,
                    data: *data,
                    offsets: *offsets,
                    validity: *validity,
                };
                assert(col_len(cnew) == n + 1);
                assert(offsets_ok(offsets@, data@.len()));
                assert forall|i: int| 0 <= i < n implies #[trigger] col_at(cnew, i) == col_at(
                    c0,
                    i,
                ) by {
                    lemma_offsets_bound(c0->Bytes_offsets@, d0.len(), i + 1);
                    lemma_offsets_mono(c0->Bytes_offsets@, d0.len(), i, i + 1);
                    crate::column::lemma_prefix_subrange(
                        d0,
                        data@,
                        c0->Bytes_offsets@[i] as int,
                        c0->Bytes_offsets@[i + 1] as int,
                    );
                }
                assert(data@.subrange(d0.len() as int, data@.len() as int) =~= vbytes(*v));
                assert(col_at(cnew, n as int) == Option::Some(vw(*v)));
                assert(wf_col(cnew));
            }
        },
        _ => {
            proof {
                assert(false);
            }
        },
    }
}

/// Value append on a fixed-width byte-string column.
fn app_fixed_bytes(dt: &DataType, c: &mut Column, v: &Value)
    requires
        wf_col(*old(c)),
        col_matches(*dt, *old(c)),
        dt is FixedSizeBinary,
        row_error(*dt, true, Option::Some(vw(*v))) is None,
    ensures
        wf_col(*final(c)),
        col_matches(*dt, *final(c)),
        col_len(*final(c)) == col_len(*old(c)) + 1,
        forall|i: int| 0 <= i < col_len(*old(c)) ==> col_at(*final(c), i) == col_at(*old(c), i),
        col_at(*final(c), col_len(*old(c)) as int) == Option::Some(vw(*v)),
    decreases *dt, 2int, 0int,
{
    let ghost c0 = *c;
    match c {
        Column::FixedBytes { size, data, validity } => {
            let sz = *size;
            let n = data.len() / sz;
            proof {
                vstd::arithmetic::div_mod::lemma_fundamental_div_mod(
                    data@.len() as int,
                    sz as int,
                );
                assert(data@.len() == sz * n);
            }
            let ghost d0 = data@;
            match v {
                Value::Blob(b) => {
                    data.extend_from_slice(b.as_slice());
                },
                _ => {
                    proof {
                        assert(false);
                    }
                },
            }
            push_valid(validity, n, true);
            proof {
                assert(data@.len() == sz * n + sz);
                assert(sz * n + sz == sz * (n + 1)) by (nonlinear_arith);
                assert((sz * (n + 1)) % (sz as int) == 0) by (nonlinear_arith)
                    requires sz >= 1;
                assert((sz * (n + 1)) / (sz as int) == n + 1) by (nonlinear_arith)
                    requires sz >= 1;
                let ghost cnew = Column::FixedBytes { size: sz, data: *data, validity: *validity };
                assert(col_len(cnew) == n + 1);
                assert forall|i: int| 0 <= i < n implies #[trigger] col_at(cnew, i) == col_at(
                    c0,
                    i,
                ) by {
                    assert((i + 1) * sz <= n * sz) by (nonlinear_arith)
                        requires 0 <= i < n, sz >= 1;
                    assert(n * sz == sz * n) by (nonlinear_arith);
                    assert(0 <= i * sz <= (i + 1) * sz) by (nonlinear_arith)
                        requires 0 <= i, sz >= 1;
                    crate::column::lemma_prefix_subrange(d0, data@, i * sz, (i + 1) * sz);
                }
                assert(n * sz == sz * n) by (nonlinear_arith);
                assert((n + 1) * sz == sz * (n + 1)) by (nonlinear_arith);
                assert(data@.subrange(n * sz, (n + 1) * sz) =~= vbytes(*v));
                assert(col_at(cnew, n as int) == Option::Some(vw(*v)));
                assert(wf_col(cnew));
            }
        },
        _ => {
            proof {
                assert(false);
            }
        },
    }
}

/// Value append on a list column: every item goes to the shared item
/// column, one offset entry delimits the slice, one validity bit marks the
/// position present.
#[verifier::rlimit(60)]
fn app_list(dt: &DataType, c: &mut Column, v: &Value)
    requires
        wf_col(*old(c)),
        col_matches(*dt, *old(c)),
        dt is List,
        row_error(*dt, true, Option::Some(vw(*v))) is None,
    ensures
        wf_col(*final(c)),
        col_matches(*dt, *final(c)),
        col_len(*final(c)) == col_len(*old(c)) + 1,
        forall|i: int| 0 <= i < col_len(*old(c)) ==> col_at(*final(c), i) == col_at(*old(c), i),
        col_at(*final(c), col_len(*old(c)) as int) == Option::Some(vw(*v)),
    decreases *dt, 2int, 0int,
{
    let ghost c0 = *c;
    match dt {
        DataType::List { item: ditem, .. } => {
            match c {
                Column::List { large, item, offsets, validity } => {
                    let n = offsets.len() - 1;
                    let ghost ch0 = item.col;
                    match v {
                        Value::List(items) => {
                            proof {
                                lemma_svw(items@);
                                lemma_items_error_none(*dt->List_item, svw(items@));
                                assert(decreases_to!(*dt, 2int, 0int =>
                                    dt->List_item, 2int, 0int));
                                assert(decreases_to!(dt->List_item, 2int, 0int =>
                                    (*dt->List_item).dtype, 2int, 0int));
                            }
                            let mut j: usize = 0;
                            while j < items.len()
                                invariant
                                    j <= items.len(),
                                    wf_col(item.col),
                                    (*item).name@ == (*c0->List_item).name@,
                                    (*item).nullable == (*c0->List_item).nullable,
                                    col_matches((*dt->List_item).dtype, item.col),
                                    col_len(item.col) == col_len(ch0) + j,
                                    forall|m: int|
                                        0 <= m < col_len(ch0) ==> col_at(item.col, m) == col_at(
                                            ch0,
                                            m,
                                        ),
                                    forall|q: int|
                                        0 <= q < j ==> col_at(
                                            item.col,
                                            col_len(ch0) + q,
                                        ) == ovw(items@[q]),
                                decreases items.len() - j,
                            {
                                let row_j: Option<&Value> = match &items[j] {
                                    Option::None => Option::None,
                                    Option::Some(w) => Option::Some(w),
                                };
                                proof {
                                    assert(orv(row_j) == svw(items@)[j as int]);
                                }
                                append_row(&ditem.dtype, &mut item.col, ditem.nullable, row_j);
                                j = j + 1;
                            }
                            let end = crate::column::length(&item.col);
                            offsets.push(end);
                            push_valid(validity, n, true);
                            proof {
                                lemma_col_seq(ch0);
                                lemma_col_seq(item.col);
                                let ghost cnew = Column::List {
                                    large: *large,
                                    item: *item,
                                    offsets: *offsets,
                                    validity: *validity,
                                };
                                assert(col_len(cnew) == n + 1);
                                assert(offsets_ok(offsets@, col_len(item.col)));
                                assert forall|i: int| 0 <= i < n implies #[trigger] col_at(
                                    cnew,
                                    i,
                                ) == col_at(c0, i) by {
                                    lemma_offsets_bound(c0->List_offsets@, col_len(ch0), i + 1);
                                    lemma_offsets_mono(c0->List_offsets@, col_len(ch0), i, i + 1);
                                    crate::column::lemma_prefix_subrange(
                                        col_seq(ch0),
                                        col_seq(item.col),
                                        c0->List_offsets@[i] as int,
                                        c0->List_offsets@[i + 1] as int,
                                    );
                                }
                                assert(col_seq(item.col).subrange(
                                    col_len(ch0) as int,
                                    col_len(item.col) as int,
                                ) =~= svw(items@));
                                assert(col_at(cnew, n as int) == Option::Some(vw(*v)));
                                assert(wf_col(cnew));
                            }
                        },
                        _ => {
                            proof {
                                assert(false);
                            }
                        },
                    }
                },
                _ => {
                    proof {
                        assert(false);
                    }
                },
            }
        },
        _ => {
            proof {
                assert(false);
            }
        },
    }
}

/// Value append on a fixed-size list column: exactly `size` items go to
/// the item column; the caller has already ruled out any other length.
#[verifier::rlimit(60)]
fn app_fixed_list(dt: &DataType, c: &mut Column, v: &Value)
    requires
        wf_col(*old(c)),
        col_matches(*dt, *old(c)),
        dt is FixedSizeList,
        row_error(*dt, true, Option::Some(vw(*v))) is None,
    ensures
        wf_col(*final(c)),
        col_matches(*dt, *final(c)),
        col_len(*final(c)) == col_len(*old(c)) + 1,
        forall|i: int| 0 <= i < col_len(*old(c)) ==> col_at(*final(c), i) == col_at(*old(c), i),
        col_at(*final(c), col_len(*old(c)) as int) == Option::Some(vw(*v)),
    decreases *dt, 2int, 0int,
{
    let ghost c0 = *c;
    match dt {
        DataType::FixedSizeList { item: ditem, .. } => {
            match c {
                Column::FixedList { size, item, validity } => {
                    let sz = *size;
                    let n = crate::column::length(&item.col) / sz;
                    let ghost ch0 = item.col;
                    proof {
                        vstd::arithmetic::div_mod::lemma_fundamental_div_mod(
                            col_len(item.col) as int,
                            sz as int,
                        );
                        assert(col_len(item.col) == sz * n);
                        assert(decreases_to!(*dt, 2int, 0int =>
                            dt->FixedSizeList_item, 2int, 0int));
                        assert(decreases_to!(dt->FixedSizeList_item, 2int, 0int =>
                            (*dt->FixedSizeList_item).dtype, 2int, 0int));
                    }
                    match v {
                        Value::List(items) => {
                            proof {
                                lemma_svw(items@);
                                lemma_items_error_none(*dt->FixedSizeList_item, svw(items@));
                            }
                            let mut j: usize = 0;
                            while j < items.len()
                                invariant
                                    j <= items.len(),
                                    wf_col(item.col),
                                    (*item).name@ == (*c0->FixedList_item).name@,
                                    (*item).nullable == (*c0->FixedList_item).nullable,
                                    col_matches((*dt->FixedSizeList_item).dtype, item.col),
                                    col_len(item.col) == col_len(ch0) + j,
                                    forall|m: int|
                                        0 <= m < col_len(ch0) ==> col_at(item.col, m) == col_at(
                                            ch0,
                                            m,
                                        ),
                                    forall|q: int|
                                        0 <= q < j ==> col_at(
                                            item.col,
                                            col_len(ch0) + q,
                                        ) == ovw(items@[q]),
                                decreases items.len() - j,
                            {
                                let row_j: Option<&Value> = match &items[j] {
                                    Option::None => Option::None,
                                    Option::Some(w) => Option::Some(w),
                                };
                                proof {
                                    assert(orv(row_j) == svw(items@)[j as int]);
                                }
                                append_row(&ditem.dtype, &mut item.col, ditem.nullable, row_j);
                                j = j + 1;
                            }
                            push_valid(validity, n, true);
                            proof {
                                assert(col_len(item.col) == sz * n + sz);
                                assert(sz * n + sz == sz * (n + 1)) by (nonlinear_arith);
                                assert((sz * (n + 1)) % (sz as int) == 0) by (nonlinear_arith)
                                    requires sz >= 1;
                                assert((sz * (n + 1)) / (sz as int) == n + 1) by (nonlinear_arith)
                                    requires sz >= 1;
                                lemma_col_seq(ch0);
                                lemma_col_seq(item.col);
                                let ghost cnew = Column::FixedList {
                                    size: sz,
                                    item: *item,
                                    validity: *validity,
                                };
                                assert(col_len(cnew) == n + 1);
                                assert forall|i: int| 0 <= i < n implies #[trigger] col_at(
                                    cnew,
                                    i,
                                ) == col_at(c0, i) by {
                                    assert((i + 1) * sz <= n * sz) by (nonlinear_arith)
                                        requires 0 <= i < n, sz >= 1;
                                    assert(n * sz == sz * n) by (nonlinear_arith);
                                    assert(0 <= i * sz <= (i + 1) * sz) by (nonlinear_arith)
                                        requires 0 <= i, sz >= 1;
                                    crate::column::lemma_prefix_subrange(
                                        col_seq(ch0),
                                        col_seq(item.col),
                                        i * sz,
                                        (i + 1) * sz,
                                    );
                                }
                                assert(n * sz == sz * n) by (nonlinear_arith);
                                assert((n + 1) * sz == sz * (n + 1)) by (nonlinear_arith);
                                assert(col_seq(item.col).subrange(n * sz, (n + 1) * sz)
                                    =~= svw(items@));
                                assert(col_at(cnew, n as int) == Option::Some(vw(*v)));
                                assert(wf_col(cnew));
                            }
                        },
                        _ => {
                            proof {
                                assert(false);
                            }
                        },
                    }
                },
                _ => {
                    proof {
                        assert(false);
                    }
                },
            }
        },
        _ => {
            proof {
                assert(false);
            }
        },
    }
}

/// Value append on a record column: each field value goes to its own child
/// column, in declared order, then one validity bit marks the position
/// present.
#[verifier::rlimit(60)]
fn app_record(dt: &DataType, c: &mut Column, v: &Value)
    requires
        wf_col(*old(c)),
        col_matches(*dt, *old(c)),
        dt is Record,
        row_error(*dt, true, Option::Some(vw(*v))) is None,
    ensures
        wf_col(*final(c)),
        col_matches(*dt, *final(c)),
        col_len(*final(c)) == col_len(*old(c)) + 1,
        forall|i: int| 0 <= i < col_len(*old(c)) ==> col_at(*final(c), i) == col_at(*old(c), i),
        col_at(*final(c), col_len(*old(c)) as int) == Option::Some(vw(*v)),
    decreases *dt, 2int, 0int,
{
    let ghost c0 = *c;
    match dt {
        DataType::Record { fields: dfields } => {
            match c {
                Column::Record { fields, validity } => {
                    let ghost fs0 = fields@;
                    let ghost n = col_len(fs0[0].col);
                    proof {
                        lemma_wf_named_cols(fs0, n);
                        lemma_named_cols_match(dfields@, fs0);
                    }
                    match v {
                        Value::Record(vals) => {
                            proof {
                                lemma_svw(vals@);
                                lemma_fields_error_none(dfields@, svw(vals@));
                            }
                            let mut j: usize = 0;
                            while j < fields.len()
                                invariant
                                    j <= fields.len(),
                                    vals@.len() == fields@.len(),
                                    fields@.len() == fs0.len(),
                                    forall|q: int|
                                        j <= q < fs0.len() ==> #[trigger] fields@[q] == fs0[q],
                                    forall|q: int|
                                        0 <= q < j ==> {
                                            &&& (#[trigger] fields@[q]).name@ == fs0[q].name@
                                            &&& fields@[q].nullable == fs0[q].nullable
                                            &&& wf_col(fields@[q].col)
                                            &&& col_matches(dfields@[q].dtype, fields@[q].col)
                                            &&& col_len(fields@[q].col) == n + 1
                                            &&& col_at(fields@[q].col, n as int) == ovw(
                                                vals@[q],
                                            )
                                            &&& forall|m: int|
                                                0 <= m < n ==> col_at(
                                                    #[trigger] fields@[q].col,
                                                    m,
                                                ) == col_at(fs0[q].col, m)
                                        },
                                decreases fields.len() - j,
                            {
                                proof {
                                    assert(decreases_to!(*dt, 2int, 0int =>
                                        dt->Record_fields, 2int, 0int));
                                    assert(decreases_to!(dt->Record_fields, 2int, 0int =>
                                        dt->Record_fields@, 2int, 0int));
                                    assert(decreases_to!(dt->Record_fields@, 2int, 0int =>
                                        dt->Record_fields@[j as int], 2int, 0int));
                                    assert(decreases_to!(
                                        dt->Record_fields@[j as int], 2int, 0int =>
                                        dt->Record_fields@[j as int].dtype, 2int, 0int));
                                }
                                let row_j: Option<&Value> = match &vals[j] {
                                    Option::None => Option::None,
                                    Option::Some(w) => Option::Some(w),
                                };
                                proof {
                                    assert(orv(row_j) == svw(vals@)[j as int]);
                                }
                                let df = &dfields[j];
                                append_row(&df.dtype, &mut fields[j].col, df.nullable, row_j);
                                j = j + 1;
                            }
                            push_valid(validity, record_prior_length(fields, Ghost(n)), true);
                            proof {
                                crate::column::lemma_wf_named_cols_intro(fields@, (n + 1) as nat);
                                crate::column::lemma_named_cols_match_intro(dfields@, fields@);
                                let ghost cnew = Column::Record {
                                    fields: *fields,
                                    validity: *validity,
                                };
                                assert(col_len(cnew) == n + 1);
                                assert forall|i: int| 0 <= i < n implies #[trigger] col_at(
                                    cnew,
                                    i,
                                ) == col_at(c0, i) by {
                                    crate::column::lemma_record_row_congruence(fields@, fs0, i);
                                }
                                crate::column::lemma_record_row(fields@, n as int);
                                assert(record_row(fields@, n as int) =~= svw(vals@));
                                assert(col_at(cnew, n as int) == Option::Some(vw(*v)));
                                assert(wf_col(cnew));
                                assert(col_matches(*dt, cnew));
                            }
                        },
                        _ => {
                            proof {
                                assert(false);
                            }
                        },
                    }
                },
                _ => {
                    proof {
                        assert(false);
                    }
                },
            }
        },
        _ => {
            proof {
                assert(false);
            }
        },
    }
}

/// Value append on a union column. The payload goes to the tagged
/// variant's own column (an always-true boolean for a unit variant, a
/// padding null for a missing nullable payload); in dense mode the
/// type-id/offset pair records where it went, in sparse mode every other
/// variant receives a padding null and only the type id is recorded.
#[verifier::rlimit(80)]
fn app_union(dt: &DataType, c: &mut Column, v: &Value)
    requires
        wf_col(*old(c)),
        col_matches(*dt, *old(c)),
        dt is Union,
        row_error(*dt, true, Option::Some(vw(*v))) is None,
    ensures
        wf_col(*final(c)),
        col_matches(*dt, *final(c)),
        col_len(*final(c)) == col_len(*old(c)) + 1,
        forall|i: int| 0 <= i < col_len(*old(c)) ==> col_at(*final(c), i) == col_at(*old(c), i),
        col_at(*final(c), col_len(*old(c)) as int) == Option::Some(vw(*v)),
        dense_canonical(*old(c)) ==> dense_canonical(*final(c)),
    decreases *dt, 2int, 0int,
{
    let ghost c0 = *c;
    match dt {
        DataType::Union { variants: dvs, .. } => {
            match c {
                Column::Union { mode, variants, type_ids, offsets } => {
                    let ghost vs0 = variants@;
                    let ghost n = type_ids@.len();
                    proof {
                        lemma_wf_variant_cols(vs0);
                        lemma_variant_cols_match(dvs@, vs0);
                        lemma_variant_lens(vs0);
                        assert(decreases_to!(*dt, 2int, 0int => dt->Union_variants, 2int, 0int));
                        assert(decreases_to!(dt->Union_variants, 2int, 0int =>
                            dt->Union_variants@, 2int, 0int));
                    }
                    match v {
                        Value::Tagged(t, p) => {
                            let tt = *t;
                            proof {
                                assert(tt < dvs@.len());
                                assert(decreases_to!(dt->Union_variants@, 2int, 0int =>
                                    dt->Union_variants@[tt as int], 2int, 0int));
                                assert(decreases_to!(dt->Union_variants@[tt as int], 2int, 0int =>
                                    dt->Union_variants@[tt as int].dtype, 2int, 0int));
                            }
                            let ghost pd: Option<Datum> = if dvs@[tt as int].unit {
                                Option::Some(Datum::Prim(PrimValue::Bool(true)))
                            } else {
                                match vw(*v)->Tagged_1 {
                                    Option::None => Option::None,
                                    Option::Some(bx) => Option::Some(*bx),
                                }
                            };
                            let is_dense = matches!(mode, UnionMode::Dense);
                            if is_dense {
                                let dv = &dvs[tt];
                                let vl = crate::column::length(&variants[tt].col);
                                if dv.unit {
                                    let bv = Value::Prim(PrimValue::Bool(true));
                                    append_row(
                                        &dv.dtype,
                                        &mut variants[tt].col,
                                        false,
                                        Option::Some(&bv),
                                    );
                                } else {
                                    match p {
                                        Option::Some(x) => {
                                            append_row(
                                                &dv.dtype,
                                                &mut variants[tt].col,
                                                dv.nullable,
                                                Option::Some(&**x),
                                            );
                                        },
                                        Option::None => {
                                            append_pad(&dv.dtype, &mut variants[tt].col);
                                        },
                                    }
                                }
                                type_ids.push(tt);
                                offsets.push(vl);
                                proof {
                                    lemma_variant_lens(variants@);
                                    assert(forall|q: int|
                                        0 <= q < vs0.len() && q != tt ==> #[trigger] variants@[q]
                                            == vs0[q]);
                                    crate::column::lemma_wf_variant_cols_intro(variants@);
                                    crate::column::lemma_variant_cols_match_intro(dvs@, variants@);
                                    lemma_variant_cols_match(dvs@, variants@);
                                    let ghost cnew = Column::Union {
                                        mode: *mode,
                                        variants: *variants,
                                        type_ids: *type_ids,
                                        offsets: *offsets,
                                    };
                                    assert(col_len(cnew) == n + 1);
                                    assert forall|i: int| 0 <= i < n implies #[trigger] col_at(
                                        cnew,
                                        i,
                                    ) == col_at(c0, i) by {
                                        let q = c0->Union_type_ids@[i];
                                        assert(q < vs0.len());
                                        assert(type_ids@[i] == q);
                                        assert(offsets@[i] == c0->Union_offsets@[i]);
                                        if q == tt {
                                            assert(c0->Union_offsets@[i] < variant_lens(
                                                vs0,
                                            )[tt as int]);
                                            assert(variant_lens(vs0)[tt as int] == col_len(
                                                vs0[tt as int].col,
                                            ));
                                            assert(col_at(
                                                variants@[tt as int].col,
                                                c0->Union_offsets@[i] as int,
                                            ) == col_at(
                                                vs0[tt as int].col,
                                                c0->Union_offsets@[i] as int,
                                            ));
                                        } else {
                                            assert(variants@[q as int] == vs0[q as int]);
                                        }
                                    }
                                    assert(col_at(variants@[tt as int].col, vl as int) == pd);
                                    assert(col_at(cnew, n as int) == Option::Some(vw(*v)));
                                    assert(wf_col(cnew));
                                    if dense_canonical(c0) {
                                        let old_tids = c0->Union_type_ids@;
                                        assert(vl == variant_lens(vs0)[tt as int]);
                                        assert(vl == count_tag(old_tids, tt as int));
                                        assert forall|w: int| 0 <= w < variants@.len() implies
                                            #[trigger] variant_lens(variants@)[w] == count_tag(
                                            type_ids@,
                                            w,
                                        ) by {
                                            lemma_count_tag_push(old_tids, tt, w);
                                            assert(variant_lens(vs0)[w] == count_tag(
                                                old_tids,
                                                w,
                                            ));
                                            if w != tt {
                                                assert(variants@[w] == vs0[w]);
                                            }
                                        }
                                        assert forall|i: int| 0 <= i < type_ids@.len() implies
                                            #[trigger] offsets@[i] == count_tag(
                                            type_ids@.take(i),
                                            type_ids@[i] as int,
                                        ) by {
                                            if i < n {
                                                assert(type_ids@.take(i) =~= old_tids.take(i));
                                                assert(type_ids@[i] == old_tids[i]);
                                                assert(old_tids[i] < vs0.len());
                                            } else {
                                                assert(type_ids@.take(i) =~= old_tids);
                                                assert(type_ids@[i] == tt);
                                            }
                                        }
                                        assert(dense_canonical(cnew));
                                    }
                                }
                            } else {
                                proof {
                                    assert forall|q: int| 0 <= q < vs0.len() implies col_len(
                                        (#[trigger] vs0[q]).col,
                                    ) == n by {
                                        assert(variant_lens(vs0)[q] == col_len(vs0[q].col));
                                    }
                                }
                                let mut j: usize = 0;
                                while j < variants.len()
                                    invariant
                                        j <= variants.len(),
                                        variants@.len() == vs0.len(),
                                        tt < vs0.len(),
                                        forall|q: int|
                                            j <= q < vs0.len() ==> #[trigger] variants@[q]
                                                == vs0[q],
                                        forall|q: int|
                                            0 <= q < j ==> {
                                                &&& (#[trigger] variants@[q]).name@
                                                    == vs0[q].name@
                                                &&& variants@[q].nullable == vs0[q].nullable
                                                &&& variants@[q].unit == vs0[q].unit
                                                &&& wf_col(variants@[q].col)
                                                &&& col_matches(
                                                    dvs@[q].dtype,
                                                    variants@[q].col,
                                                )
                                                &&& col_len(variants@[q].col) == n + 1
                                                &&& (q == tt ==> col_at(
                                                    variants@[q].col,
                                                    n as int,
                                                ) == pd)
                                                &&& forall|m: int|
                                                    0 <= m < n ==> col_at(
                                                        #[trigger] variants@[q].col,
                                                        m,
                                                    ) == col_at(vs0[q].col, m)
                                            },
                                    decreases variants.len() - j,
                                {
                                    proof {
                                        assert(decreases_to!(dt->Union_variants@, 2int, 0int =>
                                            dt->Union_variants@[j as int], 2int, 0int));
                                        assert(decreases_to!(
                                            dt->Union_variants@[j as int], 2int, 0int =>
                                            dt->Union_variants@[j as int].dtype, 2int, 0int));
                                    }
                                    let dvj = &dvs[j];
                                    if j == tt {
                                        if dvj.unit {
                                            let bv = Value::Prim(PrimValue::Bool(true));
                                            append_row(
                                                &dvj.dtype,
                                                &mut variants[j].col,
                                                false,
                                                Option::Some(&bv),
                                            );
                                        } else {
                                            match p {
                                                Option::Some(x) => {
                                                    append_row(
                                                        &dvj.dtype,
                                                        &mut variants[j].col,
                                                        dvj.nullable,
                                                        Option::Some(&**x),
                                                    );
                                                },
                                                Option::None => {
                                                    append_pad(&dvj.dtype, &mut variants[j].col);
                                                },
                                            }
                                        }
                                    } else {
                                        append_pad(&dvj.dtype, &mut variants[j].col);
                                    }
                                    j = j + 1;
                                }
                                type_ids.push(tt);
                                proof {
                                    lemma_variant_lens(variants@);
                                    crate::column::lemma_wf_variant_cols_intro(variants@);
                                    crate::column::lemma_variant_cols_match_intro(dvs@, variants@);
                                    lemma_variant_cols_match(dvs@, variants@);
                                    let ghost cnew = Column::Union {
                                        mode: *mode,
                                        variants: *variants,
                                        type_ids: *type_ids,
                                        offsets: *offsets,
                                    };
                                    assert(col_len(cnew) == n + 1);
                                    assert forall|i: int| 0 <= i < n implies #[trigger] col_at(
                                        cnew,
                                        i,
                                    ) == col_at(c0, i) by {
                                        let q = c0->Union_type_ids@[i];
                                        assert(q < vs0.len());
                                        assert(type_ids@[i] == q);
                                        assert(col_len(vs0[q as int].col) == n);
                                        assert(col_at(variants@[q as int].col, i) == col_at(
                                            vs0[q as int].col,
                                            i,
                                        ));
                                    }
                                    assert(col_at(variants@[tt as int].col, n as int) == pd);
                                    assert(col_at(cnew, n as int) == Option::Some(vw(*v)));
                                    assert(wf_col(cnew));
                                }
                            }
                        },
                        _ => {
                            proof {
                                assert(false);
                            }
                        },
                    }
                },
                _ => {
                    proof {
                        assert(false);
                    }
                },
            }
        },
        _ => {
            proof {
                assert(false);
            }
        },
    }
}

/// The append-side state machine: accumulates one column for one declared
/// [`Field`], one `append` call per source element, finished by a single
/// consuming [`Builder::seal`].
pub struct Builder {
    /// The declared slot this builder encodes.
    pub field: Field,
    /// The column under construction.
    pub col: Column,
}

impl Builder {
    /// The builder's invariant: its column is well-formed, carries the
    /// declared data type, and — when it is a dense union — keeps the
    /// canonical append-order layout ([`dense_canonical`]).
    pub open spec fn wf(self) -> bool {
        &&& wf_col(self.col)
        &&& col_matches(self.field.dtype, self.col)
        &&& dense_canonical(self.col)
    }

    /// The models of the rows appended so far, in order.
    pub open spec fn rows(self) -> Seq<Option<Datum>> {
        col_seq(self.col)
    }

    /// Allocates a builder with empty buffers for the given field.
    pub fn new(field: Field) -> (b: Builder)
        requires
            wf_dt(field.dtype),
        ensures
            b.wf(),
            b.field == field,
            b.rows() == Seq::<Option<Datum>>::empty(),
    {
        let col = new_col(&field.dtype);
        proof {
            lemma_col_seq(col);
            assert(col_seq(col) =~= Seq::<Option<Datum>>::empty());
        }
        Builder { field, col }
    }

    /// Appends one row: a present value or, on a nullable slot, a null.
    /// On success the appended row's model is the new last row; a rejected
    /// row reports exactly [`row_error`] and leaves the builder unchanged.
    pub fn append(&mut self, row: Option<&Value>) -> (r: Result<(), EncodeError>)
        requires
            old(self).wf(),
        ensures
            final(self).wf(),
            final(self).field == old(self).field,
            match r {
                Result::Ok(()) => {
                    &&& row_error(old(self).field.dtype, old(self).field.nullable, orv(row))
                        is None
                    &&& final(self).rows() == old(self).rows().push(orv(row))
                },
                Result::Err(e) => {
                    &&& row_error(old(self).field.dtype, old(self).field.nullable, orv(row))
                        == Option::Some(e)
                    &&& *final(self) == *old(self)
                },
            },
    {
        let e = check_row(&self.field.dtype, self.field.nullable, row);
        match e {
            Option::Some(err) => Result::Err(err),
            Option::None => {
                let ghost col0 = self.col;
                append_row(&self.field.dtype, &mut self.col, self.field.nullable, row);
                proof {
                    lemma_col_seq(col0);
                    lemma_col_seq(self.col);
                    assert(col_seq(self.col) =~= col_seq(col0).push(orv(row)));
                }
                Result::Ok(())
            },
        }
    }

    /// Capacity hint for the coming elements and payload bytes: never
    /// changes the rows, may be a no-op.
    #[verifier::rlimit(60)]
    pub fn reserve(&mut self, additional_elements: usize, additional_bytes: usize)
        requires
            old(self).wf(),
        ensures
            final(self).wf(),
            final(self).field == old(self).field,
            final(self).rows() == old(self).rows(),
    {
        let ghost col0 = self.col;
        match &mut self.col {
            Column::Prims { values, .. } => {
                values.reserve(additional_elements);
            },
            Column::Bytes { data, offsets, .. } => {
                data.reserve(additional_bytes);
                offsets.reserve(additional_elements);
            },
            _ => {},
        }
        proof {
            let ghost cn = self.col;
            assert(col_len(cn) == col_len(col0));
            assert(wf_col(cn));
            assert(col_matches(self.field.dtype, cn));
            assert forall|i: int| 0 <= i < col_len(col0) implies #[trigger] col_at(cn, i)
                == col_at(col0, i) by {}
            lemma_col_seq(cn);
            lemma_col_seq(col0);
            assert(col_seq(cn) =~= col_seq(col0));
        }
    }

    /// Seals the builder, yielding the immutable column. Consuming: the
    /// builder cannot be reused afterwards.
    pub fn seal(self) -> (c: Column)
        requires
            self.wf(),
        ensures
            wf_col(c),
            col_matches(self.field.dtype, c),
            col_seq(c) == self.rows(),
            dense_canonical(c),
    {
        self.col
    }
}

/// Encodes a sequence of rows into one sealed column of the given field's
/// data type. Succeeds exactly when every row is accepted ([`items_error`]
/// is `None`); the column then denotes exactly the rows' models. A rejected
/// input reports the first row error, in order.
pub fn encode(field: Field, rows: &Vec<Option<Value>>) -> (r: Result<Column, EncodeError>)
    requires
        wf_dt(field.dtype),
    ensures
        match r {
            Result::Ok(c) => {
                &&& items_error(field, svw(rows@)) is None
                &&& wf_col(c)
                &&& col_matches(field.dtype, c)
                &&& col_seq(c) == svw(rows@)
                &&& dense_canonical(c)
            },
            Result::Err(e) => items_error(field, svw(rows@)) == Option::Some(e),
        },
{
    proof {
        lemma_svw(rows@);
    }
    let ghost f = field;
    let mut b = Builder::new(field);
    let mut i: usize = 0;
    while i < rows.len()
        invariant
            i <= rows.len(),
            b.wf(),
            b.field == f,
            items_error(f, svw(rows@).take(i as int)) is None,
            b.rows() == svw(rows@).take(i as int),
        decreases rows.len() - i,
    {
        let row_i: Option<&Value> = match &rows[i] {
            Option::None => Option::None,
            Option::Some(w) => Option::Some(w),
        };
        proof {
            assert(orv(row_i) == svw(rows@)[i as int]);
            assert(svw(rows@).take(i as int + 1).drop_last() =~= svw(rows@).take(i as int));
            assert(svw(rows@).take(i as int + 1).last() == svw(rows@)[i as int]);
        }
        let res = b.append(row_i);
        match res {
            Result::Ok(()) => {
                proof {
                    assert(b.rows() =~= svw(rows@).take(i as int + 1));
                }
                i = i + 1;
            },
            Result::Err(e) => {
                proof {
                    lemma_items_error_extend(f, svw(rows@), i as int + 1);
                }
                return Result::Err(e);
            },
        }
    }
    proof {
        assert(svw(rows@).take(svw(rows@).len() as int) =~= svw(rows@));
    }
    Result::Ok(b.seal())
}

} // verus!
