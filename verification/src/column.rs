//! Immutable columns and their mathematical model.
//!
//! A [`Column`] is the sealed, self-describing columnar encoding of a
//! sequence of values of one logical type: a value buffer per scalar slot,
//! an optional validity bitmap (`None` while no null was ever pushed, in
//! which case every position is present), offset buffers for
//! variable-length slots, and type-id/offset buffers for unions.
//!
//! The model is the triple [`wf_col`] (the structural invariants),
//! [`col_len`] (the logical length) and [`col_at`]/[`col_seq`] (the logical
//! sequence of possibly missing [`Datum`]s a column denotes). Every builder,
//! reader and slicing contract is stated over these.

use vstd::prelude::*;

use crate::schema::DataType;
use crate::schema::UnionMode;
use crate::value::Datum;
use crate::value::PrimKind;
use crate::value::PrimValue;
use crate::value::prim_fits;

verus! {

/// A named child column: a list item column or one record field column.
#[derive(Debug)]
pub struct NamedCol {
    pub name: Vec<u8>,
    pub nullable: bool,
    pub col: Column,
}

/// One variant column of a union. A unit variant (`unit` set) holds an
/// always-true boolean payload and reconstructs to the bare tag.
#[derive(Debug)]
pub struct VariantCol {
    pub name: Vec<u8>,
    pub nullable: bool,
    pub unit: bool,
    pub col: Column,
}

/// An immutable column. Produced by a builder's seal, never mutated by
/// readers.
#[derive(Debug)]
pub enum Column {
    /// Scalars: one buffer entry per position.
    Prims { pk: PrimKind, values: Vec<PrimValue>, validity: Option<Vec<bool>> },
    /// Text (`text`) or binary byte strings, variable length: `offsets` has
    /// one more entry than the logical length, starts at zero, is
    /// monotonically non-decreasing and ends at `data`'s length; position
    /// `i`'s payload is `data[offsets[i] .. offsets[i + 1]]`.
    Bytes {
        text: bool,
        large: bool,
        data: Vec<u8>,
        offsets: Vec<usize>,
        validity: Option<Vec<bool>>,
    },
    /// Byte strings of one fixed width each.
    FixedBytes { size: usize, data: Vec<u8>, validity: Option<Vec<bool>> },
    /// Variable-length lists over one shared item column, delimited by
    /// `offsets` exactly as byte strings are.
    List { large: bool, item: Box<NamedCol>, offsets: Vec<usize>, validity: Option<Vec<bool>> },
    /// Lists of one fixed length each; position `i` owns the item rows
    /// `i * size .. (i + 1) * size`.
    FixedList { size: usize, item: Box<NamedCol>, validity: Option<Vec<bool>> },
    /// One child column per field, all of equal length; a position whose
    /// validity bit is unset still owns one (padding) entry of every child.
    Record { fields: Vec<NamedCol>, validity: Option<Vec<bool>> },
    /// Tagged union. `type_ids[i]` selects the variant at position `i`. In
    /// dense mode `offsets[i]` is the entry index within that variant's own
    /// column; in sparse mode there is no offset buffer and every variant
    /// column has the union's full length, padded at non-selected positions.
    /// A union column has no validity bitmap.
    Union {
        mode: UnionMode,
        variants: Vec<VariantCol>,
        type_ids: Vec<usize>,
        offsets: Vec<usize>,
    },
}

/// The validity bit of position `i`: present when no bitmap was allocated,
/// else the stored bit.
pub open spec fn vbit(validity: Option<Vec<bool>>, i: int) -> bool {
    match validity {
        Option::None => true,
        Option::Some(v) => if 0 <= i < v@.len() {
            v@[i]
        } else {
            true
        },
    }
}

/// Bitmap length constraint: a bitmap, when present, covers every position.
pub open spec fn vlen_ok(validity: Option<Vec<bool>>, n: nat) -> bool {
    validity matches Option::Some(v) ==> v@.len() == n
}

/// An offsets buffer over a backing store of length `end`: one entry more
/// than the logical length, starting at zero, monotonically non-decreasing,
/// ending at `end`.
pub open spec fn offsets_ok(offsets: Seq<usize>, end: nat) -> bool {
    &&& offsets.len() >= 1
    &&& offsets[0] == 0
    &&& forall|i: int| 0 <= i && i + 1 < offsets.len() ==> #[trigger] offsets[i] <= offsets[i + 1]
    &&& offsets.last() == end
}

/// Any two offsets are ordered; the step-wise condition in [`offsets_ok`]
/// extended to arbitrary pairs.
pub proof fn lemma_offsets_mono(offsets: Seq<usize>, end: nat, i: int, j: int)
    requires
        offsets_ok(offsets, end),
        0 <= i <= j < offsets.len(),
    ensures
        offsets[i] <= offsets[j],
    decreases j - i,
{
    if i < j {
        lemma_offsets_mono(offsets, end, i + 1, j);
    }
}

/// Every offset lies within the backing store.
pub proof fn lemma_offsets_bound(offsets: Seq<usize>, end: nat, j: int)
    requires
        offsets_ok(offsets, end),
        0 <= j < offsets.len(),
    ensures
        offsets[j] <= end,
{
    lemma_offsets_mono(offsets, end, j, offsets.len() - 1);
}

/// The logical length of a column.
pub open spec fn col_len(c: Column) -> nat
    decreases c, 0int, 0int,
{
    match c {
        Column::Prims { values, .. } => values@.len(),
        Column::Bytes { offsets, .. } => if offsets@.len() == 0 {
            0
        } else {
            (offsets@.len() - 1) as nat
        },
        Column::FixedBytes { size, data, .. } => if size == 0 {
            0
        } else {
            data@.len() / size as nat
        },
        Column::List { offsets, .. } => if offsets@.len() == 0 {
            0
        } else {
            (offsets@.len() - 1) as nat
        },
        Column::FixedList { size, item, .. } => if size == 0 {
            0
        } else {
            col_len(item.col) / size as nat
        },
        Column::Record { fields, .. } => if fields@.len() == 0 {
            0
        } else {
            col_len(fields@[0].col)
        },
        Column::Union { type_ids, .. } => type_ids@.len(),
    }
}

/// The logical lengths of a sequence of variant columns.
pub open spec fn variant_lens(vs: Seq<VariantCol>) -> Seq<nat>
    decreases vs, 1int, 0int,
{
    if vs.len() == 0 {
        Seq::<nat>::empty()
    } else {
        variant_lens(vs.drop_last()).push(col_len(vs.last().col))
    }
}

/// [`variant_lens`] is the pointwise map of [`col_len`].
pub proof fn lemma_variant_lens(vs: Seq<VariantCol>)
    ensures
        variant_lens(vs).len() == vs.len(),
        forall|i: int| 0 <= i < vs.len() ==> #[trigger] variant_lens(vs)[i] == col_len(vs[i].col),
    decreases vs.len(),
{
    if vs.len() > 0 {
        lemma_variant_lens(vs.drop_last());
    }
}

/// Well-formedness of a sequence of named child columns: each well-formed
/// and of logical length `n`.
pub open spec fn wf_named_cols(fs: Seq<NamedCol>, n: nat) -> bool
    decreases fs, 1int, 0int,
{
    if fs.len() == 0 {
        true
    } else {
        &&& wf_named_cols(fs.drop_last(), n)
        &&& wf_col(fs.last().col)
        &&& col_len(fs.last().col) == n
    }
}

/// Well-formedness of a sequence of variant columns: each well-formed, and
/// a unit variant is a non-nullable boolean column.
pub open spec fn wf_variant_cols(vs: Seq<VariantCol>) -> bool
    decreases vs, 1int, 0int,
{
    if vs.len() == 0 {
        true
    } else {
        &&& wf_variant_cols(vs.drop_last())
        &&& wf_col(vs.last().col)
        &&& (vs.last().unit ==> {
            &&& vs.last().col matches Column::Prims { pk: PrimKind::Bool, .. }
            &&& !vs.last().nullable
        })
    }
}

/// The structural invariants of a column: buffer lengths track the logical
/// length one to one, offsets delimit the backing store, record children
/// stay equal-length and positionally aligned, union type ids select
/// existing variants, dense offsets point inside the selected variant's
/// column, and sparse variant columns all have the union's full length.
pub open spec fn wf_col(c: Column) -> bool
    decreases c, 2int, 0int,
{
    match c {
        Column::Prims { pk, values, validity } => {
            &&& vlen_ok(validity, values@.len())
            &&& forall|i: int|
                0 <= i < values@.len() ==> prim_fits(pk, #[trigger] values@[i])
        },
        Column::Bytes { data, offsets, validity, .. } => {
            &&& offsets_ok(offsets@, data@.len())
            &&& vlen_ok(validity, (offsets@.len() - 1) as nat)
        },
        Column::FixedBytes { size, data, validity } => {
            &&& size >= 1
            &&& data@.len() % (size as nat) == 0
            &&& vlen_ok(validity, data@.len() / size as nat)
        },
        Column::List { item, offsets, validity, .. } => {
            &&& wf_col(item.col)
            &&& offsets_ok(offsets@, col_len(item.col))
            &&& vlen_ok(validity, (offsets@.len() - 1) as nat)
        },
        Column::FixedList { size, item, validity } => {
            &&& size >= 1
            &&& wf_col(item.col)
            &&& col_len(item.col) % (size as nat) == 0
            &&& vlen_ok(validity, col_len(item.col) / size as nat)
        },
        Column::Record { fields, validity } => {
            &&& fields@.len() >= 1
            &&& wf_named_cols(fields@, col_len(fields@[0].col))
            &&& vlen_ok(validity, col_len(fields@[0].col))
        },
        Column::Union { mode, variants, type_ids, offsets } => {
            &&& variants@.len() >= 1
            &&& wf_variant_cols(variants@)
            &&& forall|i: int|
                0 <= i < type_ids@.len() ==> (#[trigger] type_ids@[i]) < variants@.len()
            &&& match mode {
                UnionMode::Sparse => {
                    &&& offsets@.len() == 0
                    &&& forall|j: int|
                        0 <= j < variants@.len() ==> #[trigger] variant_lens(variants@)[j]
                            == type_ids@.len()
                },
                UnionMode::Dense => {
                    &&& offsets@.len() == type_ids@.len()
                    &&& forall|i: int|
                        0 <= i < type_ids@.len() ==> (#[trigger] offsets@[i]) < variant_lens(
                            variants@,
                        )[type_ids@[i] as int]
                },
            }
        },
    }
}

/// The validity bit of position `i` of column `c`; a union position is
/// always present at this level (a union column has no validity bitmap).
pub open spec fn col_valid(c: Column, i: int) -> bool {
    match c {
        Column::Prims { validity, .. } => vbit(validity, i),
        Column::Bytes { validity, .. } => vbit(validity, i),
        Column::FixedBytes { validity, .. } => vbit(validity, i),
        Column::List { validity, .. } => vbit(validity, i),
        Column::FixedList { validity, .. } => vbit(validity, i),
        Column::Record { validity, .. } => vbit(validity, i),
        Column::Union { .. } => true,
    }
}

/// The datum at position `i` of column `c`, `None` at a null or
/// out-of-range position.
///
/// A union position reconstructs the bare tag when the selected variant is
/// a unit variant, whatever its stored boolean payload holds; a missing
/// payload entry is the variant's own null when the variant is nullable,
/// and a null union position otherwise.
pub open spec fn col_at(c: Column, i: int) -> Option<Datum>
    decreases c, 3int, 0int,
{
    if !(0 <= i < col_len(c)) {
        Option::None
    } else if !col_valid(c, i) {
        Option::None
    } else {
        match c {
            Column::Prims { values, .. } => Option::Some(Datum::Prim(values@[i])),
            Column::Bytes { text, data, offsets, .. } => {
                let lo = offsets@[i] as int;
                let hi = offsets@[i + 1] as int;
                if 0 <= lo <= hi <= data@.len() {
                    if text {
                        Option::Some(Datum::Text(data@.subrange(lo, hi)))
                    } else {
                        Option::Some(Datum::Blob(data@.subrange(lo, hi)))
                    }
                } else {
                    Option::None
                }
            },
            Column::FixedBytes { size, data, .. } => {
                let lo = i * size;
                let hi = (i + 1) * size;
                if 0 <= lo <= hi <= data@.len() {
                    Option::Some(Datum::Blob(data@.subrange(lo, hi)))
                } else {
                    Option::None
                }
            },
            Column::List { item, offsets, .. } => {
                let lo = offsets@[i] as int;
                let hi = offsets@[i + 1] as int;
                if 0 <= lo <= hi <= col_len(item.col) {
                    Option::Some(Datum::List(col_seq(item.col).subrange(lo, hi)))
                } else {
                    Option::None
                }
            },
            Column::FixedList { size, item, .. } => {
                let lo = i * size;
                let hi = (i + 1) * size;
                if 0 <= lo <= hi <= col_len(item.col) {
                    Option::Some(Datum::List(col_seq(item.col).subrange(lo, hi)))
                } else {
                    Option::None
                }
            },
            Column::Record { fields, .. } => Option::Some(
                Datum::Record(record_row(fields@, i)),
            ),
            Column::Union { mode, variants, type_ids, offsets } => {
                let t = type_ids@[i];
                if t >= variants@.len() {
                    Option::None
                } else {
                    let p: int = match mode {
                        UnionMode::Dense => if i < offsets@.len() {
                            offsets@[i] as int
                        } else {
                            -1
                        },
                        UnionMode::Sparse => i,
                    };
                    let vc = variants@[t as int];
                    if vc.unit {
                        Option::Some(Datum::Tagged(t, Option::None))
                    } else {
                        match col_at(vc.col, p) {
                            Option::None => if vc.nullable {
                                Option::Some(Datum::Tagged(t, Option::None))
                            } else {
                                Option::None
                            },
                            Option::Some(x) => Option::Some(
                                Datum::Tagged(t, Option::Some(Box::new(x))),
                            ),
                        }
                    }
                }
            },
        }
    }
}

/// One assembled record row: the datum of every field column at position
/// `i`, in field order.
pub open spec fn record_row(fs: Seq<NamedCol>, i: int) -> Seq<Option<Datum>>
    decreases fs, 3int, 0int,
{
    if fs.len() == 0 {
        Seq::<Option<Datum>>::empty()
    } else {
        record_row(fs.drop_last(), i).push(col_at(fs.last().col, i))
    }
}

/// [`record_row`] is the pointwise map of [`col_at`].
pub proof fn lemma_record_row(fs: Seq<NamedCol>, i: int)
    ensures
        record_row(fs, i).len() == fs.len(),
        forall|j: int|
            0 <= j < fs.len() ==> #[trigger] record_row(fs, i)[j] == col_at(fs[j].col, i),
    decreases fs.len(),
{
    if fs.len() > 0 {
        lemma_record_row(fs.drop_last(), i);
    }
}

/// The logical sequence of position `0 .. n` of column `c`.
pub open spec fn col_seq_upto(c: Column, n: int) -> Seq<Option<Datum>>
    decreases c, 4int, n,
{
    if n <= 0 {
        Seq::<Option<Datum>>::empty()
    } else {
        col_seq_upto(c, n - 1).push(col_at(c, n - 1))
    }
}

/// The full logical sequence that column `c` denotes.
pub open spec fn col_seq(c: Column) -> Seq<Option<Datum>>
    decreases c, 5int, 0int,
{
    col_seq_upto(c, col_len(c) as int)
}

/// [`col_seq`] is the pointwise map of [`col_at`] over the positions.
pub proof fn lemma_col_seq_upto(c: Column, n: int)
    ensures
        col_seq_upto(c, n).len() == if n <= 0 {
            0int
        } else {
            n
        },
        forall|i: int| 0 <= i < n ==> #[trigger] col_seq_upto(c, n)[i] == col_at(c, i),
    decreases n,
{
    if n > 0 {
        lemma_col_seq_upto(c, n - 1);
    }
}

/// [`col_seq`] has the column's logical length and agrees with [`col_at`].
pub proof fn lemma_col_seq(c: Column)
    ensures
        col_seq(c).len() == col_len(c),
        forall|i: int| 0 <= i < col_len(c) ==> #[trigger] col_seq(c)[i] == col_at(c, i),
{
    lemma_col_seq_upto(c, col_len(c) as int);
}

/// The datum that a padding push (a null appended below the validity
/// level, as record null alignment and sparse padding demand) leaves at the
/// new position: `None` everywhere except at a union, which has no validity
/// bitmap and pads through its first variant.
pub open spec fn padding_datum(c: Column) -> Option<Datum>
    decreases c, 6int, 0int,
{
    match c {
        Column::Union { variants, .. } => if variants@.len() == 0 {
            Option::None
        } else {
            let vc = variants@[0];
            if vc.unit {
                Option::Some(Datum::Tagged(0, Option::None))
            } else {
                match padding_datum(vc.col) {
                    Option::None => if vc.nullable {
                        Option::Some(Datum::Tagged(0, Option::None))
                    } else {
                        Option::None
                    },
                    Option::Some(x) => Option::Some(Datum::Tagged(0, Option::Some(Box::new(x)))),
                }
            }
        },
        _ => Option::None,
    }
}

/// Whether column `c` is a column of data type `dt`, checked structurally,
/// top kind first, then children: kinds, sizes, modes, child names,
/// nullability and unit flags all agree.
pub open spec fn col_matches(dt: DataType, c: Column) -> bool
    decreases dt, 0int,
{
    match dt {
        DataType::Primitive(pk) => c matches Column::Prims { pk: cpk, .. } && cpk == pk,
        DataType::Utf8 { large } => {
            &&& c matches Column::Bytes { text, large: cl, .. }
            &&& c->Bytes_text
            &&& c->Bytes_large == large
        },
        DataType::Binary { large } => {
            &&& c matches Column::Bytes { text, large: cl, .. }
            &&& !c->Bytes_text
            &&& c->Bytes_large == large
        },
        DataType::FixedSizeBinary { size } => {
            &&& c matches Column::FixedBytes { size: cs, .. }
            &&& c->FixedBytes_size == size
        },
        DataType::List { large, item } => {
            &&& c matches Column::List { large: cl, item: ci, .. }
            &&& c->List_large == large
            &&& item_col_matches(*item, *c->List_item)
        },
        DataType::FixedSizeList { size, item } => {
            &&& c matches Column::FixedList { size: cs, item: ci, .. }
            &&& c->FixedList_size == size
            &&& item_col_matches(*item, *c->FixedList_item)
        },
        DataType::Record { fields } => {
            &&& c matches Column::Record { fields: cfs, .. }
            &&& named_cols_match(fields@, c->Record_fields@)
        },
        DataType::Union { mode, variants } => {
            &&& c matches Column::Union { mode: cm, variants: cvs, .. }
            &&& c->Union_mode == mode
            &&& variant_cols_match(variants@, c->Union_variants@)
        },
    }
}

/// Whether a child column carries the declared item field.
pub open spec fn item_col_matches(f: crate::schema::Field, nc: NamedCol) -> bool
    decreases f, 1int,
{
    &&& nc.name@ == f.name@
    &&& nc.nullable == f.nullable
    &&& col_matches(f.dtype, nc.col)
}

/// Whether record child columns carry the declared fields, in order.
pub open spec fn named_cols_match(fs: Seq<crate::schema::Field>, cs: Seq<NamedCol>) -> bool
    decreases fs, 1int,
{
    &&& fs.len() == cs.len()
    &&& if fs.len() == 0 {
        true
    } else {
        &&& named_cols_match(fs.drop_last(), cs.drop_last())
        &&& cs.last().name@ == fs.last().name@
        &&& cs.last().nullable == fs.last().nullable
        &&& col_matches(fs.last().dtype, cs.last().col)
    }
}

/// Whether union variant columns carry the declared variants, in order.
pub open spec fn variant_cols_match(vs: Seq<crate::schema::Variant>, cs: Seq<VariantCol>) -> bool
    decreases vs, 1int,
{
    &&& vs.len() == cs.len()
    &&& if vs.len() == 0 {
        true
    } else {
        &&& variant_cols_match(vs.drop_last(), cs.drop_last())
        &&& cs.last().name@ == vs.last().name@
        &&& cs.last().nullable == vs.last().nullable
        &&& cs.last().unit == vs.last().unit
        &&& col_matches(vs.last().dtype, cs.last().col)
    }
}

/// Pointwise reading of [`named_cols_match`].
pub proof fn lemma_named_cols_match(fs: Seq<crate::schema::Field>, cs: Seq<NamedCol>)
    requires
        named_cols_match(fs, cs),
    ensures
        forall|j: int|
            0 <= j < fs.len() ==> {
                &&& (#[trigger] cs[j]).name@ == fs[j].name@
                &&& cs[j].nullable == fs[j].nullable
                &&& col_matches(fs[j].dtype, cs[j].col)
            },
    decreases fs.len(),
{
    if fs.len() > 0 {
        lemma_named_cols_match(fs.drop_last(), cs.drop_last());
        assert forall|j: int| 0 <= j < fs.len() implies {
            &&& (#[trigger] cs[j]).name@ == fs[j].name@
            &&& cs[j].nullable == fs[j].nullable
            &&& col_matches(fs[j].dtype, cs[j].col)
        } by {
            if j < fs.len() - 1 {
                assert(fs.drop_last()[j] == fs[j]);
                assert(cs.drop_last()[j] == cs[j]);
            }
        }
    }
}

/// Pointwise reading of [`variant_cols_match`].
pub proof fn lemma_variant_cols_match(vs: Seq<crate::schema::Variant>, cs: Seq<VariantCol>)
    requires
        variant_cols_match(vs, cs),
    ensures
        forall|j: int|
            0 <= j < vs.len() ==> {
                &&& (#[trigger] cs[j]).name@ == vs[j].name@
                &&& cs[j].nullable == vs[j].nullable
                &&& cs[j].unit == vs[j].unit
                &&& col_matches(vs[j].dtype, cs[j].col)
            },
    decreases vs.len(),
{
    if vs.len() > 0 {
        lemma_variant_cols_match(vs.drop_last(), cs.drop_last());
        assert forall|j: int| 0 <= j < vs.len() implies {
            &&& (#[trigger] cs[j]).name@ == vs[j].name@
            &&& cs[j].nullable == vs[j].nullable
            &&& cs[j].unit == vs[j].unit
            &&& col_matches(vs[j].dtype, cs[j].col)
        } by {
            if j < vs.len() - 1 {
                assert(vs.drop_last()[j] == vs[j]);
                assert(cs.drop_last()[j] == cs[j]);
            }
        }
    }
}

/// Pointwise reading of [`wf_named_cols`].
pub proof fn lemma_wf_named_cols(fs: Seq<NamedCol>, n: nat)
    requires
        wf_named_cols(fs, n),
    ensures
        forall|j: int|
            0 <= j < fs.len() ==> wf_col((#[trigger] fs[j]).col) && col_len(fs[j].col) == n,
    decreases fs.len(),
{
    if fs.len() > 0 {
        lemma_wf_named_cols(fs.drop_last(), n);
        assert forall|j: int| 0 <= j < fs.len() implies wf_col((#[trigger] fs[j]).col) && col_len(
            fs[j].col,
        ) == n by {
            if j < fs.len() - 1 {
                assert(fs.drop_last()[j] == fs[j]);
            }
        }
    }
}

/// Pointwise reading of [`wf_variant_cols`].
pub proof fn lemma_wf_variant_cols(vs: Seq<VariantCol>)
    requires
        wf_variant_cols(vs),
    ensures
        forall|j: int|
            0 <= j < vs.len() ==> {
                &&& wf_col((#[trigger] vs[j]).col)
                &&& (vs[j].unit ==> (vs[j].col matches Column::Prims { pk: PrimKind::Bool, .. })
                    && !vs[j].nullable)
            },
    decreases vs.len(),
{
    if vs.len() > 0 {
        lemma_wf_variant_cols(vs.drop_last());
        assert forall|j: int| 0 <= j < vs.len() implies {
            &&& wf_col((#[trigger] vs[j]).col)
            &&& (vs[j].unit ==> (vs[j].col matches Column::Prims { pk: PrimKind::Bool, .. })
                && !vs[j].nullable)
        } by {
            if j < vs.len() - 1 {
                assert(vs.drop_last()[j] == vs[j]);
            }
        }
    }
}

/// The exec logical length of a well-formed column.
pub fn length(c: &Column) -> (n: usize)
    requires
        wf_col(*c),
    ensures
        n == col_len(*c),
    decreases *c, 0int,
{
    match c {
        Column::Prims { values, .. } => values.len(),
        Column::Bytes { offsets, .. } => offsets.len() - 1,
        Column::FixedBytes { size, data, .. } => data.len() / *size,
        Column::List { offsets, .. } => offsets.len() - 1,
        Column::FixedList { size, item, .. } => {
            proof {
                assert(decreases_to!(*c, 0int => c->FixedList_item, 0int));
                assert(decreases_to!(c->FixedList_item, 0int => (*c->FixedList_item).col, 0int));
            }
            let n = length(&item.col);
            n / *size
        },
        Column::Record { fields, .. } => {
            proof {
                assert(decreases_to!(*c, 0int => c->Record_fields, 0int));
                assert(decreases_to!(c->Record_fields, 0int => c->Record_fields@, 0int));
                assert(decreases_to!(c->Record_fields@, 0int => c->Record_fields@[0], 0int));
                lemma_wf_named_cols(c->Record_fields@, col_len(c->Record_fields@[0].col));
            }
            length(&fields[0].col)
        },
        Column::Union { type_ids, .. } => type_ids.len(),
    }
}

/// Builds [`wf_named_cols`] from its pointwise reading.
pub proof fn lemma_wf_named_cols_intro(fs: Seq<NamedCol>, n: nat)
    requires
        forall|j: int|
            0 <= j < fs.len() ==> wf_col((#[trigger] fs[j]).col) && col_len(fs[j].col) == n,
    ensures
        wf_named_cols(fs, n),
    decreases fs.len(),
{
    if fs.len() > 0 {
        assert(forall|j: int|
            0 <= j < fs.drop_last().len() ==> #[trigger] fs.drop_last()[j] == fs[j]);
        lemma_wf_named_cols_intro(fs.drop_last(), n);
    }
}

/// Builds [`wf_variant_cols`] from its pointwise reading.
pub proof fn lemma_wf_variant_cols_intro(vs: Seq<VariantCol>)
    requires
        forall|j: int|
            0 <= j < vs.len() ==> {
                &&& wf_col((#[trigger] vs[j]).col)
                &&& (vs[j].unit ==> (vs[j].col matches Column::Prims { pk: PrimKind::Bool, .. })
                    && !vs[j].nullable)
            },
    ensures
        wf_variant_cols(vs),
    decreases vs.len(),
{
    if vs.len() > 0 {
        assert(forall|j: int|
            0 <= j < vs.drop_last().len() ==> #[trigger] vs.drop_last()[j] == vs[j]);
        lemma_wf_variant_cols_intro(vs.drop_last());
    }
}

/// Builds [`named_cols_match`] from its pointwise reading.
pub proof fn lemma_named_cols_match_intro(fs: Seq<crate::schema::Field>, cs: Seq<NamedCol>)
    requires
        fs.len() == cs.len(),
        forall|j: int|
            0 <= j < fs.len() ==> {
                &&& (#[trigger] cs[j]).name@ == fs[j].name@
                &&& cs[j].nullable == fs[j].nullable
                &&& col_matches(fs[j].dtype, cs[j].col)
            },
    ensures
        named_cols_match(fs, cs),
    decreases fs.len(),
{
    if fs.len() > 0 {
        assert(forall|j: int|
            0 <= j < fs.drop_last().len() ==> #[trigger] fs.drop_last()[j] == fs[j]);
        assert(forall|j: int|
            0 <= j < cs.drop_last().len() ==> #[trigger] cs.drop_last()[j] == cs[j]);
        lemma_named_cols_match_intro(fs.drop_last(), cs.drop_last());
    }
}

/// Builds [`variant_cols_match`] from its pointwise reading.
pub proof fn lemma_variant_cols_match_intro(vs: Seq<crate::schema::Variant>, cs: Seq<VariantCol>)
    requires
        vs.len() == cs.len(),
        forall|j: int|
            0 <= j < vs.len() ==> {
                &&& (#[trigger] cs[j]).name@ == vs[j].name@
                &&& cs[j].nullable == vs[j].nullable
                &&& cs[j].unit == vs[j].unit
                &&& col_matches(vs[j].dtype, cs[j].col)
            },
    ensures
        variant_cols_match(vs, cs),
    decreases vs.len(),
{
    if vs.len() > 0 {
        assert(forall|j: int|
            0 <= j < vs.drop_last().len() ==> #[trigger] vs.drop_last()[j] == vs[j]);
        assert(forall|j: int|
            0 <= j < cs.drop_last().len() ==> #[trigger] cs.drop_last()[j] == cs[j]);
        lemma_variant_cols_match_intro(vs.drop_last(), cs.drop_last());
    }
}

/// Two field lists whose columns agree at position `i` assemble the same
/// record row there.
pub proof fn lemma_record_row_congruence(fs1: Seq<NamedCol>, fs2: Seq<NamedCol>, i: int)
    requires
        fs1.len() == fs2.len(),
        forall|j: int|
            0 <= j < fs1.len() ==> col_at((#[trigger] fs1[j]).col, i) == col_at(fs2[j].col, i),
    ensures
        record_row(fs1, i) == record_row(fs2, i),
{
    lemma_record_row(fs1, i);
    lemma_record_row(fs2, i);
    assert(record_row(fs1, i) =~= record_row(fs2, i));
}

/// A subrange within a common prefix is the same in both sequences.
pub proof fn lemma_prefix_subrange<T>(s1: Seq<T>, s2: Seq<T>, lo: int, hi: int)
    requires
        0 <= lo <= hi <= s1.len(),
        s1.len() <= s2.len(),
        forall|k: int| 0 <= k < s1.len() ==> s1[k] == s2[k],
    ensures
        s1.subrange(lo, hi) == s2.subrange(lo, hi),
{
    assert(s1.subrange(lo, hi) =~= s2.subrange(lo, hi));
}

/// How many of the first positions of a type-id buffer carry tag `t`.
pub open spec fn count_tag(tids: Seq<usize>, t: int) -> nat
    decreases tids,
{
    if tids.len() == 0 {
        0
    } else {
        count_tag(tids.drop_last(), t) + (if tids.last() == t {
            1nat
        } else {
            0nat
        })
    }
}

/// Counting over one more entry adds one exactly for that entry's tag.
pub proof fn lemma_count_tag_push(tids: Seq<usize>, x: usize, t: int)
    ensures
        count_tag(tids.push(x), t) == count_tag(tids, t) + (if x == t {
            1nat
        } else {
            0nat
        }),
{
    assert(tids.push(x).drop_last() =~= tids);
}

/// The canonical dense-union layout that appending alone produces: each
/// variant column holds exactly the occurrences of its own tag, in append
/// order, so its length is that tag's count and each offset is the count
/// of equal tags before its position. Slicing trades this away (it keeps
/// the variant columns whole under absolute offsets), so it is an
/// invariant of builders, not of every well-formed column.
pub open spec fn dense_canonical(c: Column) -> bool {
    c matches Column::Union {
        mode: crate::schema::UnionMode::Dense,
        variants,
        type_ids,
        offsets,
    } ==> {
        &&& forall|v: int|
            0 <= v < variants@.len() ==> #[trigger] variant_lens(variants@)[v] == count_tag(
                type_ids@,
                v,
            )
        &&& forall|i: int|
            0 <= i < type_ids@.len() ==> #[trigger] offsets@[i] == count_tag(
                type_ids@.take(i),
                type_ids@[i] as int,
            )
    }
}

} // verus!
