//! The read side: validity- and offset-aware reconstruction of values.
//!
//! [`decode`] first checks the column's embedded data type structurally
//! against the expected descriptor — top kind first, children only when the
//! kinds agree — and fails with [`SchemaError::SchemaMismatch`] before any
//! buffer is read; on a match it reconstructs every position's value,
//! exactly as the column model [`col_at`] states.

use vstd::prelude::*;

use crate::SchemaError;
use crate::column::Column;
use crate::column::col_at;
use crate::column::col_len;
use crate::column::col_matches;
use crate::column::col_seq;
use crate::column::lemma_col_seq;
use crate::column::lemma_named_cols_match;
use crate::column::lemma_offsets_bound;
use crate::column::lemma_offsets_mono;
use crate::column::lemma_variant_cols_match;
use crate::column::lemma_variant_lens;
use crate::column::lemma_wf_named_cols;
use crate::column::lemma_wf_variant_cols;
use crate::column::named_cols_match;
use crate::column::record_row;
use crate::column::variant_cols_match;
use crate::column::variant_lens;
use crate::column::vbit;
use crate::column::wf_col;
use crate::schema::DataType;
use crate::schema::UnionMode;
use crate::value::Value;
use crate::value::bytes_eq;
use crate::value::lemma_svw;
use crate::value::opt_val_clone;
use crate::value::ovw;
use crate::value::svw;
use crate::value::val_clone;

verus! {

/// Reads the validity bit of position `i`.
fn get_vbit(validity: &Option<Vec<bool>>, i: usize) -> (r: bool)
    ensures
        r == vbit(*validity, i as int),
{
    match validity {
        Option::None => true,
        Option::Some(v) => {
            if i < v.len() {
                v[i]
            } else {
                true
            }
        },
    }
}

/// Copies the byte range `lo .. hi` out of the backing store.
fn copy_range(data: &Vec<u8>, lo: usize, hi: usize) -> (out: Vec<u8>)
    requires
        lo <= hi <= data@.len(),
    ensures
        out@ == data@.subrange(lo as int, hi as int),
{
    let mut out: Vec<u8> = Vec::new();
    let mut k: usize = lo;
    while k < hi
        invariant
            lo <= k <= hi,
            out@.len() == k - lo,
            forall|q: int| 0 <= q < out@.len() ==> out@[q] == data@[lo + q],
        decreases hi - k,
    {
        out.push(data[k]);
        k = k + 1;
    }
    proof {
        assert(out@ =~= data@.subrange(lo as int, hi as int));
    }
    out
}

/// Structurally compares the expected data type against the column's
/// embedded one: the top kind first, then sizes, modes, child names,
/// nullability and unit flags, then the children, in order.
pub fn col_matches_x(dt: &DataType, c: &Column) -> (r: bool)
    ensures
        r == col_matches(*dt, *c),
    decreases *dt, 0int,
{
    match dt {
        DataType::Primitive(pk) => {
            match c {
                Column::Prims { pk: cpk, .. } => *pk == *cpk,
                _ => false,
            }
        },
        DataType::Utf8 { large } => {
            match c {
                Column::Bytes { text, large: cl, .. } => *text && *cl == *large,
                _ => false,
            }
        },
        DataType::Binary { large } => {
            match c {
                Column::Bytes { text, large: cl, .. } => !*text && *cl == *large,
                _ => false,
            }
        },
        DataType::FixedSizeBinary { size } => {
            match c {
                Column::FixedBytes { size: cs, .. } => *cs == *size,
                _ => false,
            }
        },
        DataType::List { large, item } => {
            match c {
                Column::List { large: cl, item: ci, .. } => {
                    proof {
                        assert(decreases_to!(*dt, 0int => dt->List_item, 0int));
                        assert(decreases_to!(dt->List_item, 0int =>
                            (*dt->List_item).dtype, 0int));
                    }
                    *cl == *large && bytes_eq(&ci.name, &item.name) && ci.nullable
                        == item.nullable && col_matches_x(&item.dtype, &ci.col)
                },
                _ => false,
            }
        },
        DataType::FixedSizeList { size, item } => {
            match c {
                Column::FixedList { size: cs, item: ci, .. } => {
                    proof {
                        assert(decreases_to!(*dt, 0int => dt->FixedSizeList_item, 0int));
                        assert(decreases_to!(dt->FixedSizeList_item, 0int =>
                            (*dt->FixedSizeList_item).dtype, 0int));
                    }
                    *cs == *size && bytes_eq(&ci.name, &item.name) && ci.nullable
                        == item.nullable && col_matches_x(&item.dtype, &ci.col)
                },
                _ => false,
            }
        },
        DataType::Record { fields } => {
            match c {
                Column::Record { fields: cfs, .. } => {
                    if fields.len() != cfs.len() {
                        proof {
                            if named_cols_match(fields@, cfs@) {
                                assert(false);
                            }
                        }
                        false
                    } else {
                        let mut j: usize = 0;
                        while j < fields.len()
                            invariant
                                j <= fields.len(),
                                fields@.len() == cfs@.len(),
                                named_cols_match(fields@.take(j as int), cfs@.take(j as int)),
                            decreases fields.len() - j,
                        {
                            proof {
                                assert(decreases_to!(*dt, 0int => dt->Record_fields, 0int));
                                assert(decreases_to!(dt->Record_fields, 0int =>
                                    dt->Record_fields@, 0int));
                                assert(decreases_to!(dt->Record_fields@, 0int =>
                                    dt->Record_fields@[j as int], 0int));
                                assert(decreases_to!(dt->Record_fields@[j as int], 0int =>
                                    dt->Record_fields@[j as int].dtype, 0int));
                            }
                            let f = &fields[j];
                            let nc = &cfs[j];
                            let ok = bytes_eq(&nc.name, &f.name) && nc.nullable == f.nullable
                                && col_matches_x(&f.dtype, &nc.col);
                            proof {
                                assert(fields@.take(j as int + 1).drop_last() =~= fields@.take(
                                    j as int,
                                ));
                                assert(cfs@.take(j as int + 1).drop_last() =~= cfs@.take(
                                    j as int,
                                ));
                            }
                            if !ok {
                                proof {
                                    if named_cols_match(fields@, cfs@) {
                                        lemma_named_cols_match(fields@, cfs@);
                                        assert(false);
                                    }
                                }
                                return false;
                            }
                            j = j + 1;
                        }
                        proof {
                            assert(fields@.take(fields@.len() as int) =~= fields@);
                            assert(cfs@.take(cfs@.len() as int) =~= cfs@);
                        }
                        true
                    }
                },
                _ => false,
            }
        },
        DataType::Union { mode, variants } => {
            match c {
                Column::Union { mode: cm, variants: cvs, .. } => {
                    if !(*cm == *mode) || variants.len() != cvs.len() {
                        proof {
                            if variant_cols_match(variants@, cvs@) && c->Union_mode
                                == dt->Union_mode {
                                assert(false);
                            }
                        }
                        false
                    } else {
                        let mut j: usize = 0;
                        while j < variants.len()
                            invariant
                                j <= variants.len(),
                                variants@.len() == cvs@.len(),
                                variant_cols_match(
                                    variants@.take(j as int),
                                    cvs@.take(j as int),
                                ),
                            decreases variants.len() - j,
                        {
                            proof {
                                assert(decreases_to!(*dt, 0int => dt->Union_variants, 0int));
                                assert(decreases_to!(dt->Union_variants, 0int =>
                                    dt->Union_variants@, 0int));
                                assert(decreases_to!(dt->Union_variants@, 0int =>
                                    dt->Union_variants@[j as int], 0int));
                                assert(decreases_to!(dt->Union_variants@[j as int], 0int =>
                                    dt->Union_variants@[j as int].dtype, 0int));
                            }
                            let dv = &variants[j];
                            let vc = &cvs[j];
                            let ok = bytes_eq(&vc.name, &dv.name) && vc.nullable == dv.nullable
                                && vc.unit == dv.unit && col_matches_x(&dv.dtype, &vc.col);
                            proof {
                                assert(variants@.take(j as int + 1).drop_last() =~= variants@.take(
                                    j as int,
                                ));
                                assert(cvs@.take(j as int + 1).drop_last() =~= cvs@.take(
                                    j as int,
                                ));
                            }
                            if !ok {
                                proof {
                                    if variant_cols_match(variants@, cvs@) {
                                        lemma_variant_cols_match(variants@, cvs@);
                                        assert(false);
                                    }
                                }
                                return false;
                            }
                            j = j + 1;
                        }
                        proof {
                            assert(variants@.take(variants@.len() as int) =~= variants@);
                            assert(cvs@.take(cvs@.len() as int) =~= cvs@);
                        }
                        true
                    }
                },
                _ => false,
            }
        },
    }
}

/// Reconstructs every position of a well-formed column: one possibly
/// missing value per logical position, exactly the column's model.
pub fn decode_values(c: &Column) -> (out: Vec<Option<Value>>)
    requires
        wf_col(*c),
    ensures
        out@.len() == col_len(*c),
        forall|i: int| 0 <= i < col_len(*c) ==> ovw(#[trigger] out@[i]) == col_at(*c, i),
    decreases *c, 0int,
{
    match c {
        Column::Prims { values, validity, .. } => {
            let mut out: Vec<Option<Value>> = Vec::new();
            let mut i: usize = 0;
            while i < values.len()
                invariant
                    i <= values.len(),
                    out@.len() == i,
                    forall|q: int| 0 <= q < i ==> ovw(#[trigger] out@[q]) == col_at(*c, q),
                decreases values.len() - i,
            {
                if get_vbit(validity, i) {
                    out.push(Option::Some(Value::Prim(values[i])));
                } else {
                    out.push(Option::None);
                }
                i = i + 1;
            }
            out
        },
        Column::Bytes { text, data, offsets, validity, .. } => {
            let n = offsets.len() - 1;
            let mut out: Vec<Option<Value>> = Vec::new();
            let mut i: usize = 0;
            while i < n
                invariant
                    i <= n,
                    out@.len() == i,
                    forall|q: int| 0 <= q < i ==> ovw(#[trigger] out@[q]) == col_at(*c, q),
                decreases n - i,
            {
                if get_vbit(validity, i) {
                    proof {
                        lemma_offsets_mono(offsets@, data@.len(), i as int, i as int + 1);
                        lemma_offsets_bound(offsets@, data@.len(), i as int + 1);
                    }
                    let lo = offsets[i];
                    let hi = offsets[i + 1];
                    let payload = copy_range(data, lo, hi);
                    if *text {
                        out.push(Option::Some(Value::Text(payload)));
                    } else {
                        out.push(Option::Some(Value::Blob(payload)));
                    }
                } else {
                    out.push(Option::None);
                }
                i = i + 1;
            }
            out
        },
        Column::FixedBytes { size, data, validity } => {
            let sz = *size;
            let n = data.len() / sz;
            proof {
                vstd::arithmetic::div_mod::lemma_fundamental_div_mod(
                    data@.len() as int,
                    sz as int,
                );
                assert(data@.len() == sz * n);
            }
            let mut out: Vec<Option<Value>> = Vec::new();
            let mut i: usize = 0;
            while i < n
                invariant
                    i <= n,
                    out@.len() == i,
                    data@.len() == sz * n,
                    forall|q: int| 0 <= q < i ==> ovw(#[trigger] out@[q]) == col_at(*c, q),
                decreases n - i,
            {
                proof {
                    assert((i + 1) * sz <= n * sz) by (nonlinear_arith)
                        requires 0 <= i < n, sz >= 1;
                    assert(n * sz == sz * n) by (nonlinear_arith);
                    assert(0 <= i * sz <= (i + 1) * sz) by (nonlinear_arith)
                        requires 0 <= i, sz >= 1;
                    assert(i as int * sz == (i * sz) as int) by (nonlinear_arith)
                        requires i * sz <= usize::MAX;
                }
                if get_vbit(validity, i) {
                    let dl = data.len();
                    proof {
                        assert((i + 1) * sz <= data@.len());
                        assert(i * sz <= data@.len());
                        assert((i + 1) * sz == i * sz + sz) by (nonlinear_arith);
                    }
                    let lo = i * sz;
                    let hi = lo + sz;
                    let payload = copy_range(data, lo, hi);
                    out.push(Option::Some(Value::Blob(payload)));
                } else {
                    out.push(Option::None);
                }
                i = i + 1;
            }
            out
        },
        Column::List { item, offsets, validity, .. } => {
            proof {
                assert(decreases_to!(*c, 0int => c->List_item, 0int));
                assert(decreases_to!(c->List_item, 0int => (*c->List_item).col, 0int));
            }
            let child_vals = decode_values(&item.col);
            proof {
                lemma_col_seq(item.col);
            }
            let n = offsets.len() - 1;
            let mut out: Vec<Option<Value>> = Vec::new();
            let mut i: usize = 0;
            while i < n
                invariant
                    i <= n,
                    out@.len() == i,
                    forall|q: int| 0 <= q < i ==> ovw(#[trigger] out@[q]) == col_at(*c, q),
                decreases n - i,
            {
                if get_vbit(validity, i) {
                    proof {
                        lemma_offsets_mono(offsets@, col_len(item.col), i as int, i as int + 1);
                        lemma_offsets_bound(offsets@, col_len(item.col), i as int + 1);
                    }
                    let lo = offsets[i];
                    let hi = offsets[i + 1];
                    let mut part: Vec<Option<Value>> = Vec::new();
                    let mut k: usize = lo;
                    while k < hi
                        invariant
                            lo <= k <= hi,
                            hi <= child_vals@.len(),
                            part@.len() == k - lo,
                            forall|q: int|
                                0 <= q < part@.len() ==> ovw(#[trigger] part@[q]) == ovw(
                                    child_vals@[lo + q],
                                ),
                        decreases hi - k,
                    {
                        let w = opt_val_clone(&child_vals[k]);
                        part.push(w);
                        k = k + 1;
                    }
                    proof {
                        lemma_svw(part@);
                        assert(svw(part@) =~= col_seq(item.col).subrange(
                            lo as int,
                            hi as int,
                        ));
                    }
                    out.push(Option::Some(Value::List(part)));
                } else {
                    out.push(Option::None);
                }
                i = i + 1;
            }
            out
        },
        Column::FixedList { size, item, validity } => {
            proof {
                assert(decreases_to!(*c, 0int => c->FixedList_item, 0int));
                assert(decreases_to!(c->FixedList_item, 0int => (*c->FixedList_item).col, 0int));
            }
            let child_vals = decode_values(&item.col);
            proof {
                lemma_col_seq(item.col);
            }
            let sz = *size;
            let n = crate::column::length(&item.col) / sz;
            proof {
                vstd::arithmetic::div_mod::lemma_fundamental_div_mod(
                    col_len(item.col) as int,
                    sz as int,
                );
                assert(col_len(item.col) == sz * n);
            }
            let mut out: Vec<Option<Value>> = Vec::new();
            let mut i: usize = 0;
            while i < n
                invariant
                    i <= n,
                    out@.len() == i,
                    col_len(item.col) == sz * n,
                    child_vals@.len() == col_len(item.col),
                    forall|m: int|
                        0 <= m < col_len(item.col) ==> ovw(#[trigger] child_vals@[m]) == col_at(
                            item.col,
                            m,
                        ),
                    forall|q: int| 0 <= q < i ==> ovw(#[trigger] out@[q]) == col_at(*c, q),
                decreases n - i,
            {
                proof {
                    assert((i + 1) * sz <= n * sz) by (nonlinear_arith)
                        requires 0 <= i < n, sz >= 1;
                    assert(n * sz == sz * n) by (nonlinear_arith);
                    assert(0 <= i * sz <= (i + 1) * sz) by (nonlinear_arith)
                        requires 0 <= i, sz >= 1;
                    assert((i + 1) * sz == i * sz + sz) by (nonlinear_arith);
                }
                if get_vbit(validity, i) {
                    let cl = child_vals.len();
                    proof {
                        assert((i + 1) * sz <= col_len(item.col));
                        assert(i * sz <= col_len(item.col));
                    }
                    let lo = i * sz;
                    let hi = lo + sz;
                    let mut part: Vec<Option<Value>> = Vec::new();
                    let mut k: usize = lo;
                    while k < hi
                        invariant
                            lo <= k <= hi,
                            hi <= child_vals@.len(),
                            part@.len() == k - lo,
                            forall|q: int|
                                0 <= q < part@.len() ==> ovw(#[trigger] part@[q]) == ovw(
                                    child_vals@[lo + q],
                                ),
                        decreases hi - k,
                    {
                        let w = opt_val_clone(&child_vals[k]);
                        part.push(w);
                        k = k + 1;
                    }
                    proof {
                        lemma_svw(part@);
                        assert(svw(part@) =~= col_seq(item.col).subrange(
                            lo as int,
                            hi as int,
                        ));
                    }
                    out.push(Option::Some(Value::List(part)));
                } else {
                    out.push(Option::None);
                }
                i = i + 1;
            }
            out
        },
        Column::Record { fields, validity } => {
            let ghost n = col_len(*c);
            proof {
                lemma_wf_named_cols(fields@, col_len(fields@[0].col));
            }
            let mut cols_vals: Vec<Vec<Option<Value>>> = Vec::new();
            let mut j: usize = 0;
            while j < fields.len()
                invariant
                    j <= fields.len(),
                    cols_vals@.len() == j,
                    forall|q: int|
                        0 <= q < j ==> {
                            &&& (#[trigger] cols_vals@[q])@.len() == n
                            &&& forall|m: int|
                                0 <= m < n ==> ovw(#[trigger] cols_vals@[q]@[m]) == col_at(
                                    fields@[q].col,
                                    m,
                                )
                        },
                decreases fields.len() - j,
            {
                proof {
                    assert(decreases_to!(*c, 0int => c->Record_fields, 0int));
                    assert(decreases_to!(c->Record_fields, 0int => c->Record_fields@, 0int));
                    assert(decreases_to!(c->Record_fields@, 0int =>
                        c->Record_fields@[j as int], 0int));
                }
                let cv = decode_values(&fields[j].col);
                cols_vals.push(cv);
                j = j + 1;
            }
            let len = crate::column::length(&fields[0].col);
            let mut out: Vec<Option<Value>> = Vec::new();
            let mut i: usize = 0;
            while i < len
                invariant
                    i <= len,
                    len == n,
                    out@.len() == i,
                    cols_vals@.len() == fields@.len(),
                    forall|q: int|
                        0 <= q < fields@.len() ==> {
                            &&& (#[trigger] cols_vals@[q])@.len() == n
                            &&& forall|m: int|
                                0 <= m < n ==> ovw(#[trigger] cols_vals@[q]@[m]) == col_at(
                                    fields@[q].col,
                                    m,
                                )
                        },
                    forall|q: int| 0 <= q < i ==> ovw(#[trigger] out@[q]) == col_at(*c, q),
                decreases len - i,
            {
                if get_vbit(validity, i) {
                    let mut row: Vec<Option<Value>> = Vec::new();
                    let mut q: usize = 0;
                    while q < cols_vals.len()
                        invariant
                            q <= cols_vals@.len(),
                            i < n,
                            row@.len() == q,
                            forall|m: int|
                                0 <= m < q ==> ovw(#[trigger] row@[m]) == col_at(
                                    fields@[m].col,
                                    i as int,
                                ),
                        decreases cols_vals@.len() - q,
                    {
                        let w = opt_val_clone(&cols_vals[q][i]);
                        row.push(w);
                        q = q + 1;
                    }
                    proof {
                        lemma_svw(row@);
                        crate::column::lemma_record_row(fields@, i as int);
                        assert(svw(row@) =~= record_row(fields@, i as int));
                    }
                    out.push(Option::Some(Value::Record(row)));
                } else {
                    out.push(Option::None);
                }
                i = i + 1;
            }
            out
        },
        Column::Union { mode, variants, type_ids, offsets } => {
            proof {
                lemma_wf_variant_cols(variants@);
                lemma_variant_lens(variants@);
            }
            let mut var_vals: Vec<Vec<Option<Value>>> = Vec::new();
            let mut j: usize = 0;
            while j < variants.len()
                invariant
                    j <= variants.len(),
                    var_vals@.len() == j,
                    forall|q: int|
                        0 <= q < j ==> {
                            &&& (#[trigger] var_vals@[q])@.len() == col_len(variants@[q].col)
                            &&& forall|m: int|
                                0 <= m < col_len(variants@[q].col) ==> ovw(
                                    #[trigger] var_vals@[q]@[m],
                                ) == col_at(variants@[q].col, m)
                        },
                decreases variants.len() - j,
            {
                proof {
                    assert(decreases_to!(*c, 0int => c->Union_variants, 0int));
                    assert(decreases_to!(c->Union_variants, 0int => c->Union_variants@, 0int));
                    assert(decreases_to!(c->Union_variants@, 0int =>
                        c->Union_variants@[j as int], 0int));
                }
                let cv = decode_values(&variants[j].col);
                var_vals.push(cv);
                j = j + 1;
            }
            let is_dense = matches!(mode, UnionMode::Dense);
            let mut out: Vec<Option<Value>> = Vec::new();
            let mut i: usize = 0;
            while i < type_ids.len()
                invariant
                    i <= type_ids@.len(),
                    out@.len() == i,
                    var_vals@.len() == variants@.len(),
                    is_dense == (c->Union_mode is Dense),
                    forall|q: int|
                        0 <= q < variants@.len() ==> {
                            &&& (#[trigger] var_vals@[q])@.len() == col_len(variants@[q].col)
                            &&& forall|m: int|
                                0 <= m < col_len(variants@[q].col) ==> ovw(
                                    #[trigger] var_vals@[q]@[m],
                                ) == col_at(variants@[q].col, m)
                        },
                    forall|q: int| 0 <= q < i ==> ovw(#[trigger] out@[q]) == col_at(*c, q),
                decreases type_ids@.len() - i,
            {
                let t = type_ids[i];
                let vc = &variants[t];
                let p: usize = if is_dense {
                    offsets[i]
                } else {
                    i
                };
                proof {
                    if c->Union_mode is Dense {
                        assert(offsets@[i as int] < variant_lens(variants@)[type_ids@[
                            i as int] as int]);
                    } else {
                        assert(variant_lens(variants@)[type_ids@[i as int] as int]
                            == type_ids@.len());
                    }
                    assert(variant_lens(variants@)[t as int] == col_len(variants@[t as int].col));
                }
                if vc.unit {
                    out.push(Option::Some(Value::Tagged(t, Option::None)));
                } else {
                    match &var_vals[t][p] {
                        Option::None => {
                            if vc.nullable {
                                out.push(Option::Some(Value::Tagged(t, Option::None)));
                            } else {
                                out.push(Option::None);
                            }
                        },
                        Option::Some(w) => {
                            let cw = val_clone(w);
                            out.push(
                                Option::Some(Value::Tagged(t, Option::Some(Box::new(cw)))),
                            );
                        },
                    }
                }
                i = i + 1;
            }
            out
        },
    }
}

/// Decodes a sealed column against the expected data type. The structural
/// check runs first: a mismatching column is rejected with
/// [`SchemaError::SchemaMismatch`] before any buffer access, exactly when
/// [`col_matches`] fails; a matching one yields every position's value,
/// exactly the column's model.
pub fn decode(dt: &DataType, c: &Column) -> (r: Result<Vec<Option<Value>>, SchemaError>)
    requires
        wf_col(*c),
    ensures
        match r {
            Result::Ok(out) => {
                &&& col_matches(*dt, *c)
                &&& out@.len() == col_len(*c)
                &&& svw(out@) == col_seq(*c)
            },
            Result::Err(e) => !col_matches(*dt, *c) && e == SchemaError::SchemaMismatch,
        },
{
    if !col_matches_x(dt, c) {
        Result::Err(SchemaError::SchemaMismatch)
    } else {
        let out = decode_values(c);
        proof {
            lemma_svw(out@);
            lemma_col_seq(*c);
            assert(svw(out@) =~= col_seq(*c));
        }
        Result::Ok(out)
    }
}

} // verus!
