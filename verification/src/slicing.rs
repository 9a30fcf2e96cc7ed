//! Slicing: a contiguous sub-range of a sealed column.
//!
//! [`col_slice`] yields a column of the same data type whose positions are
//! the source's `start .. start + len`, so readers work over slices exactly
//! as over whole columns. List and byte-string offsets are rebased to the
//! slice start. Dense-union variant columns are not one-to-one with
//! logical positions, so they are kept whole and only the type-id and
//! offset buffers are cut; sparse-union variant columns are position
//! aligned and are sliced recursively.

use vstd::prelude::*;

use crate::column::Column;
use crate::column::NamedCol;
use crate::column::VariantCol;
use crate::column::col_at;
use crate::column::col_len;
use crate::column::col_matches;
use crate::column::col_seq;
use crate::column::lemma_col_seq;
use crate::column::lemma_offsets_bound;
use crate::column::lemma_offsets_mono;
use crate::column::lemma_record_row;
use crate::column::lemma_variant_lens;
use crate::column::lemma_wf_named_cols;
use crate::column::lemma_wf_named_cols_intro;
use crate::column::lemma_wf_variant_cols;
use crate::column::lemma_wf_variant_cols_intro;
use crate::column::offsets_ok;
use crate::column::record_row;
use crate::column::variant_lens;
use crate::column::vbit;
use crate::column::vlen_ok;
use crate::column::wf_col;
use crate::schema::DataType;
use crate::schema::UnionMode;
use crate::value::PrimValue;
use crate::value::bytes_clone;

verus! {

/// Cuts `start .. start + len` out of a validity bitmap; an absent bitmap
/// stays absent (every position present).
fn slice_validity(validity: &Option<Vec<bool>>, start: usize, len: usize, n: Ghost<nat>) -> (r:
    Option<Vec<bool>>)
    requires
        vlen_ok(*validity, n@),
        start + len <= n@,
    ensures
        vlen_ok(r, len as nat),
        forall|i: int| 0 <= i < len ==> vbit(r, i) == vbit(*validity, start + i),
{
    match validity {
        Option::None => Option::None,
        Option::Some(v) => {
            let vl = v.len();
            let mut out: Vec<bool> = Vec::new();
            let mut k: usize = 0;
            while k < len
                invariant
                    k <= len,
                    vl == v@.len(),
                    start + len <= v@.len(),
                    out@.len() == k,
                    forall|q: int| 0 <= q < k ==> out@[q] == v@[start + q],
                decreases len - k,
            {
                out.push(v[start + k]);
                k = k + 1;
            }
            Option::Some(out)
        },
    }
}

/// Copies the scalar payload range `lo .. hi`.
fn copy_prims_range(values: &Vec<PrimValue>, lo: usize, hi: usize) -> (out: Vec<PrimValue>)
    requires
        lo <= hi <= values@.len(),
    ensures
        out@ == values@.subrange(lo as int, hi as int),
{
    let mut out: Vec<PrimValue> = Vec::new();
    let mut k: usize = lo;
    while k < hi
        invariant
            lo <= k <= hi,
            out@.len() == k - lo,
            forall|q: int| 0 <= q < out@.len() ==> out@[q] == values@[lo + q],
        decreases hi - k,
    {
        out.push(values[k]);
        k = k + 1;
    }
    proof {
        assert(out@ =~= values@.subrange(lo as int, hi as int));
    }
    out
}

/// Copies the byte payload range `lo .. hi`.
fn copy_bytes_range(data: &Vec<u8>, lo: usize, hi: usize) -> (out: Vec<u8>)
    requires
        lo <= hi <= data@.len(),
    ensures
        out@ == data@.subrange(lo as int, hi as int),
{
    let mut out: Vec<u8> = Vec::new();
    let mut k: usize = lo;
    while k < hi
        invariant
            lo <= k <= hi,
            out@.len() == k - lo,
            forall|q: int| 0 <= q < out@.len() ==> out@[q] == data@[lo + q],
        decreases hi - k,
    {
        out.push(data[k]);
        k = k + 1;
    }
    proof {
        assert(out@ =~= data@.subrange(lo as int, hi as int));
    }
    out
}

/// Copies the index range `lo .. hi` of a type-id or offset buffer.
fn copy_usize_range(v: &Vec<usize>, lo: usize, hi: usize) -> (out: Vec<usize>)
    requires
        lo <= hi <= v@.len(),
    ensures
        out@ == v@.subrange(lo as int, hi as int),
{
    let mut out: Vec<usize> = Vec::new();
    let mut k: usize = lo;
    while k < hi
        invariant
            lo <= k <= hi,
            out@.len() == k - lo,
            forall|q: int| 0 <= q < out@.len() ==> out@[q] == v@[lo + q],
        decreases hi - k,
    {
        out.push(v[k]);
        k = k + 1;
    }
    proof {
        assert(out@ =~= v@.subrange(lo as int, hi as int));
    }
    out
}

/// Rebases `len + 1` offsets starting at entry `start` so that the first
/// rebased offset is zero.
fn rebase_offsets(offsets: &Vec<usize>, start: usize, len: usize, end: Ghost<nat>) -> (out: Vec<
    usize>)
    requires
        offsets_ok(offsets@, end@),
        start + len < offsets@.len(),
    ensures
        out@.len() == len + 1,
        forall|k: int|
            0 <= k <= len ==> #[trigger] out@[k] == offsets@[start + k] - offsets@[start as int],
    decreases len,
{
    let ol = offsets.len();
    let base = offsets[start];
    let mut out: Vec<usize> = Vec::new();
    let mut k: usize = 0;
    while k <= len
        invariant
            k <= len + 1,
            ol == offsets@.len(),
            start + len < offsets@.len(),
            base == offsets@[start as int],
            out@.len() == k,
            forall|q: int|
                0 <= q < k ==> #[trigger] out@[q] == offsets@[start + q] - offsets@[
                    start as int],
        decreases len + 1 - k,
    {
        proof {
            lemma_offsets_mono(offsets@, end@, start as int, start + k);
        }
        out.push(offsets[start + k] - base);
        k = k + 1;
    }
    out
}


/// Model of a byte-string slice: rebased offsets over the copied byte
/// window read back the source's positions `start .. start + len`.
#[verifier::rlimit(100)]
proof fn lemma_slice_bytes_model(c0: Column, r0: Column, start: int, len: int)
    requires
        wf_col(c0),
        c0 is Bytes,
        r0 is Bytes,
        0 <= start,
        0 <= len,
        start + len <= col_len(c0),
        r0->Bytes_text == c0->Bytes_text,
        r0->Bytes_offsets@.len() == len + 1,
        forall|k: int|
            0 <= k <= len ==> #[trigger] r0->Bytes_offsets@[k] == c0->Bytes_offsets@[start + k]
                - c0->Bytes_offsets@[start],
        r0->Bytes_data@ == c0->Bytes_data@.subrange(
            c0->Bytes_offsets@[start] as int,
            c0->Bytes_offsets@[start + len] as int,
        ),
        vlen_ok(r0->Bytes_validity, len as nat),
        forall|i: int|
            0 <= i < len ==> vbit(r0->Bytes_validity, i) == vbit(c0->Bytes_validity, start + i),
    ensures
        wf_col(r0),
        col_len(r0) == len,
        forall|i: int| 0 <= i < len ==> #[trigger] col_at(r0, i) == col_at(c0, start + i),
{
    let data = c0->Bytes_data;
    let offsets = c0->Bytes_offsets;
    let d = r0->Bytes_data;
    let offs = r0->Bytes_offsets;
    lemma_offsets_mono(offsets@, data@.len(), start, start + len);
    lemma_offsets_bound(offsets@, data@.len(), start + len);
    assert forall|k: int| 0 <= k && k + 1 < offs@.len() implies #[trigger] offs@[k] <= offs@[k
        + 1] by {
        lemma_offsets_mono(offsets@, data@.len(), start + k, start + k + 1);
    }
    assert(offs@[0] == 0);
    assert(offs@.last() == d@.len());
    assert(offsets_ok(offs@, d@.len()));
    assert(col_len(r0) == len);
    assert forall|i: int| 0 <= i < len implies #[trigger] col_at(r0, i) == col_at(c0, start
        + i) by {
        lemma_offsets_mono(offsets@, data@.len(), start, start + i);
        lemma_offsets_mono(offsets@, data@.len(), start + i, start + i + 1);
        lemma_offsets_mono(offsets@, data@.len(), start + i + 1, start + len);
        assert(d@.subrange(offs@[i] as int, offs@[i + 1] as int) =~= data@.subrange(
            offsets@[start + i] as int,
            offsets@[start + i + 1] as int,
        ));
    }
}

/// The relation between a list column and its slice: a recursively sliced
/// item column, rebased offsets, and a cut validity bitmap.
pub open spec fn slice_list_rel(c0: Column, r0: Column, start: int, len: int) -> bool {
    &&& wf_col(c0)
    &&& c0 is List
    &&& r0 is List
    &&& 0 <= start
    &&& 0 <= len
    &&& start + len <= col_len(c0)
    &&& wf_col((*r0->List_item).col)
    &&& col_len((*r0->List_item).col) == c0->List_offsets@[start + len]
        - c0->List_offsets@[start]
    &&& forall|m: int|
        0 <= m < col_len((*r0->List_item).col) ==> #[trigger] col_at((*r0->List_item).col, m)
            == col_at((*c0->List_item).col, c0->List_offsets@[start] + m)
    &&& r0->List_offsets@.len() == len + 1
    &&& forall|k: int|
        0 <= k <= len ==> #[trigger] r0->List_offsets@[k] == c0->List_offsets@[start + k]
            - c0->List_offsets@[start]
    &&& vlen_ok(r0->List_validity, len as nat)
    &&& forall|i: int|
        0 <= i < len ==> vbit(r0->List_validity, i) == vbit(c0->List_validity, start + i)
}

/// A list slice is well-formed and has the cut length.
#[verifier::rlimit(100)]
proof fn lemma_slice_list_model(c0: Column, r0: Column, start: int, len: int)
    requires
        slice_list_rel(c0, r0, start, len),
    ensures
        wf_col(r0),
        col_len(r0) == len,
{
    let child0 = (*c0->List_item).col;
    let child = (*r0->List_item).col;
    let offsets = c0->List_offsets;
    let offs = r0->List_offsets;
    lemma_offsets_mono(offsets@, col_len(child0), start, start + len);
    lemma_offsets_bound(offsets@, col_len(child0), start + len);
    assert forall|k: int| 0 <= k && k + 1 < offs@.len() implies #[trigger] offs@[k] <= offs@[k
        + 1] by {
        lemma_offsets_mono(offsets@, col_len(child0), start + k, start + k + 1);
    }
    assert(offs@[0] == 0);
    assert(offs@.last() == col_len(child));
    assert(offsets_ok(offs@, col_len(child)));
    assert(col_len(r0) == len);
}

/// A list slice's position `i` reads back the source's `start + i`.
#[verifier::rlimit(100)]
proof fn lemma_slice_list_at(c0: Column, r0: Column, start: int, len: int, i: int)
    requires
        slice_list_rel(c0, r0, start, len),
        0 <= i < len,
    ensures
        col_at(r0, i) == col_at(c0, start + i),
{
    let child0 = (*c0->List_item).col;
    let child = (*r0->List_item).col;
    let offsets = c0->List_offsets;
    let offs = r0->List_offsets;
    lemma_slice_list_model(c0, r0, start, len);
    lemma_col_seq(child0);
    lemma_col_seq(child);
    lemma_offsets_mono(offsets@, col_len(child0), start, start + i);
    lemma_offsets_mono(offsets@, col_len(child0), start + i, start + i + 1);
    lemma_offsets_mono(offsets@, col_len(child0), start + i + 1, start + len);
    lemma_offsets_bound(offsets@, col_len(child0), start + len);
    assert(col_seq(child).subrange(offs@[i] as int, offs@[i + 1] as int) =~= col_seq(
        child0,
    ).subrange(offsets@[start + i] as int, offsets@[start + i + 1] as int));
}

/// Takes the contiguous sub-range `start .. start + len` of a sealed
/// column, without reading any payload it does not own: the result is a
/// column of the same data type whose position `i` denotes the source's
/// position `start + i`.
pub fn col_slice(c: &Column, start: usize, len: usize) -> (r: Column)
    requires
        wf_col(*c),
        start + len <= col_len(*c),
    ensures
        wf_col(r),
        col_len(r) == len,
        forall|i: int| 0 <= i < len ==> #[trigger] col_at(r, i) == col_at(*c, start + i),
        forall|dt: DataType| col_matches(dt, *c) ==> #[trigger] col_matches(dt, r),
    decreases *c, 1int, 0int,
{
    match c {
        Column::Prims { .. } => slice_prims(c, start, len),
        Column::Bytes { .. } => slice_bytes(c, start, len),
        Column::FixedBytes { .. } => slice_fixed_bytes(c, start, len),
        Column::List { .. } => slice_list(c, start, len),
        Column::FixedList { .. } => slice_fixed_list(c, start, len),
        Column::Record { .. } => slice_record(c, start, len),
        Column::Union { .. } => slice_union(c, start, len),
    }
}

/// Slice of a scalar column.
fn slice_prims(c: &Column, start: usize, len: usize) -> (r: Column)
    requires
        wf_col(*c),
        start + len <= col_len(*c),
        c is Prims,
    ensures
        wf_col(r),
        col_len(r) == len,
        forall|i: int| 0 <= i < len ==> #[trigger] col_at(r, i) == col_at(*c, start + i),
        forall|dt: DataType| col_matches(dt, *c) ==> #[trigger] col_matches(dt, r),
    decreases *c, 0int, 0int,
{
    match c {
        Column::Prims { pk, values, validity } => {
            let vl = values.len();
            let vals = copy_prims_range(values, start, start + len);
            let vd = slice_validity(validity, start, len, Ghost(values@.len()));
            Column::Prims { pk: *pk, values: vals, validity: vd }
        },
        _ => {
            proof {
                assert(false);
            }
            Column::Prims {
                pk: crate::value::PrimKind::Bool,
                values: Vec::new(),
                validity: Option::None,
            }
        },
    }
}

/// Slice of a byte-string column: the owned byte window is copied and
/// the offsets are rebased to it.
#[verifier::rlimit(100)]
fn slice_bytes(c: &Column, start: usize, len: usize) -> (r: Column)
    requires
        wf_col(*c),
        start + len <= col_len(*c),
        c is Bytes,
    ensures
        wf_col(r),
        col_len(r) == len,
        forall|i: int| 0 <= i < len ==> #[trigger] col_at(r, i) == col_at(*c, start + i),
        forall|dt: DataType| col_matches(dt, *c) ==> #[trigger] col_matches(dt, r),
    decreases *c, 0int, 0int,
{
    match c {
        Column::Bytes { text, large, data, offsets, validity } => {
            let ol = offsets.len();
            proof {
                lemma_offsets_mono(offsets@, data@.len(), start as int, start + len);
                lemma_offsets_bound(offsets@, data@.len(), start + len);
            }
            let lo = offsets[start];
            let hi = offsets[start + len];
            let d = copy_bytes_range(data, lo, hi);
            let offs = rebase_offsets(offsets, start, len, Ghost(data@.len()));
            let vd = slice_validity(validity, start, len, Ghost((offsets@.len() - 1) as nat));
            let r0 = Column::Bytes {
                text: *text,
                large: *large,
                data: d,
                offsets: offs,
                validity: vd,
            };
            proof {
                lemma_slice_bytes_model(*c, r0, start as int, len as int);
            }
            r0
        },
        _ => {
            proof {
                assert(false);
            }
            Column::Prims {
                pk: crate::value::PrimKind::Bool,
                values: Vec::new(),
                validity: Option::None,
            }
        },
    }
}

/// Slice of a fixed-width byte-string column.
#[verifier::rlimit(100)]
fn slice_fixed_bytes(c: &Column, start: usize, len: usize) -> (r: Column)
    requires
        wf_col(*c),
        start + len <= col_len(*c),
        c is FixedBytes,
    ensures
        wf_col(r),
        col_len(r) == len,
        forall|i: int| 0 <= i < len ==> #[trigger] col_at(r, i) == col_at(*c, start + i),
        forall|dt: DataType| col_matches(dt, *c) ==> #[trigger] col_matches(dt, r),
    decreases *c, 0int, 0int,
{
    match c {
        Column::FixedBytes { size, data, validity } => {
            let sz = *size;
            let ghost n = data@.len() / sz as nat;
            proof {
                vstd::arithmetic::div_mod::lemma_fundamental_div_mod(
                    data@.len() as int,
                    sz as int,
                );
                assert(data@.len() == sz * n);
                assert((start + len) * sz <= n * sz) by (nonlinear_arith)
                    requires start + len <= n, sz >= 1;
                assert(n * sz == sz * n) by (nonlinear_arith);
                assert(0 <= start * sz <= (start + len) * sz) by (nonlinear_arith)
                    requires 0 <= start, sz >= 1;
                assert(n <= sz * n) by (nonlinear_arith)
                    requires sz >= 1, n >= 0;
            }
            let dl = data.len();
            proof {
                assert((start + len) * sz <= data@.len());
                assert(start + len <= data@.len());
            }
            let lo = start * sz;
            let hi = (start + len) * sz;
            let d = copy_bytes_range(data, lo, hi);
            let vd = slice_validity(validity, start, len, Ghost(n));
            let r0 = Column::FixedBytes { size: sz, data: d, validity: vd };
            proof {
                assert(d@.len() == hi - lo);
                assert((start + len) * sz - start * sz == len * sz) by (nonlinear_arith);
                assert((len * sz) % (sz as int) == 0) by (nonlinear_arith)
                    requires sz >= 1;
                assert((len * sz) / (sz as int) == len) by (nonlinear_arith)
                    requires sz >= 1;
                assert(col_len(r0) == len);
                assert forall|i: int| 0 <= i < len implies #[trigger] col_at(r0, i) == col_at(
                    *c,
                    start + i,
                ) by {
                    assert((i + 1) * sz <= len * sz) by (nonlinear_arith)
                        requires 0 <= i < len, sz >= 1;
                    assert(0 <= i * sz <= (i + 1) * sz) by (nonlinear_arith)
                        requires 0 <= i, sz >= 1;
                    assert((start + i) * sz == start * sz + i * sz) by (nonlinear_arith);
                    assert((start + i + 1) * sz == start * sz + (i + 1) * sz)
                        by (nonlinear_arith);
                    assert((start + i + 1) * sz <= (start + len) * sz) by (nonlinear_arith)
                        requires 0 <= i < len, sz >= 1;
                    assert(d@.subrange(i * sz, (i + 1) * sz) =~= data@.subrange(
                        (start + i) * sz,
                        (start + i + 1) * sz,
                    ));
                }
                assert(wf_col(r0));
            }
            r0
        },
        _ => {
            proof {
                assert(false);
            }
            Column::Prims {
                pk: crate::value::PrimKind::Bool,
                values: Vec::new(),
                validity: Option::None,
            }
        },
    }
}

/// Slice of a list column: the owned item window is sliced recursively
/// and the offsets are rebased to it.
#[verifier::rlimit(100)]
fn slice_list(c: &Column, start: usize, len: usize) -> (r: Column)
    requires
        wf_col(*c),
        start + len <= col_len(*c),
        c is List,
    ensures
        wf_col(r),
        col_len(r) == len,
        forall|i: int| 0 <= i < len ==> #[trigger] col_at(r, i) == col_at(*c, start + i),
        forall|dt: DataType| col_matches(dt, *c) ==> #[trigger] col_matches(dt, r),
    decreases *c, 0int, 0int,
{
    match c {
        Column::List { large, item, offsets, validity } => {
            proof {
                assert(decreases_to!(*c, 0int => c->List_item, 0int));
                assert(decreases_to!(c->List_item, 0int => (*c->List_item).col, 0int));
                lemma_offsets_mono(offsets@, col_len(item.col), start as int, start + len);
                lemma_offsets_bound(offsets@, col_len(item.col), start + len);
            }
            let ol = offsets.len();
            let lo = offsets[start];
            let hi = offsets[start + len];
            let child = col_slice(&item.col, lo, hi - lo);
            let offs = rebase_offsets(offsets, start, len, Ghost(col_len(item.col)));
            let vd = slice_validity(validity, start, len, Ghost((offsets@.len() - 1) as nat));
            let nm = bytes_clone(&item.name);
            let r0 = Column::List {
                large: *large,
                item: Box::new(NamedCol { name: nm, nullable: item.nullable, col: child }),
                offsets: offs,
                validity: vd,
            };
            proof {
                lemma_slice_list_model(*c, r0, start as int, len as int);
                assert forall|i: int| 0 <= i < len implies #[trigger] col_at(r0, i) == col_at(
                    *c,
                    start + i,
                ) by {
                    lemma_slice_list_at(*c, r0, start as int, len as int, i);
                }
                assert forall|dt: DataType| col_matches(dt, *c) implies #[trigger] col_matches(
                    dt,
                    r0,
                ) by {
                    assert(crate::column::item_col_matches(*dt->List_item, *c->List_item));
                    assert(col_matches((*dt->List_item).dtype, item.col));
                    assert(col_matches((*dt->List_item).dtype, child));
                    assert(crate::column::item_col_matches(*dt->List_item, *r0->List_item));
                }
            }
            r0
        },
        _ => {
            proof {
                assert(false);
            }
            Column::Prims {
                pk: crate::value::PrimKind::Bool,
                values: Vec::new(),
                validity: Option::None,
            }
        },
    }
}

/// Slice of a fixed-size list column.
#[verifier::rlimit(100)]
fn slice_fixed_list(c: &Column, start: usize, len: usize) -> (r: Column)
    requires
        wf_col(*c),
        start + len <= col_len(*c),
        c is FixedList,
    ensures
        wf_col(r),
        col_len(r) == len,
        forall|i: int| 0 <= i < len ==> #[trigger] col_at(r, i) == col_at(*c, start + i),
        forall|dt: DataType| col_matches(dt, *c) ==> #[trigger] col_matches(dt, r),
    decreases *c, 0int, 0int,
{
    match c {
        Column::FixedList { size, item, validity } => {
            proof {
                assert(decreases_to!(*c, 0int => c->FixedList_item, 0int));
                assert(decreases_to!(c->FixedList_item, 0int => (*c->FixedList_item).col, 0int));
            }
            let sz = *size;
            let ghost n = col_len(item.col) / sz as nat;
            proof {
                vstd::arithmetic::div_mod::lemma_fundamental_div_mod(
                    col_len(item.col) as int,
                    sz as int,
                );
                assert(col_len(item.col) == sz * n);
                assert((start + len) * sz <= n * sz) by (nonlinear_arith)
                    requires start + len <= n, sz >= 1;
                assert(n * sz == sz * n) by (nonlinear_arith);
                assert(0 <= start * sz <= (start + len) * sz) by (nonlinear_arith)
                    requires 0 <= start, sz >= 1;
            }
            let cl = crate::column::length(&item.col);
            proof {
                assert((start + len) * sz == start * sz + len * sz) by (nonlinear_arith);
                assert(0 <= len * sz) by (nonlinear_arith)
                    requires 0 <= len, sz >= 1;
                assert((start + len) * sz <= col_len(item.col));
                assert(n <= sz * n) by (nonlinear_arith)
                    requires sz >= 1, n >= 0;
                assert(start + len <= col_len(item.col));
            }
            let lo = start * sz;
            let child = col_slice(&item.col, lo, len * sz);
            let vd = slice_validity(validity, start, len, Ghost(n));
            let nm = bytes_clone(&item.name);
            let r0 = Column::FixedList {
                size: sz,
                item: Box::new(NamedCol { name: nm, nullable: item.nullable, col: child }),
                validity: vd,
            };
            proof {
                lemma_col_seq(child);
                lemma_col_seq(item.col);
                assert((len * sz) % (sz as int) == 0) by (nonlinear_arith)
                    requires sz >= 1;
                assert((len * sz) / (sz as int) == len) by (nonlinear_arith)
                    requires sz >= 1;
                assert(col_len(r0) == len);
                assert forall|i: int| 0 <= i < len implies #[trigger] col_at(r0, i) == col_at(
                    *c,
                    start + i,
                ) by {
                    assert((i + 1) * sz <= len * sz) by (nonlinear_arith)
                        requires 0 <= i < len, sz >= 1;
                    assert(0 <= i * sz <= (i + 1) * sz) by (nonlinear_arith)
                        requires 0 <= i, sz >= 1;
                    assert((start + i) * sz == start * sz + i * sz) by (nonlinear_arith);
                    assert((start + i + 1) * sz == start * sz + (i + 1) * sz)
                        by (nonlinear_arith);
                    assert((start + i + 1) * sz <= (start + len) * sz) by (nonlinear_arith)
                        requires 0 <= i < len, sz >= 1;
                    assert(col_seq(child).subrange(i * sz, (i + 1) * sz) =~= col_seq(
                        item.col,
                    ).subrange((start + i) * sz, (start + i + 1) * sz));
                }
                assert(wf_col(r0));
                assert forall|dt: DataType| col_matches(dt, *c) implies #[trigger] col_matches(
                    dt,
                    r0,
                ) by {
                    assert(crate::column::item_col_matches(
                        *dt->FixedSizeList_item,
                        *c->FixedList_item,
                    ));
                    assert(col_matches((*dt->FixedSizeList_item).dtype, item.col));
                    assert(col_matches((*dt->FixedSizeList_item).dtype, child));
                    assert(crate::column::item_col_matches(
                        *dt->FixedSizeList_item,
                        *r0->FixedList_item,
                    ));
                }
            }
            r0
        },
        _ => {
            proof {
                assert(false);
            }
            Column::Prims {
                pk: crate::value::PrimKind::Bool,
                values: Vec::new(),
                validity: Option::None,
            }
        },
    }
}

/// Slice of a record column: every child is sliced over the same range.
#[verifier::rlimit(100)]
fn slice_record(c: &Column, start: usize, len: usize) -> (r: Column)
    requires
        wf_col(*c),
        start + len <= col_len(*c),
        c is Record,
    ensures
        wf_col(r),
        col_len(r) == len,
        forall|i: int| 0 <= i < len ==> #[trigger] col_at(r, i) == col_at(*c, start + i),
        forall|dt: DataType| col_matches(dt, *c) ==> #[trigger] col_matches(dt, r),
    decreases *c, 0int, 0int,
{
    match c {
        Column::Record { fields, validity } => {
            let ghost n = col_len(fields@[0].col);
            proof {
                lemma_wf_named_cols(fields@, n);
            }
            let mut cols: Vec<NamedCol> = Vec::new();
            let mut j: usize = 0;
            while j < fields.len()
                invariant
                    j <= fields.len(),
                    cols@.len() == j,
                    start + len <= n,
                    forall|q: int|
                        0 <= q < j ==> {
                            &&& (#[trigger] cols@[q]).name@ == fields@[q].name@
                            &&& cols@[q].nullable == fields@[q].nullable
                            &&& wf_col(cols@[q].col)
                            &&& col_len(cols@[q].col) == len
                            &&& forall|m: int|
                                0 <= m < len ==> col_at(#[trigger] cols@[q].col, m) == col_at(
                                    fields@[q].col,
                                    start + m,
                                )
                            &&& forall|fdt: DataType|
                                col_matches(fdt, fields@[q].col) ==> #[trigger] col_matches(
                                    fdt,
                                    cols@[q].col,
                                )
                        },
                decreases fields.len() - j,
            {
                proof {
                    assert(decreases_to!(*c, 0int => c->Record_fields, 0int));
                    assert(decreases_to!(c->Record_fields, 0int => c->Record_fields@, 0int));
                    assert(decreases_to!(c->Record_fields@, 0int =>
                        c->Record_fields@[j as int], 0int));
                }
                let f = &fields[j];
                let child = col_slice(&f.col, start, len);
                let nm = bytes_clone(&f.name);
                cols.push(NamedCol { name: nm, nullable: f.nullable, col: child });
                j = j + 1;
            }
            let vd = slice_validity(validity, start, len, Ghost(n));
            let r0 = Column::Record { fields: cols, validity: vd };
            proof {
                lemma_wf_named_cols_intro(cols@, len as nat);
                assert(col_len(r0) == len);
                assert forall|i: int| 0 <= i < len implies #[trigger] col_at(r0, i) == col_at(
                    *c,
                    start + i,
                ) by {
                    lemma_record_row(cols@, i);
                    lemma_record_row(fields@, start + i);
                    assert(record_row(cols@, i) =~= record_row(fields@, start + i));
                }
                assert(wf_col(r0));
                assert forall|dt: DataType| col_matches(dt, *c) implies #[trigger] col_matches(
                    dt,
                    r0,
                ) by {
                    crate::column::lemma_named_cols_match(dt->Record_fields@, fields@);
                    crate::column::lemma_named_cols_match_intro(dt->Record_fields@, cols@);
                }
            }
            r0
        },
        _ => {
            proof {
                assert(false);
            }
            Column::Prims {
                pk: crate::value::PrimKind::Bool,
                values: Vec::new(),
                validity: Option::None,
            }
        },
    }
}

/// Slice of a union column: type ids are cut; dense offsets are cut
/// unchanged over whole variant columns, sparse variant columns are
/// sliced in position.
#[verifier::rlimit(100)]
fn slice_union(c: &Column, start: usize, len: usize) -> (r: Column)
    requires
        wf_col(*c),
        start + len <= col_len(*c),
        c is Union,
    ensures
        wf_col(r),
        col_len(r) == len,
        forall|i: int| 0 <= i < len ==> #[trigger] col_at(r, i) == col_at(*c, start + i),
        forall|dt: DataType| col_matches(dt, *c) ==> #[trigger] col_matches(dt, r),
    decreases *c, 0int, 0int,
{
    match c {
        Column::Union { mode, variants, type_ids, offsets } => {
            proof {
                lemma_wf_variant_cols(variants@);
                lemma_variant_lens(variants@);
            }
            let tl = type_ids.len();
            let is_dense = matches!(mode, UnionMode::Dense);
            let tids = copy_usize_range(type_ids, start, start + len);
            let mut cols: Vec<VariantCol> = Vec::new();
            let mut j: usize = 0;
            while j < variants.len()
                invariant
                    j <= variants.len(),
                    cols@.len() == j,
                    start + len <= type_ids@.len(),
                    is_dense == (c->Union_mode is Dense),
                    forall|q: int|
                        0 <= q < j ==> {
                            &&& (#[trigger] cols@[q]).name@ == variants@[q].name@
                            &&& cols@[q].nullable == variants@[q].nullable
                            &&& cols@[q].unit == variants@[q].unit
                            &&& wf_col(cols@[q].col)
                            &&& col_len(cols@[q].col) == (if is_dense {
                                col_len(variants@[q].col)
                            } else {
                                len as nat
                            })
                            &&& forall|m: int|
                                0 <= m < col_len(cols@[q].col) ==> col_at(
                                    #[trigger] cols@[q].col,
                                    m,
                                ) == col_at(
                                    variants@[q].col,
                                    (if is_dense {
                                        m
                                    } else {
                                        start + m
                                    }),
                                )
                            &&& (cols@[q].unit ==> (cols@[q].col matches Column::Prims {
                                pk: crate::value::PrimKind::Bool,
                                ..
                            }) && !cols@[q].nullable)
                            &&& forall|fdt: DataType|
                                col_matches(fdt, variants@[q].col) ==> #[trigger] col_matches(
                                    fdt,
                                    cols@[q].col,
                                )
                        },
                decreases variants.len() - j,
            {
                proof {
                    assert(decreases_to!(*c, 0int => c->Union_variants, 0int));
                    assert(decreases_to!(c->Union_variants, 0int => c->Union_variants@, 0int));
                    assert(decreases_to!(c->Union_variants@, 0int =>
                        c->Union_variants@[j as int], 0int));
                    assert(variant_lens(variants@)[j as int] == col_len(
                        variants@[j as int].col,
                    ));
                }
                let vc = &variants[j];
                let child = if is_dense {
                    let vl = crate::column::length(&vc.col);
                    col_slice(&vc.col, 0, vl)
                } else {
                    col_slice(&vc.col, start, len)
                };
                proof {
                    if vc.unit {
                        assert(col_matches(
                            DataType::Primitive(crate::value::PrimKind::Bool),
                            vc.col,
                        ));
                        assert(col_matches(
                            DataType::Primitive(crate::value::PrimKind::Bool),
                            child,
                        ));
                    }
                }
                let nm = bytes_clone(&vc.name);
                cols.push(
                    VariantCol { name: nm, nullable: vc.nullable, unit: vc.unit, col: child },
                );
                j = j + 1;
            }
            let offs = if is_dense {
                let ol = offsets.len();
                copy_usize_range(offsets, start, start + len)
            } else {
                Vec::new()
            };
            let r0 = Column::Union { mode: *mode, variants: cols, type_ids: tids, offsets: offs };
            proof {
                lemma_wf_variant_cols_intro(cols@);
                lemma_variant_lens(cols@);
                assert(col_len(r0) == len);
                assert forall|i: int| 0 <= i < len implies #[trigger] col_at(r0, i) == col_at(
                    *c,
                    start + i,
                ) by {
                    let t = type_ids@[start + i];
                    assert(tids@[i] == t);
                    assert(t < variants@.len());
                    assert(variant_lens(variants@)[t as int] == col_len(variants@[t as int].col));
                    assert(variant_lens(cols@)[t as int] == col_len(cols@[t as int].col));
                    assert(cols@[t as int].unit == variants@[t as int].unit);
                    assert(cols@[t as int].nullable == variants@[t as int].nullable);
                    if c->Union_mode is Dense {
                        assert(offs@[i] == offsets@[start + i]);
                        assert(offsets@[start + i] < variant_lens(variants@)[t as int]);
                        assert(col_len(cols@[t as int].col) == col_len(variants@[t as int].col));
                        assert(col_at(cols@[t as int].col, offsets@[start + i] as int) == col_at(
                            variants@[t as int].col,
                            offsets@[start + i] as int,
                        ));
                    } else {
                        assert(col_len(cols@[t as int].col) == len as nat);
                        assert(col_at(cols@[t as int].col, i) == col_at(
                            variants@[t as int].col,
                            start + i,
                        ));
                    }
                }
                assert(wf_col(r0));
                assert forall|dt: DataType| col_matches(dt, *c) implies #[trigger] col_matches(
                    dt,
                    r0,
                ) by {
                    crate::column::lemma_variant_cols_match(dt->Union_variants@, variants@);
                    crate::column::lemma_variant_cols_match_intro(dt->Union_variants@, cols@);
                }
            }
            r0
        },
        _ => {
            proof {
                assert(false);
            }
            Column::Prims {
                pk: crate::value::PrimKind::Bool,
                values: Vec::new(),
                validity: Option::None,
            }
        },
    }
}


} // verus!
