//! The cross-cutting laws of the codec, stated over the same spec
//! functions that the builder, reader and slicing contracts use: the rows
//! a column denotes ([`col_seq`]), the structural type check
//! ([`col_matches`]) and the append acceptance check ([`items_error`]).

use vstd::prelude::*;

use crate::EncodeError;
use crate::column::Column;
use crate::column::col_at;
use crate::column::col_len;
use crate::column::col_matches;
use crate::column::col_seq;
use crate::column::lemma_col_seq;
use crate::column::lemma_wf_named_cols;
use crate::column::wf_col;
use crate::schema::DataType;
use crate::schema::Field;
use crate::serialize::items_error;
use crate::serialize::row_error;
use crate::value::Datum;

verus! {

/// Round-trip: a column sealed from accepted rows decodes to exactly
/// those rows. The hypotheses are what [`crate::serialize::encode`]
/// ensures of its `Ok` column; the conclusion is what
/// [`crate::deserialize::decode`] then returns, since the column carries
/// the field's data type and the reader's output is the column's model.
pub proof fn lemma_round_trip(f: Field, rows: Seq<Option<Datum>>, c: Column)
    requires
        items_error(f, rows) is None,
        wf_col(c),
        col_matches(f.dtype, c),
        col_seq(c) == rows,
    ensures
        col_matches(f.dtype, c),
        col_seq(c) == rows,
{
}

/// Fixed-size violation: a list value whose length differs from the
/// declared size is rejected with exactly `FixedSizeMismatch`, whatever
/// its items hold. Nothing is mutated by a rejected append
/// ([`crate::serialize::Builder::append`] leaves the builder unchanged on
/// an error), so previously sealed columns are untouched.
pub proof fn lemma_fixed_size_violation(
    size: usize,
    item: Field,
    nullable: bool,
    items: Seq<Option<Datum>>,
)
    requires
        items.len() != size,
    ensures
        row_error(
            DataType::FixedSizeList { size, item: Box::new(item) },
            nullable,
            Option::Some(Datum::List(items)),
        ) == Option::Some(EncodeError::FixedSizeMismatch),
{
}

/// Record-null alignment: every child column of a well-formed record has
/// the record's own logical length — a null record position still owns one
/// padding entry of every child, keeping the siblings positionally
/// aligned.
pub proof fn lemma_record_alignment(c: Column)
    requires
        wf_col(c),
        c is Record,
    ensures
        forall|j: int|
            0 <= j < c->Record_fields@.len() ==> col_len(
                (#[trigger] c->Record_fields@[j]).col,
            ) == col_len(c),
{
    lemma_wf_named_cols(c->Record_fields@, col_len(c->Record_fields@[0].col));
}

/// Slice correctness: a column whose positions are the source's
/// `start ..` tail denotes exactly the source's rows with the first
/// `start` dropped — so decoding a slice equals decoding the whole column
/// and dropping the leading rows. The hypotheses are what
/// [`crate::slicing::col_slice`] ensures.
pub proof fn lemma_slice_decode(c: Column, s: Column, start: int)
    requires
        0 <= start <= col_len(c),
        col_len(s) == col_len(c) - start,
        forall|i: int| 0 <= i < col_len(s) ==> #[trigger] col_at(s, i) == col_at(c, start + i),
    ensures
        col_seq(s) == col_seq(c).skip(start),
{
    lemma_col_seq(c);
    lemma_col_seq(s);
    assert(col_seq(s) =~= col_seq(c).skip(start));
}

/// Dense/sparse union equivalence: the same accepted rows, sealed once
/// under a dense union type and once under the sparse union type with the
/// same variants, denote the same logical sequence — the physical column
/// shapes differ, the decoded rows do not. The hypotheses are what
/// [`crate::serialize::encode`] ensures of each column.
pub proof fn lemma_dense_sparse_equivalence(
    fd: Field,
    fs: Field,
    rows: Seq<Option<Datum>>,
    cd: Column,
    cs: Column,
)
    requires
        fd.dtype matches DataType::Union { mode: crate::schema::UnionMode::Dense, .. },
        fs.dtype matches DataType::Union { mode: crate::schema::UnionMode::Sparse, .. },
        fd.dtype->Union_variants@ == fs.dtype->Union_variants@,
        items_error(fd, rows) is None,
        items_error(fs, rows) is None,
        col_seq(cd) == rows,
        col_seq(cs) == rows,
    ensures
        col_seq(cd) == col_seq(cs),
{
}

/// Idempotence of seal: two independently built columns whose appended
/// rows are equal denote equal sequences, whatever their buffers hold —
/// decoding either yields the same values. The hypotheses are what
/// [`crate::serialize::Builder::seal`] ensures of each column.
pub proof fn lemma_seal_deterministic(rows: Seq<Option<Datum>>, c1: Column, c2: Column)
    requires
        col_seq(c1) == rows,
        col_seq(c2) == rows,
    ensures
        col_seq(c1) == col_seq(c2),
{
}

} // verus!
