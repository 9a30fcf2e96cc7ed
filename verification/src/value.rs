//! Native values and their mathematical models.
//!
//! [`Value`] is the executable representation of one native datum; [`Datum`]
//! is its mathematical model, with byte strings as `Seq<u8>` and collections
//! as `Seq`. The view functions [`vw`], [`ovw`] and [`svw`] map one to the
//! other; every contract in the crate speaks of models, never of `Value`
//! directly.

use vstd::prelude::*;

verus! {

/// The closed set of scalar kinds a leaf column can carry.
///
/// `Float32`/`Float64` columns store IEEE-754 bit patterns, so that
/// round-tripping is bit-exact; `Decimal` stores a 128-bit integer together
/// with its declared precision and scale; `Date32` (days), `TimestampNano`
/// (nanoseconds) and `Time32Second` (seconds) are calendar kinds carried as
/// plain integers, converted at the edge by the caller.
#[derive(Clone, Copy, PartialEq, Eq, Structural, Debug)]
pub enum PrimKind {
    Bool,
    Int8,
    Int16,
    Int32,
    Int64,
    UInt8,
    UInt16,
    UInt32,
    UInt64,
    Float32,
    Float64,
    Decimal { precision: usize, scale: usize },
    Date32,
    TimestampNano,
    Time32Second,
}

/// One scalar payload, tagged with its physical width.
#[derive(Clone, Copy, PartialEq, Eq, Structural, Debug)]
pub enum PrimValue {
    Bool(bool),
    I8(i8),
    I16(i16),
    I32(i32),
    I64(i64),
    U8(u8),
    U16(u16),
    U32(u32),
    U64(u64),
    /// IEEE-754 single-precision bit pattern.
    F32Bits(u32),
    /// IEEE-754 double-precision bit pattern.
    F64Bits(u64),
    Dec(i128),
}

/// Whether scalar payload `pv` is a value of scalar kind `pk`.
pub open spec fn prim_fits(pk: PrimKind, pv: PrimValue) -> bool {
    match pk {
        PrimKind::Bool => pv is Bool,
        PrimKind::Int8 => pv is I8,
        PrimKind::Int16 => pv is I16,
        PrimKind::Int32 => pv is I32,
        PrimKind::Int64 => pv is I64,
        PrimKind::UInt8 => pv is U8,
        PrimKind::UInt16 => pv is U16,
        PrimKind::UInt32 => pv is U32,
        PrimKind::UInt64 => pv is U64,
        PrimKind::Float32 => pv is F32Bits,
        PrimKind::Float64 => pv is F64Bits,
        PrimKind::Decimal { .. } => pv is Dec,
        PrimKind::Date32 => pv is I32,
        PrimKind::TimestampNano => pv is I64,
        PrimKind::Time32Second => pv is I32,
    }
}

/// Exec check of [`prim_fits`].
pub fn prim_fits_x(pk: &PrimKind, pv: &PrimValue) -> (r: bool)
    ensures
        r == prim_fits(*pk, *pv),
{
    match pk {
        PrimKind::Bool => matches!(pv, PrimValue::Bool(_)),
        PrimKind::Int8 => matches!(pv, PrimValue::I8(_)),
        PrimKind::Int16 => matches!(pv, PrimValue::I16(_)),
        PrimKind::Int32 => matches!(pv, PrimValue::I32(_)),
        PrimKind::Int64 => matches!(pv, PrimValue::I64(_)),
        PrimKind::UInt8 => matches!(pv, PrimValue::U8(_)),
        PrimKind::UInt16 => matches!(pv, PrimValue::U16(_)),
        PrimKind::UInt32 => matches!(pv, PrimValue::U32(_)),
        PrimKind::UInt64 => matches!(pv, PrimValue::U64(_)),
        PrimKind::Float32 => matches!(pv, PrimValue::F32Bits(_)),
        PrimKind::Float64 => matches!(pv, PrimValue::F64Bits(_)),
        PrimKind::Decimal { .. } => matches!(pv, PrimValue::Dec(_)),
        PrimKind::Date32 => matches!(pv, PrimValue::I32(_)),
        PrimKind::TimestampNano => matches!(pv, PrimValue::I64(_)),
        PrimKind::Time32Second => matches!(pv, PrimValue::I32(_)),
    }
}

/// The zero payload of kind `pk`, pushed as placeholder under a null bit so
/// that buffer lengths track the logical length one to one.
pub fn prim_zero(pk: &PrimKind) -> (r: PrimValue)
    ensures
        prim_fits(*pk, r),
{
    match pk {
        PrimKind::Bool => PrimValue::Bool(false),
        PrimKind::Int8 => PrimValue::I8(0),
        PrimKind::Int16 => PrimValue::I16(0),
        PrimKind::Int32 => PrimValue::I32(0),
        PrimKind::Int64 => PrimValue::I64(0),
        PrimKind::UInt8 => PrimValue::U8(0),
        PrimKind::UInt16 => PrimValue::U16(0),
        PrimKind::UInt32 => PrimValue::U32(0),
        PrimKind::UInt64 => PrimValue::U64(0),
        PrimKind::Float32 => PrimValue::F32Bits(0),
        PrimKind::Float64 => PrimValue::F64Bits(0),
        PrimKind::Decimal { .. } => PrimValue::Dec(0),
        PrimKind::Date32 => PrimValue::I32(0),
        PrimKind::TimestampNano => PrimValue::I64(0),
        PrimKind::Time32Second => PrimValue::I32(0),
    }
}

/// One native datum.
///
/// A missing value at any level is the surrounding `Option`, not a `Value`
/// variant: rows, list items and record fields are all `Option<Value>`.
/// A union value is `Tagged(tag, payload)`; a unit variant carries no
/// payload (`None`), a nullable payload variant may carry `None` as well.
/// A deep, model-preserving copy is [`val_clone`].
#[derive(PartialEq, Debug)]
pub enum Value {
    Prim(PrimValue),
    /// Text payload, carried as its UTF-8 bytes.
    Text(Vec<u8>),
    /// Binary payload.
    Blob(Vec<u8>),
    List(Vec<Option<Value>>),
    Record(Vec<Option<Value>>),
    Tagged(usize, Option<Box<Value>>),
}

/// Mathematical model of a [`Value`].
#[verifier::ext_equal]
pub enum Datum {
    Prim(PrimValue),
    Text(Seq<u8>),
    Blob(Seq<u8>),
    List(Seq<Option<Datum>>),
    Record(Seq<Option<Datum>>),
    Tagged(usize, Option<Box<Datum>>),
}

/// Model of a possibly missing value.
pub open spec fn ovw(r: Option<Value>) -> Option<Datum>
    decreases r, 1int,
{
    match r {
        Option::None => Option::None,
        Option::Some(v) => Option::Some(vw(v)),
    }
}

/// The byte payload of a text or binary value, empty for any other.
pub open spec fn vbytes(v: Value) -> Seq<u8> {
    match v {
        Value::Text(b) => b@,
        Value::Blob(b) => b@,
        _ => Seq::<u8>::empty(),
    }
}

/// Model of a possibly missing borrowed value.
pub open spec fn orv(row: Option<&Value>) -> Option<Datum> {
    match row {
        Option::None => Option::None,
        Option::Some(v) => Option::Some(vw(*v)),
    }
}

/// Model of a sequence of possibly missing values.
pub open spec fn svw(s: Seq<Option<Value>>) -> Seq<Option<Datum>>
    decreases s, 2int,
{
    if s.len() == 0 {
        Seq::<Option<Datum>>::empty()
    } else {
        svw(s.drop_last()).push(ovw(s.last()))
    }
}

/// Model of a value.
pub open spec fn vw(v: Value) -> Datum
    decreases v, 0int,
{
    match v {
        Value::Prim(pv) => Datum::Prim(pv),
        Value::Text(b) => Datum::Text(b@),
        Value::Blob(b) => Datum::Blob(b@),
        Value::List(items) => Datum::List(svw(items@)),
        Value::Record(fields) => Datum::Record(svw(fields@)),
        Value::Tagged(t, p) => Datum::Tagged(
            t,
            match p {
                Option::None => Option::None,
                Option::Some(b) => Option::Some(Box::new(vw(*b))),
            },
        ),
    }
}

/// [`svw`] is the pointwise map of [`ovw`].
pub proof fn lemma_svw(s: Seq<Option<Value>>)
    ensures
        svw(s).len() == s.len(),
        forall|i: int| 0 <= i < s.len() ==> #[trigger] svw(s)[i] == ovw(s[i]),
    decreases s.len(),
{
    if s.len() > 0 {
        lemma_svw(s.drop_last());
    }
}

/// Deep copy of a possibly missing value, model-preserving.
pub fn opt_val_clone(r: &Option<Value>) -> (out: Option<Value>)
    ensures
        ovw(out) == ovw(*r),
    decreases *r, 1int,
{
    match r {
        Option::None => Option::None,
        Option::Some(v) => Option::Some(val_clone(v)),
    }
}

/// Deep copy of a vector of possibly missing values, model-preserving.
pub fn vals_clone(s: &Vec<Option<Value>>) -> (out: Vec<Option<Value>>)
    ensures
        svw(out@) == svw(s@),
    decreases *s, 2int,
{
    let mut out: Vec<Option<Value>> = Vec::new();
    let mut i: usize = 0;
    while i < s.len()
        invariant
            i <= s.len(),
            out@.len() == i,
            forall|j: int| 0 <= j < i ==> #[trigger] ovw(out@[j]) == ovw(s@[j]),
        decreases s.len() - i,
    {
        proof {
            assert(decreases_to!(*s, 2int => s@, 2int));
            assert(decreases_to!(s@, 2int => s@[i as int], 1int));
        }
        let c = opt_val_clone(&s[i]);
        out.push(c);
        i = i + 1;
    }
    proof {
        lemma_svw(out@);
        lemma_svw(s@);
        assert(svw(out@) =~= svw(s@));
    }
    out
}

/// Deep copy of a value, model-preserving.
pub fn val_clone(v: &Value) -> (out: Value)
    ensures
        vw(out) == vw(*v),
    decreases *v, 0int,
{
    match v {
        Value::Prim(pv) => Value::Prim(*pv),
        Value::Text(b) => Value::Text(bytes_clone(b)),
        Value::Blob(b) => Value::Blob(bytes_clone(b)),
        Value::List(items) => {
            proof {
                assert(decreases_to!(*v, 0int => v->List_0, 0int));
                assert(decreases_to!(v->List_0, 0int => v->List_0@, 2int));
            }
            let c = vals_clone(items);
            proof {
                assert(vw(Value::List(c)) =~= vw(*v));
            }
            Value::List(c)
        },
        Value::Record(fields) => {
            proof {
                assert(decreases_to!(*v, 0int => v->Record_0, 0int));
                assert(decreases_to!(v->Record_0, 0int => v->Record_0@, 2int));
            }
            let c = vals_clone(fields);
            proof {
                assert(vw(Value::Record(c)) =~= vw(*v));
            }
            Value::Record(c)
        },
        Value::Tagged(t, p) => {
            match p {
                Option::None => Value::Tagged(*t, Option::None),
                Option::Some(b) => {
                    let c = val_clone(b);
                    Value::Tagged(*t, Option::Some(Box::new(c)))
                },
            }
        },
    }
}

/// Byte-for-byte comparison of two byte vectors.
pub fn bytes_eq(a: &Vec<u8>, b: &Vec<u8>) -> (r: bool)
    ensures
        r == (a@ == b@),
{
    if a.len() != b.len() {
        return false;
    }
    let mut i: usize = 0;
    while i < a.len()
        invariant
            i <= a@.len(),
            a@.len() == b@.len(),
            forall|q: int| 0 <= q < i ==> a@[q] == b@[q],
        decreases a.len() - i,
    {
        if a[i] != b[i] {
            return false;
        }
        i = i + 1;
    }
    proof {
        assert(a@ =~= b@);
    }
    true
}

/// Byte-for-byte copy of a byte vector.
pub fn bytes_clone(b: &Vec<u8>) -> (out: Vec<u8>)
    ensures
        out@ == b@,
{
    let mut out: Vec<u8> = Vec::new();
    let mut i: usize = 0;
    while i < b.len()
        invariant
            i <= b.len(),
            out@ == b@.subrange(0, i as int),
        decreases b.len() - i,
    {
        out.push(b[i]);
        proof {
            assert(out@ =~= b@.subrange(0, i as int + 1));
        }
        i = i + 1;
    }
    proof {
        assert(out@ =~= b@);
    }
    out
}

} // verus!
