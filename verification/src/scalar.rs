//! The tagged scalar value model and its two total observations: the
//! conversion to a host-style dynamic value and the type tag.

use crate::digits::dec_rep;
use crate::digits::dec_string;
use crate::widen::exact_int_of;
use crate::widen::lemma_widen_i64_exact;
use crate::widen::lemma_widen_u64_exact;
use crate::widen::spec_widen_i64;
use crate::widen::spec_widen_u64;
use crate::widen::widen_i64;
use crate::widen::widen_u64;
use vstd::prelude::*;
use vstd::string::StringExecFns;

verus! {

/// A tagged scalar value of the document model.
///
/// The union is closed: both observations below match on every variant,
/// so a new variant cannot be added without revisiting them.
#[derive(Debug, Clone, PartialEq)]
pub enum ScalarValue {
    /// Raw binary data.
    Bytes(Vec<u8>),
    /// Text.
    Str(String),
    /// A signed 64-bit integer.
    Int(i64),
    /// An unsigned 64-bit integer.
    Uint(u64),
    /// An IEEE-754 binary64 number, held as its bit pattern.
    F64(u64),
    /// A counter, observed through its current numeric value.
    Counter(i64),
    /// An instant, as milliseconds since the Unix epoch.
    Timestamp(i64),
    /// A boolean.
    Boolean(bool),
    /// The null scalar.
    Null,
    /// A scalar of a kind this version does not know; kept as raw bytes
    /// together with the wire tag of the unknown kind.
    Unknown { type_code: u64, bytes: Vec<u8> },
}

/// A dynamic value in the shape the host environment receives: one of the
/// host's primitive kinds, independently owned.  A number is held as the
/// bit pattern of an IEEE-754 binary64, a date as its instant.
#[derive(Debug, Clone, PartialEq)]
pub enum ExternalValue {
    /// A binary buffer.
    Buffer(Vec<u8>),
    /// A text value.
    Text(String),
    /// A numeric value: the double with this bit pattern.
    Number(u64),
    /// A date-time value: the instant this many milliseconds after the
    /// Unix epoch.
    Date(i64),
    /// A boolean value.
    Boolean(bool),
    /// The null value (a present value, not absence).
    Null,
}

/// What the conversion to an external value yields, variant by variant.
/// Each arm pins the result: a buffer or text up to its contents, every
/// other kind exactly.
pub open spec fn external_of(v: ScalarValue, r: ExternalValue) -> bool {
    match v {
        ScalarValue::Bytes(b) => r matches ExternalValue::Buffer(c) && c@ == b@,
        ScalarValue::Str(s) => r matches ExternalValue::Text(t) && t@ == s@,
        ScalarValue::Int(i) => r == ExternalValue::Number(spec_widen_i64(i)),
        ScalarValue::Uint(u) => r == ExternalValue::Number(spec_widen_u64(u)),
        ScalarValue::F64(bits) => r == ExternalValue::Number(bits),
        ScalarValue::Counter(c) => r == ExternalValue::Number(spec_widen_i64(c)),
        ScalarValue::Timestamp(t) => r == ExternalValue::Date(t),
        ScalarValue::Boolean(b) => r == ExternalValue::Boolean(b),
        ScalarValue::Null => r == ExternalValue::Null,
        ScalarValue::Unknown { type_code, bytes } => r matches ExternalValue::Buffer(c)
            && c@ == bytes@,
    }
}

/// The type tag of each variant; the unknown kind carries its wire tag
/// in decimal with no separator.
pub open spec fn spec_datatype(v: ScalarValue) -> Seq<char> {
    match v {
        ScalarValue::Bytes(_) => "bytes"@,
        ScalarValue::Str(_) => "str"@,
        ScalarValue::Int(_) => "int"@,
        ScalarValue::Uint(_) => "uint"@,
        ScalarValue::F64(_) => "f64"@,
        ScalarValue::Counter(_) => "counter"@,
        ScalarValue::Timestamp(_) => "timestamp"@,
        ScalarValue::Boolean(_) => "boolean"@,
        ScalarValue::Null => "null"@,
        ScalarValue::Unknown { type_code, .. } => "unknown"@ + dec_rep(type_code as nat),
    }
}

/// Law: converting an integer scalar within `±2^53` is lossless — the
/// external value is the number whose double denotes exactly that
/// integer.  (Outside that range the widening is the nearest double, a
/// documented lossy zone.)
pub proof fn lemma_int_conversion_exact(i: i64, r: ExternalValue)
    requires
        -0x20_0000_0000_0000 <= i <= 0x20_0000_0000_0000,
        external_of(ScalarValue::Int(i), r),
    ensures
        r == ExternalValue::Number(spec_widen_i64(i)),
        exact_int_of(spec_widen_i64(i)) == Some(i as int),
{
    lemma_widen_i64_exact(i);
}

/// Law: converting an unsigned integer scalar up to `2^53` is lossless.
pub proof fn lemma_uint_conversion_exact(u: u64, r: ExternalValue)
    requires
        u <= 0x20_0000_0000_0000,
        external_of(ScalarValue::Uint(u), r),
    ensures
        r == ExternalValue::Number(spec_widen_u64(u)),
        exact_int_of(spec_widen_u64(u)) == Some(u as int),
{
    lemma_widen_u64_exact(u);
}

/// Law: converting a counter whose value lies within `±2^53` is lossless.
pub proof fn lemma_counter_conversion_exact(c: i64, r: ExternalValue)
    requires
        -0x20_0000_0000_0000 <= c <= 0x20_0000_0000_0000,
        external_of(ScalarValue::Counter(c), r),
    ensures
        r == ExternalValue::Number(spec_widen_i64(c)),
        exact_int_of(spec_widen_i64(c)) == Some(c as int),
{
    lemma_widen_i64_exact(c);
}

/// Copies a byte sequence into a fresh, independently owned vector.
fn copy_bytes(b: &Vec<u8>) -> (r: Vec<u8>)
    ensures
        r@ == b@,
{
    let mut r: Vec<u8> = Vec::new();
    let mut i: usize = 0;
    while i < b.len()
        invariant
            i <= b.len(),
            r@ == b@.subrange(0, i as int),
        decreases b.len() - i,
    {
        r.push(b[i]);
        i = i + 1;
        proof {
            assert(r@ =~= b@.subrange(0, i as int));
        }
    }
    proof {
        assert(r@ =~= b@);
    }
    r
}

impl ScalarValue {
    /// Maps this scalar onto the host-style dynamic value described by
    /// [`external_of`]: buffers and text are copied, integer kinds widen
    /// to the nearest double, a timestamp becomes a date, and the unknown
    /// kind exposes its raw bytes (its wire tag plays no part here).
    pub fn to_external(&self) -> (r: ExternalValue)
        ensures
            external_of(*self, r),
    {
        match self {
            ScalarValue::Bytes(b) => ExternalValue::Buffer(copy_bytes(b)),
            ScalarValue::Str(s) => ExternalValue::Text(s.clone()),
            ScalarValue::Int(i) => ExternalValue::Number(widen_i64(*i)),
            ScalarValue::Uint(u) => ExternalValue::Number(widen_u64(*u)),
            ScalarValue::F64(bits) => ExternalValue::Number(*bits),
            ScalarValue::Counter(c) => ExternalValue::Number(widen_i64(*c)),
            ScalarValue::Timestamp(t) => ExternalValue::Date(*t),
            ScalarValue::Boolean(b) => ExternalValue::Boolean(*b),
            ScalarValue::Null => ExternalValue::Null,
            ScalarValue::Unknown { type_code: _, bytes } => ExternalValue::Buffer(
                copy_bytes(bytes),
            ),
        }
    }

    /// The type tag of this scalar, exactly as [`spec_datatype`] lists it.
    pub fn datatype(&self) -> (r: String)
        ensures
            r@ == spec_datatype(*self),
    {
        match self {
            ScalarValue::Bytes(_) => "bytes".to_owned(),
            ScalarValue::Str(_) => "str".to_owned(),
            ScalarValue::Int(_) => "int".to_owned(),
            ScalarValue::Uint(_) => "uint".to_owned(),
            ScalarValue::F64(_) => "f64".to_owned(),
            ScalarValue::Counter(_) => "counter".to_owned(),
            ScalarValue::Timestamp(_) => "timestamp".to_owned(),
            ScalarValue::Boolean(_) => "boolean".to_owned(),
            ScalarValue::Null => "null".to_owned(),
            ScalarValue::Unknown { type_code, .. } => {
                let mut s = "unknown".to_owned();
                let d = dec_string(*type_code);
                s.append(d.as_str());
                s
            },
        }
    }
}

} // verus!
