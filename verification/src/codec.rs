//! The typed-value micro-format shared by every part of a BCF body: the
//! one-byte type descriptor and the primitives (little-endian integers of
//! three widths, 32-bit float bit patterns, byte strings) it introduces.
//!
//! Every executable parser takes the input bytes together with a cursor and
//! returns the decoded value with the new cursor position, or a decode
//! error.  Each is specified against a spec function of the same shape, so
//! that contracts further up can speak about whole parses of a record.
//!
//! Floating-point values are carried as their raw little-endian IEEE-754
//! bit patterns (`u32`); callers that want arithmetic reinterpret the bits.

use vstd::prelude::*;

use crate::types::{
    BcfError, RawVec, TypeDescriptor, TypeKind, TypedVec, TypedVecModel, EOV_FLOAT_BITS,
    EOV_INT16, EOV_INT32, EOV_INT8,
};

verus! {

/// Little-endian u16 from two bytes of `s` at `i` (meaningful when
/// `i + 2 <= s.len()`).
pub open spec fn spec_le16(s: Seq<u8>, i: int) -> u16 {
    (s[i] + s[i + 1] * 0x100) as u16
}

/// Little-endian u24 from three bytes of `s` at `i`.
pub open spec fn spec_le24(s: Seq<u8>, i: int) -> u32 {
    (s[i] + s[i + 1] * 0x100 + s[i + 2] * 0x10000) as u32
}

/// Little-endian u32 from four bytes of `s` at `i`.
pub open spec fn spec_le32(s: Seq<u8>, i: int) -> u32 {
    (s[i] + s[i + 1] * 0x100 + s[i + 2] * 0x10000 + s[i + 3] * 0x1000000) as u32
}

/// A byte reinterpreted as a signed 8-bit value, widened to i32.
pub open spec fn spec_sign8(b: u8) -> i32 {
    if b < 0x80 {
        b as i32
    } else {
        (b - 0x100) as i32
    }
}

/// A u16 reinterpreted as a signed 16-bit value, widened to i32.
pub open spec fn spec_sign16(v: u16) -> i32 {
    if v < 0x8000 {
        v as i32
    } else {
        (v - 0x10000) as i32
    }
}

/// A u32 reinterpreted as a signed 32-bit value.
pub open spec fn spec_sign32(v: u32) -> i32 {
    if v < 0x8000_0000 {
        v as i32
    } else {
        (v - 0x1_0000_0000) as i32
    }
}

/// Reads two bytes at `pos` as a little-endian u16.
pub fn read_le16(bytes: &[u8], pos: usize) -> (r: u16)
    requires
        pos + 2 <= bytes@.len(),
    ensures
        r == spec_le16(bytes@, pos as int),
{
    let b0 = bytes[pos] as u16;
    let b1 = bytes[pos + 1] as u16;
    b0 + b1 * 0x100
}

/// Reads three bytes at `pos` as a little-endian u24, widened to u32.
pub fn read_le24(bytes: &[u8], pos: usize) -> (r: u32)
    requires
        pos + 3 <= bytes@.len(),
    ensures
        r == spec_le24(bytes@, pos as int),
{
    let b0 = bytes[pos] as u32;
    let b1 = bytes[pos + 1] as u32;
    let b2 = bytes[pos + 2] as u32;
    b0 + b1 * 0x100 + b2 * 0x10000
}

/// Reads four bytes at `pos` as a little-endian u32.
pub fn read_le32(bytes: &[u8], pos: usize) -> (r: u32)
    requires
        pos + 4 <= bytes@.len(),
    ensures
        r == spec_le32(bytes@, pos as int),
{
    let b0 = bytes[pos] as u32;
    let b1 = bytes[pos + 1] as u32;
    let b2 = bytes[pos + 2] as u32;
    let b3 = bytes[pos + 3] as u32;
    b0 + b1 * 0x100 + b2 * 0x10000 + b3 * 0x1000000
}

/// Sign-extends a byte to i32.
pub fn sign_extend8(b: u8) -> (r: i32)
    ensures
        r == spec_sign8(b),
{
    if b < 0x80 {
        b as i32
    } else {
        (b as i32) - 0x100
    }
}

/// Sign-extends a u16 to i32.
pub fn sign_extend16(v: u16) -> (r: i32)
    ensures
        r == spec_sign16(v),
{
    if v < 0x8000 {
        v as i32
    } else {
        (v as i32) - 0x10000
    }
}

/// Reinterprets a u32 as i32.
pub fn sign_extend32(v: u32) -> (r: i32)
    ensures
        r == spec_sign32(v),
{
    if v < 0x8000_0000 {
        v as i32
    } else {
        ((v as i64) - 0x1_0000_0000i64) as i32
    }
}

/// The kind encoded by the low nibble of a descriptor byte.  4 and 6 are
/// reserved, anything above 7 unknown: both are decode errors.
pub open spec fn spec_type_kind(lo: u8) -> Option<TypeKind> {
    if lo == 0 {
        Some(TypeKind::Missing)
    } else if lo == 1 {
        Some(TypeKind::Int8)
    } else if lo == 2 {
        Some(TypeKind::Int16)
    } else if lo == 3 {
        Some(TypeKind::Int32)
    } else if lo == 5 {
        Some(TypeKind::Float32)
    } else if lo == 7 {
        Some(TypeKind::String)
    } else {
        None
    }
}

/// Maps the low nibble of a descriptor byte to its kind.
pub fn type_kind_from_nibble(lo: u8) -> (r: Option<TypeKind>)
    ensures
        r == spec_type_kind(lo),
{
    match lo {
        0 => Some(TypeKind::Missing),
        1 => Some(TypeKind::Int8),
        2 => Some(TypeKind::Int16),
        3 => Some(TypeKind::Int32),
        5 => Some(TypeKind::Float32),
        7 => Some(TypeKind::String),
        _ => None,
    }
}

/// The result of parsing a type descriptor at `pos`: its kind, its element
/// count and the cursor after it.  The high nibble of the first byte is the
/// count; the sentinel 15 means the real count follows as one nested typed
/// unsigned integer (the nested descriptor must declare exactly one
/// integer, and may not itself use the sentinel).
pub open spec fn spec_type_descriptor(s: Seq<u8>, pos: usize) -> Result<
    (TypeKind, nat, usize),
    BcfError,
> {
    if pos + 1 > s.len() {
        Err(BcfError::TruncatedInput)
    } else {
        let b = s[pos as int];
        let lo = b % 16;
        let hi = b / 16;
        match spec_type_kind(lo) {
            None => Err(BcfError::MalformedTypeDescriptor),
            Some(kind) => if hi < 15 {
                Ok((kind, hi as nat, (pos + 1) as usize))
            } else {
                if pos + 2 > s.len() {
                    Err(BcfError::TruncatedInput)
                } else {
                    let b2 = s[pos + 1];
                    let lo2 = b2 % 16;
                    let hi2 = b2 / 16;
                    if hi2 != 1 {
                        Err(BcfError::MalformedTypeDescriptor)
                    } else if lo2 == 1 {
                        if pos + 3 > s.len() {
                            Err(BcfError::TruncatedInput)
                        } else {
                            Ok((kind, s[pos + 2] as nat, (pos + 3) as usize))
                        }
                    } else if lo2 == 2 {
                        if pos + 4 > s.len() {
                            Err(BcfError::TruncatedInput)
                        } else {
                            Ok((kind, spec_le16(s, pos + 2) as nat, (pos + 4) as usize))
                        }
                    } else if lo2 == 3 {
                        if pos + 6 > s.len() {
                            Err(BcfError::TruncatedInput)
                        } else {
                            Ok((kind, spec_le32(s, pos + 2) as nat, (pos + 6) as usize))
                        }
                    } else {
                        Err(BcfError::MalformedTypeDescriptor)
                    }
                }
            },
        }
    }
}

/// Reads the type descriptor at `pos`, with the nested-count indirection
/// for counts of 15 and above.
pub fn read_type_descriptor(bytes: &[u8], pos: usize) -> (r: Result<
    (TypeDescriptor, usize),
    BcfError,
>)
    requires
        pos <= bytes@.len(),
    ensures
        match r {
            Ok((td, next)) => {
                &&& spec_type_descriptor(bytes@, pos) == Ok::<_, BcfError>(
                    (td.kind, td.num_elements as nat, next),
                )
                &&& pos < next <= bytes@.len()
            },
            Err(e) => spec_type_descriptor(bytes@, pos) == Err::<(TypeKind, nat, usize), _>(e),
        },
{
    if pos >= bytes.len() {
        return Err(BcfError::TruncatedInput);
    }
    let b = bytes[pos];
    let lo = b % 16;
    let hi = b / 16;
    let kind = match type_kind_from_nibble(lo) {
        Some(k) => k,
        None => {
            return Err(BcfError::MalformedTypeDescriptor);
        },
    };
    if hi < 15 {
        return Ok((TypeDescriptor { kind, num_elements: hi as usize }, pos + 1));
    }
    if bytes.len() - pos < 2 {
        return Err(BcfError::TruncatedInput);
    }
    let b2 = bytes[pos + 1];
    let lo2 = b2 % 16;
    let hi2 = b2 / 16;
    if hi2 != 1 {
        return Err(BcfError::MalformedTypeDescriptor);
    }
    if lo2 == 1 {
        if bytes.len() - pos < 3 {
            return Err(BcfError::TruncatedInput);
        }
        let n = bytes[pos + 2] as usize;
        Ok((TypeDescriptor { kind, num_elements: n }, pos + 3))
    } else if lo2 == 2 {
        if bytes.len() - pos < 4 {
            return Err(BcfError::TruncatedInput);
        }
        let n = read_le16(bytes, pos + 2) as usize;
        Ok((TypeDescriptor { kind, num_elements: n }, pos + 4))
    } else if lo2 == 3 {
        if bytes.len() - pos < 6 {
            return Err(BcfError::TruncatedInput);
        }
        let n = read_le32(bytes, pos + 2) as usize;
        Ok((TypeDescriptor { kind, num_elements: n }, pos + 6))
    } else {
        Err(BcfError::MalformedTypeDescriptor)
    }
}

/// Reading an integer run out of the subrange holding exactly its bytes
/// gives the same values as reading it in place.
pub proof fn lemma_ints_at_subrange(s: Seq<u8>, p: int, kind: TypeKind, n: nat)
    requires
        spec_is_int_kind(kind),
        0 <= p,
        p + spec_int_width(kind) * n <= s.len(),
    ensures
        spec_ints_at(s, p, kind, n) == spec_ints_at(
            s.subrange(p, p + spec_int_width(kind) * n),
            0,
            kind,
            n,
        ),
{
    let w = spec_int_width(kind);
    let sub = s.subrange(p, p + w * n);
    assert forall|i: int| 0 <= i < n implies spec_int_at(s, p + w * i, kind) == #[trigger] spec_int_at(
        sub,
        w * i,
        kind,
    ) by {
        assert(w * i + w <= w * n) by (nonlinear_arith)
            requires
                i < n,
                w >= 1,
        ;
        assert(w * i >= 0) by (nonlinear_arith)
            requires
                i >= 0,
                w >= 1,
        ;
    };
    assert(spec_ints_at(s, p, kind, n) =~= spec_ints_at(sub, 0, kind, n));
}

/// The float analogue of `lemma_ints_at_subrange`.
pub proof fn lemma_floats_at_subrange(s: Seq<u8>, p: int, n: nat)
    requires
        0 <= p,
        p + 4 * n <= s.len(),
    ensures
        spec_floats_at(s, p, n) == spec_floats_at(s.subrange(p, p + 4 * n), 0, n),
{
    let sub = s.subrange(p, p + 4 * n);
    assert forall|i: int| 0 <= i < n implies spec_le32(s, p + 4 * i) == #[trigger] spec_le32(
        sub,
        4 * i,
    ) by {};
    assert(spec_floats_at(s, p, n) =~= spec_floats_at(sub, 0, n));
}

/// Reads the payload of an already-read descriptor without widening it:
/// the bytes are copied verbatim and tagged with their kind.
pub fn read_raw_body(bytes: &[u8], p: usize, td: TypeDescriptor) -> (r: Result<
    (RawVec, usize),
    BcfError,
>)
    requires
        p <= bytes@.len(),
    ensures
        match r {
            Ok((rv, next)) => {
                &&& spec_typed_body(bytes@, p, td.kind, td.num_elements as nat) == Ok::<
                    _,
                    BcfError,
                >((rv.view(), next))
                &&& p <= next <= bytes@.len()
            },
            Err(e) => spec_typed_body(bytes@, p, td.kind, td.num_elements as nat) == Err::<
                (TypedVecModel, usize),
                _,
            >(e),
        },
{
    let n = td.num_elements;
    match td.kind {
        TypeKind::Missing => Ok((RawVec::Missing, p)),
        TypeKind::Int8 | TypeKind::Int16 | TypeKind::Int32 => {
            let width: usize = match td.kind {
                TypeKind::Int8 => 1,
                TypeKind::Int16 => 2,
                _ => 4,
            };
            if n > (bytes.len() - p) / width {
                assert(bytes@.len() - p < width * n) by {
                    let rem = bytes@.len() - p;
                    assert(rem / width as int * width as int + rem % width as int == rem);
                };
                return Err(BcfError::TruncatedInput);
            }
            assert(bytes@.len() - p >= width * n) by {
                let rem = bytes@.len() - p;
                assert(rem / width as int * width as int + rem % width as int == rem);
            };
            let len = width * n;
            let end = p + len;
            let payload = vstd::slice::slice_to_vec(vstd::slice::slice_subrange(bytes, p, end));
            proof {
                lemma_ints_at_subrange(bytes@, p as int, td.kind, n as nat);
                assert(payload@.len() == width * n);
                assert(payload@.len() as int / width as int == n as int) by (nonlinear_arith)
                    requires
                        payload@.len() == width * n,
                        width >= 1,
                        n >= 0,
                ;
            }
            let rv = match td.kind {
                TypeKind::Int8 => RawVec::Int8(payload),
                TypeKind::Int16 => RawVec::Int16(payload),
                _ => RawVec::Int32(payload),
            };
            Ok((rv, end))
        },
        TypeKind::Float32 => {
            if n > (bytes.len() - p) / 4 {
                assert(bytes@.len() - p < 4 * n) by {
                    let rem = bytes@.len() - p;
                    assert(rem / 4 * 4 + rem % 4 == rem);
                };
                return Err(BcfError::TruncatedInput);
            }
            assert(bytes@.len() - p >= 4 * n) by {
                let rem = bytes@.len() - p;
                assert(rem / 4 * 4 + rem % 4 == rem);
            };
            let end = p + 4 * n;
            let payload = vstd::slice::slice_to_vec(vstd::slice::slice_subrange(bytes, p, end));
            proof {
                lemma_floats_at_subrange(bytes@, p as int, n as nat);
            }
            Ok((RawVec::Float32(payload), end))
        },
        TypeKind::String => {
            if bytes.len() - p < n {
                return Err(BcfError::TruncatedInput);
            }
            let end = p + n;
            let payload = vstd::slice::slice_to_vec(vstd::slice::slice_subrange(bytes, p, end));
            Ok((RawVec::UString(payload), end))
        },
    }
}

/// Reads the typed value at `pos` without widening it.
pub fn read_raw_vec(bytes: &[u8], pos: usize) -> (r: Result<(RawVec, usize), BcfError>)
    requires
        pos <= bytes@.len(),
    ensures
        match r {
            Ok((rv, next)) => {
                &&& spec_typed_vec(bytes@, pos) == Ok::<_, BcfError>((rv.view(), next))
                &&& pos < next <= bytes@.len()
            },
            Err(e) => spec_typed_vec(bytes@, pos) == Err::<(TypedVecModel, usize), _>(e),
        },
{
    let (td, p) = match read_type_descriptor(bytes, pos) {
        Ok(x) => x,
        Err(e) => {
            return Err(e);
        },
    };
    match read_raw_body(bytes, p, td) {
        Ok((rv, next)) => Ok((rv, next)),
        Err(e) => Err(e),
    }
}


/// Whether a kind is one of the three integer widths.
pub open spec fn spec_is_int_kind(kind: TypeKind) -> bool {
    kind == TypeKind::Int8 || kind == TypeKind::Int16 || kind == TypeKind::Int32
}

/// Byte width of one element of an integer kind.
pub open spec fn spec_int_width(kind: TypeKind) -> int {
    match kind {
        TypeKind::Int8 => 1,
        TypeKind::Int16 => 2,
        TypeKind::Int32 => 4,
        _ => 1,
    }
}

/// The signed 32-bit value of one on-disk integer of the given kind at `i`.
pub open spec fn spec_int_at(s: Seq<u8>, i: int, kind: TypeKind) -> i32 {
    match kind {
        TypeKind::Int8 => spec_sign8(s[i]),
        TypeKind::Int16 => spec_sign16(spec_le16(s, i)),
        TypeKind::Int32 => spec_sign32(spec_le32(s, i)),
        _ => 0,
    }
}

/// `n` consecutive integers of the given kind starting at `pos`, widened.
pub open spec fn spec_ints_at(s: Seq<u8>, pos: int, kind: TypeKind, n: nat) -> Seq<i32> {
    Seq::new(n, |i: int| spec_int_at(s, pos + spec_int_width(kind) * i, kind))
}

/// `n` consecutive float bit patterns starting at `pos`.
pub open spec fn spec_floats_at(s: Seq<u8>, pos: int, n: nat) -> Seq<u32> {
    Seq::new(n, |i: int| spec_le32(s, pos + 4 * i))
}

/// The trailing-padding sentinel of an integer kind, as the widened i32.
pub open spec fn spec_eov_of(kind: TypeKind) -> i32 {
    match kind {
        TypeKind::Int8 => EOV_INT8,
        TypeKind::Int16 => EOV_INT16,
        TypeKind::Int32 => EOV_INT32,
        _ => 0,
    }
}

/// `v` with every trailing element equal to `eov` removed.
pub open spec fn spec_strip_eov(v: Seq<i32>, eov: i32) -> Seq<i32>
    decreases v.len(),
{
    if v.len() > 0 && v.last() == eov {
        spec_strip_eov(v.drop_last(), eov)
    } else {
        v
    }
}

/// `v` with every trailing float equal to the end-of-vector bit pattern
/// removed.
pub open spec fn spec_strip_eov_floats(v: Seq<u32>) -> Seq<u32>
    decreases v.len(),
{
    if v.len() > 0 && v.last() == EOV_FLOAT_BITS {
        spec_strip_eov_floats(v.drop_last(), )
    } else {
        v
    }
}

/// Removes trailing `eov` elements in place.
pub fn strip_eov(v: &mut Vec<i32>, eov: i32)
    ensures
        final(v)@ == spec_strip_eov(old(v)@, eov),
{
    loop
        invariant
            spec_strip_eov(v@, eov) == spec_strip_eov(old(v)@, eov),
        decreases v@.len(),
    {
        if v.len() == 0 {
            return ;
        }
        if v[v.len() - 1] != eov {
            return ;
        }
        v.pop();
    }
}

/// Removes trailing end-of-vector float bit patterns in place.
pub fn strip_eov_floats(v: &mut Vec<u32>)
    ensures
        final(v)@ == spec_strip_eov_floats(old(v)@),
{
    loop
        invariant
            spec_strip_eov_floats(v@) == spec_strip_eov_floats(old(v)@),
        decreases v@.len(),
    {
        if v.len() == 0 {
            return ;
        }
        if v[v.len() - 1] != EOV_FLOAT_BITS {
            return ;
        }
        v.pop();
    }
}

/// Reads `n` integers of integer kind `kind` starting at `pos`, widening
/// each to i32.
pub fn read_int_run(bytes: &[u8], pos: usize, kind: TypeKind, n: usize) -> (r: Result<
    (Vec<i32>, usize),
    BcfError,
>)
    requires
        spec_is_int_kind(kind),
        pos <= bytes@.len(),
    ensures
        match r {
            Ok((v, next)) => {
                &&& bytes@.len() - pos >= spec_int_width(kind) * n
                &&& v@ == spec_ints_at(bytes@, pos as int, kind, n as nat)
                &&& next == pos + spec_int_width(kind) * n
            },
            Err(e) => {
                &&& e == BcfError::TruncatedInput
                &&& bytes@.len() - pos < spec_int_width(kind) * n
            },
        },
{
    let width: usize = match kind {
        TypeKind::Int8 => 1,
        TypeKind::Int16 => 2,
        TypeKind::Int32 => 4,
        _ => 1,
    };
    if n > (bytes.len() - pos) / width {
        assert(bytes@.len() - pos < spec_int_width(kind) * n) by {
            let rem = bytes@.len() - pos;
            assert(rem / width as int * width as int + rem % width as int == rem);
        };
        return Err(BcfError::TruncatedInput);
    }
    assert(bytes@.len() - pos >= spec_int_width(kind) * n) by {
        let rem = bytes@.len() - pos;
        assert(rem / width as int * width as int + rem % width as int == rem);
    };
    let mut v: Vec<i32> = Vec::new();
    let mut i: usize = 0;
    let mut cur = pos;
    while i < n
        invariant
            spec_is_int_kind(kind),
            width == spec_int_width(kind),
            i <= n,
            cur == pos + width * i,
            bytes@.len() - pos >= width * n,
            bytes@.len() <= usize::MAX,
            v@ == spec_ints_at(bytes@, pos as int, kind, i as nat),
        decreases n - i,
    {
        assert(width * i + width <= width * n) by {
            assert(width * (i + 1) == width * i + width);
            assert(width * (i + 1) <= width * n) by (nonlinear_arith)
                requires
                    i < n,
                    width > 0,
            ;
        };
        assert(cur + width <= bytes@.len());
        let x: i32 = match kind {
            TypeKind::Int8 => sign_extend8(bytes[cur]),
            TypeKind::Int16 => sign_extend16(read_le16(bytes, cur)),
            TypeKind::Int32 => sign_extend32(read_le32(bytes, cur)),
            _ => 0,
        };
        v.push(x);
        assert(v@ =~= spec_ints_at(bytes@, pos as int, kind, (i + 1) as nat));
        cur = cur + width;
        i = i + 1;
    }
    Ok((v, cur))
}

/// Reads `n` float bit patterns starting at `pos`.
pub fn read_float_run(bytes: &[u8], pos: usize, n: usize) -> (r: Result<
    (Vec<u32>, usize),
    BcfError,
>)
    requires
        pos <= bytes@.len(),
    ensures
        match r {
            Ok((v, next)) => {
                &&& bytes@.len() - pos >= 4 * n
                &&& v@ == spec_floats_at(bytes@, pos as int, n as nat)
                &&& next == pos + 4 * n
            },
            Err(e) => {
                &&& e == BcfError::TruncatedInput
                &&& bytes@.len() - pos < 4 * n
            },
        },
{
    if n > (bytes.len() - pos) / 4 {
        assert(bytes@.len() - pos < 4 * n) by {
            let rem = bytes@.len() - pos;
            assert(rem / 4 * 4 + rem % 4 == rem);
        };
        return Err(BcfError::TruncatedInput);
    }
    assert(bytes@.len() - pos >= 4 * n) by {
        let rem = bytes@.len() - pos;
        assert(rem / 4 * 4 + rem % 4 == rem);
    };
    let mut v: Vec<u32> = Vec::new();
    let mut i: usize = 0;
    let mut cur = pos;
    while i < n
        invariant
            i <= n,
            cur == pos + 4 * i,
            bytes@.len() - pos >= 4 * n,
            bytes@.len() <= usize::MAX,
            v@ == spec_floats_at(bytes@, pos as int, i as nat),
        decreases n - i,
    {
        assert(4 * i + 4 <= 4 * n);
        let x = read_le32(bytes, cur);
        v.push(x);
        assert(v@ =~= spec_floats_at(bytes@, pos as int, (i + 1) as nat));
        cur = cur + 4;
        i = i + 1;
    }
    Ok((v, cur))
}

/// The result of parsing a typed string at `pos`: its bytes and the cursor
/// after them.  The descriptor must declare the String kind; an empty
/// string is legal.
pub open spec fn spec_typed_string(s: Seq<u8>, pos: usize) -> Result<(Seq<u8>, usize), BcfError> {
    match spec_type_descriptor(s, pos) {
        Err(e) => Err(e),
        Ok((kind, n, p)) => if kind != TypeKind::String {
            Err(BcfError::MalformedTypeDescriptor)
        } else if s.len() - p >= n {
            Ok((s.subrange(p as int, p + n), (p + n) as usize))
        } else {
            Err(BcfError::TruncatedInput)
        },
    }
}

/// Reads a typed string: a String-kind descriptor followed by its bytes.
pub fn read_typed_string(bytes: &[u8], pos: usize) -> (r: Result<(Vec<u8>, usize), BcfError>)
    requires
        pos <= bytes@.len(),
    ensures
        match r {
            Ok((v, next)) => {
                &&& spec_typed_string(bytes@, pos) == Ok::<_, BcfError>((v@, next))
                &&& pos < next <= bytes@.len()
            },
            Err(e) => spec_typed_string(bytes@, pos) == Err::<(Seq<u8>, usize), _>(e),
        },
{
    let (td, p) = match read_type_descriptor(bytes, pos) {
        Ok(x) => x,
        Err(e) => {
            return Err(e);
        },
    };
    if !matches!(td.kind, TypeKind::String) {
        return Err(BcfError::MalformedTypeDescriptor);
    }
    if bytes.len() - p < td.num_elements {
        return Err(BcfError::TruncatedInput);
    }
    let end = p + td.num_elements;
    let v = vstd::slice::slice_to_vec(vstd::slice::slice_subrange(bytes, p, end));
    Ok((v, end))
}

/// The result of parsing one typed integer at `pos`: the descriptor must
/// declare exactly one element of an integer kind.  These introduce the
/// dictionary keys inside record bodies.
pub open spec fn spec_typed_int(s: Seq<u8>, pos: usize) -> Result<(i32, usize), BcfError> {
    match spec_type_descriptor(s, pos) {
        Err(e) => Err(e),
        Ok((kind, n, p)) => if n != 1 || !spec_is_int_kind(kind) {
            Err(BcfError::MalformedTypeDescriptor)
        } else if s.len() - p >= spec_int_width(kind) {
            Ok((spec_int_at(s, p as int, kind), (p + spec_int_width(kind)) as usize))
        } else {
            Err(BcfError::TruncatedInput)
        },
    }
}

/// Reads one typed integer, widened to i32.
pub fn read_typed_int(bytes: &[u8], pos: usize) -> (r: Result<(i32, usize), BcfError>)
    requires
        pos <= bytes@.len(),
    ensures
        r == spec_typed_int(bytes@, pos),
        r matches Ok((v, next)) ==> pos < next <= bytes@.len(),
{
    let (td, p) = match read_type_descriptor(bytes, pos) {
        Ok(x) => x,
        Err(e) => {
            return Err(e);
        },
    };
    let width: usize = match td.kind {
        TypeKind::Int8 => 1,
        TypeKind::Int16 => 2,
        TypeKind::Int32 => 4,
        _ => {
            return Err(BcfError::MalformedTypeDescriptor);
        },
    };
    if td.num_elements != 1 {
        return Err(BcfError::MalformedTypeDescriptor);
    }
    if bytes.len() - p < width {
        return Err(BcfError::TruncatedInput);
    }
    let v = match td.kind {
        TypeKind::Int8 => sign_extend8(bytes[p]),
        TypeKind::Int16 => sign_extend16(read_le16(bytes, p)),
        _ => sign_extend32(read_le32(bytes, p)),
    };
    Ok((v, p + width))
}

/// The result of parsing a typed integer vector at `pos`, as used for the
/// FILTER indices of a record: a Missing descriptor stands for the empty
/// vector; any integer kind is widened; other kinds are malformed.
pub open spec fn spec_typed_ints(s: Seq<u8>, pos: usize) -> Result<(Seq<i32>, usize), BcfError> {
    match spec_type_descriptor(s, pos) {
        Err(e) => Err(e),
        Ok((kind, n, p)) => if kind == TypeKind::Missing {
            Ok((Seq::empty(), p))
        } else if !spec_is_int_kind(kind) {
            Err(BcfError::MalformedTypeDescriptor)
        } else if s.len() - p >= spec_int_width(kind) * n {
            Ok((spec_ints_at(s, p as int, kind, n), (p + spec_int_width(kind) * n) as usize))
        } else {
            Err(BcfError::TruncatedInput)
        },
    }
}

/// Reads a typed integer vector (used for FILTER indices).
pub fn read_typed_ints(bytes: &[u8], pos: usize) -> (r: Result<(Vec<i32>, usize), BcfError>)
    requires
        pos <= bytes@.len(),
    ensures
        match r {
            Ok((v, next)) => {
                &&& spec_typed_ints(bytes@, pos) == Ok::<_, BcfError>((v@, next))
                &&& pos < next <= bytes@.len()
            },
            Err(e) => spec_typed_ints(bytes@, pos) == Err::<(Seq<i32>, usize), _>(e),
        },
{
    let (td, p) = match read_type_descriptor(bytes, pos) {
        Ok(x) => x,
        Err(e) => {
            return Err(e);
        },
    };
    match td.kind {
        TypeKind::Missing => Ok((Vec::new(), p)),
        TypeKind::Int8 | TypeKind::Int16 | TypeKind::Int32 => {
            match read_int_run(bytes, p, td.kind, td.num_elements) {
                Ok((v, next)) => Ok((v, next)),
                Err(e) => Err(e),
            }
        },
        _ => Err(BcfError::MalformedTypeDescriptor),
    }
}

/// The decoded value a payload of kind `kind` with `n` elements at `pos`
/// denotes, together with the cursor after it.  Integers are widened to
/// i32 and floats kept as bit patterns, in both cases with trailing
/// end-of-vector padding stripped; string bytes are taken verbatim; the
/// Missing kind is legal with any declared count and consumes nothing.
pub open spec fn spec_typed_body(s: Seq<u8>, pos: usize, kind: TypeKind, n: nat) -> Result<
    (TypedVecModel, usize),
    BcfError,
> {
    match kind {
        TypeKind::Missing => Ok((TypedVecModel::Missing, pos)),
        TypeKind::Int8 | TypeKind::Int16 | TypeKind::Int32 => {
            if s.len() - pos >= spec_int_width(kind) * n {
                Ok(
                    (
                        TypedVecModel::Ints(
                            spec_strip_eov(spec_ints_at(s, pos as int, kind, n), spec_eov_of(kind)),
                        ),
                        (pos + spec_int_width(kind) * n) as usize,
                    ),
                )
            } else {
                Err(BcfError::TruncatedInput)
            }
        },
        TypeKind::Float32 => {
            if s.len() - pos >= 4 * n {
                Ok(
                    (
                        TypedVecModel::Floats(spec_strip_eov_floats(spec_floats_at(s, pos as int, n))),
                        (pos + 4 * n) as usize,
                    ),
                )
            } else {
                Err(BcfError::TruncatedInput)
            }
        },
        TypeKind::String => {
            if s.len() - pos >= n {
                Ok((TypedVecModel::Str(s.subrange(pos as int, pos + n)), (pos + n) as usize))
            } else {
                Err(BcfError::TruncatedInput)
            }
        },
    }
}

/// The decoded value introduced by the descriptor at `pos`, together with
/// the cursor after its payload.
pub open spec fn spec_typed_vec(s: Seq<u8>, pos: usize) -> Result<
    (TypedVecModel, usize),
    BcfError,
> {
    match spec_type_descriptor(s, pos) {
        Err(e) => Err(e),
        Ok((kind, n, p)) => spec_typed_body(s, p, kind, n),
    }
}

/// Reads the payload of an already-read descriptor, widening it.
pub fn read_typed_body(bytes: &[u8], p: usize, td: TypeDescriptor) -> (r: Result<
    (TypedVec, usize),
    BcfError,
>)
    requires
        p <= bytes@.len(),
    ensures
        match r {
            Ok((v, next)) => {
                &&& spec_typed_body(bytes@, p, td.kind, td.num_elements as nat) == Ok::<
                    _,
                    BcfError,
                >((v.view(), next))
                &&& p <= next <= bytes@.len()
            },
            Err(e) => spec_typed_body(bytes@, p, td.kind, td.num_elements as nat) == Err::<
                (TypedVecModel, usize),
                _,
            >(e),
        },
{
    match td.kind {
        TypeKind::Missing => Ok((TypedVec::Missing, p)),
        TypeKind::Int8 | TypeKind::Int16 | TypeKind::Int32 => {
            let (mut v, next) = match read_int_run(bytes, p, td.kind, td.num_elements) {
                Ok(x) => x,
                Err(e) => {
                    return Err(e);
                },
            };
            let eov: i32 = match td.kind {
                TypeKind::Int8 => EOV_INT8,
                TypeKind::Int16 => EOV_INT16,
                _ => EOV_INT32,
            };
            strip_eov(&mut v, eov);
            Ok((TypedVec::Int32(v), next))
        },
        TypeKind::Float32 => {
            let (mut v, next) = match read_float_run(bytes, p, td.num_elements) {
                Ok(x) => x,
                Err(e) => {
                    return Err(e);
                },
            };
            strip_eov_floats(&mut v);
            Ok((TypedVec::Float32(v), next))
        },
        TypeKind::String => {
            if bytes.len() - p < td.num_elements {
                return Err(BcfError::TruncatedInput);
            }
            let end = p + td.num_elements;
            let v = vstd::slice::slice_to_vec(vstd::slice::slice_subrange(bytes, p, end));
            Ok((TypedVec::UString(v), end))
        },
    }
}

/// Reads the typed value introduced by the descriptor at `pos`.
pub fn read_typed_vec(bytes: &[u8], pos: usize) -> (r: Result<(TypedVec, usize), BcfError>)
    requires
        pos <= bytes@.len(),
    ensures
        match r {
            Ok((v, next)) => {
                &&& spec_typed_vec(bytes@, pos) == Ok::<_, BcfError>((v.view(), next))
                &&& pos < next <= bytes@.len()
            },
            Err(e) => spec_typed_vec(bytes@, pos) == Err::<(TypedVecModel, usize), _>(e),
        },
{
    let (td, p) = match read_type_descriptor(bytes, pos) {
        Ok(x) => x,
        Err(e) => {
            return Err(e);
        },
    };
    match read_typed_body(bytes, p, td) {
        Ok((v, next)) => Ok((v, next)),
        Err(e) => Err(e),
    }
}

/// Widening preserves values exactly: an integer of any on-disk width is
/// exposed as the i32 with the same mathematical value, nonnegative bytes
/// and shorts unchanged and negative ones by their two's-complement
/// reading.
pub proof fn lemma_widening_preserves(b: u8, v: u16, w: u32)
    ensures
        -128 <= spec_sign8(b) <= 127,
        b < 0x80 ==> spec_sign8(b) == b,
        b >= 0x80 ==> spec_sign8(b) == b - 0x100,
        -32768 <= spec_sign16(v) <= 32767,
        v < 0x8000 ==> spec_sign16(v) == v,
        v >= 0x8000 ==> spec_sign16(v) == v - 0x10000,
        w < 0x8000_0000 ==> spec_sign32(w) == w,
        w >= 0x8000_0000 ==> spec_sign32(w) == w - 0x1_0000_0000,
{
}

} // verus!
