//! Core data types of the BCF reader: decode errors, the typed-value
//! micro-format descriptors, decoded values, and the header tables.

use vstd::prelude::*;

verus! {

/// Everything that can go wrong while decoding a BCF byte stream.
#[derive(Clone, Copy, Debug, PartialEq, Eq, Structural)]
pub enum BcfError {
    /// The stream does not begin with the BCF magic bytes.
    InvalidMagic,
    /// The stream is BCF, but not version 2.2.
    VersionMismatch,
    /// The input ended in the middle of a framed length, header or record.
    TruncatedInput,
    /// A type descriptor uses a reserved kind, or its nested count is not a
    /// single integer.
    MalformedTypeDescriptor,
    /// A structured header line misses a mandatory field, a quoted value is
    /// unterminated, or a Number/Type value is outside the closed set.
    MalformedHeader,
    /// A contig or filter index in a record does not resolve in the header.
    IndexOutOfBounds,
}

/// The kind nibble of a type descriptor byte.  Values 4 and 6 are reserved
/// and rejected during decoding.
#[derive(Clone, Copy, Debug, PartialEq, Eq, Structural)]
pub enum TypeKind {
    Missing,
    Int8,
    Int16,
    Int32,
    Float32,
    String,
}

/// The single byte introducing every typed BCF value: a kind plus the
/// number of elements of that kind that follow.
#[derive(Clone, Copy, Debug, PartialEq, Eq, Structural)]
pub struct TypeDescriptor {
    pub kind: TypeKind,
    pub num_elements: usize,
}

/// The two version bytes following the BCF magic.
#[derive(Clone, Copy, Debug, PartialEq, Eq, Structural)]
pub struct Version {
    pub major: u8,
    pub minor: u8,
}

/// Bit pattern of the f32 QUAL sentinel meaning "value absent".
pub const MISSING_QUAL: u32 = 0x7F80_0001;

/// Bit pattern of the f32 "present but not-a-number" sentinel.
pub const NAN_QUAL: u32 = 0x7FC0_0000;

/// Trailing-padding sentinels ("end of vector") of each width, as the i32
/// each widens to, and the f32 bit pattern.
pub const EOV_INT8: i32 = -127;

pub const EOV_INT16: i32 = -32767;

pub const EOV_INT32: i32 = -2147483647;

pub const EOV_FLOAT_BITS: u32 = 0x7F80_0002;

/// The byte value of ','.
pub const COMMA: u8 = 44;

/// The mathematical value of a decoded typed vector: integers are widened
/// to 32 bits, floats are raw IEEE-754 bit patterns, strings are bytes.
pub enum TypedVecModel {
    Missing,
    Ints(Seq<i32>),
    Floats(Seq<u32>),
    Str(Seq<u8>),
}

/// A decoded typed value.  Narrow integers have been widened to `i32`;
/// float elements are kept as their raw little-endian bit patterns.
#[derive(Debug, Clone, PartialEq, Eq)]
pub enum TypedVec {
    Missing,
    Int32(Vec<i32>),
    Float32(Vec<u32>),
    UString(Vec<u8>),
}

impl TypedVec {
    pub open spec fn view(self) -> TypedVecModel {
        match self {
            TypedVec::Missing => TypedVecModel::Missing,
            TypedVec::Int32(v) => TypedVecModel::Ints(v@),
            TypedVec::Float32(v) => TypedVecModel::Floats(v@),
            TypedVec::UString(v) => TypedVecModel::Str(v@),
        }
    }

    /// The integer elements of this value.
    pub fn integer(&self) -> (r: &Vec<i32>)
        requires
            self is Int32,
        ensures
            self.view() == TypedVecModel::Ints(r@),
    {
        match self {
            TypedVec::Int32(v) => v,
            _ => unreached(),
        }
    }

    /// The float elements of this value, as raw IEEE-754 bit patterns.
    pub fn float(&self) -> (r: &Vec<u32>)
        requires
            self is Float32,
        ensures
            self.view() == TypedVecModel::Floats(r@),
    {
        match self {
            TypedVec::Float32(v) => v,
            _ => unreached(),
        }
    }

    /// A flag's payload is unrestricted; its mere presence means "set", so
    /// any value that could be fetched reads as true.  Prefer asking the
    /// record `has_flag` instead.
    pub fn flag(&self) -> (r: bool)
        ensures
            r == true,
    {
        true
    }

    /// The string elements of this value: the stored bytes split at commas.
    pub fn string(&self) -> (r: Vec<Vec<u8>>)
        requires
            self is UString,
        ensures
            self.view() matches TypedVecModel::Str(s) && r@.map_values(|v: Vec<u8>| v@)
                == spec_split(s, COMMA),
    {
        match self {
            TypedVec::UString(v) => split_bytes(v, COMMA),
            _ => unreached(),
        }
    }
}

/// An undecoded typed value: the verbatim payload bytes of one typed
/// vector, tagged with the kind its descriptor declared.  A lazy record
/// keeps values in this form and widens only the one a caller asks for.
#[derive(Debug, Clone, PartialEq, Eq)]
pub enum RawVec {
    Missing,
    Int8(Vec<u8>),
    Int16(Vec<u8>),
    Int32(Vec<u8>),
    Float32(Vec<u8>),
    UString(Vec<u8>),
}

impl RawVec {
    /// The decoded meaning of the raw payload: widened integers or float
    /// bit patterns with trailing end-of-vector padding stripped, or the
    /// verbatim string bytes.
    pub open spec fn view(self) -> TypedVecModel {
        match self {
            RawVec::Missing => TypedVecModel::Missing,
            RawVec::Int8(b) => TypedVecModel::Ints(
                crate::codec::spec_strip_eov(
                    crate::codec::spec_ints_at(b@, 0, TypeKind::Int8, b@.len()),
                    EOV_INT8,
                ),
            ),
            RawVec::Int16(b) => TypedVecModel::Ints(
                crate::codec::spec_strip_eov(
                    crate::codec::spec_ints_at(b@, 0, TypeKind::Int16, (b@.len() / 2) as nat),
                    EOV_INT16,
                ),
            ),
            RawVec::Int32(b) => TypedVecModel::Ints(
                crate::codec::spec_strip_eov(
                    crate::codec::spec_ints_at(b@, 0, TypeKind::Int32, (b@.len() / 4) as nat),
                    EOV_INT32,
                ),
            ),
            RawVec::Float32(b) => TypedVecModel::Floats(
                crate::codec::spec_strip_eov_floats(
                    crate::codec::spec_floats_at(b@, 0, (b@.len() / 4) as nat),
                ),
            ),
            RawVec::UString(b) => TypedVecModel::Str(b@),
        }
    }

    /// Decodes the raw payload into an owned typed value.
    pub fn into_typed(self) -> (r: TypedVec)
        ensures
            r.view() == self.view(),
    {
        match self {
            RawVec::Missing => TypedVec::Missing,
            RawVec::Int8(b) => {
                let n = b.len();
                let mut v = match crate::codec::read_int_run(b.as_slice(), 0, TypeKind::Int8, n) {
                    Ok((v, _)) => v,
                    Err(_) => unreached(),
                };
                crate::codec::strip_eov(&mut v, EOV_INT8);
                TypedVec::Int32(v)
            },
            RawVec::Int16(b) => {
                let n = b.len() / 2;
                let mut v = match crate::codec::read_int_run(b.as_slice(), 0, TypeKind::Int16, n) {
                    Ok((v, _)) => v,
                    Err(_) => unreached(),
                };
                crate::codec::strip_eov(&mut v, EOV_INT16);
                TypedVec::Int32(v)
            },
            RawVec::Int32(b) => {
                let n = b.len() / 4;
                let mut v = match crate::codec::read_int_run(b.as_slice(), 0, TypeKind::Int32, n) {
                    Ok((v, _)) => v,
                    Err(_) => unreached(),
                };
                crate::codec::strip_eov(&mut v, EOV_INT32);
                TypedVec::Int32(v)
            },
            RawVec::Float32(b) => {
                let n = b.len() / 4;
                let mut v = match crate::codec::read_float_run(b.as_slice(), 0, n) {
                    Ok((v, _)) => v,
                    Err(_) => unreached(),
                };
                crate::codec::strip_eov_floats(&mut v);
                TypedVec::Float32(v)
            },
            RawVec::UString(b) => TypedVec::UString(b),
        }
    }
}

/// The first index at or after `from` holding `sep`, or the length of `s`
/// if there is none.
pub open spec fn spec_find(s: Seq<u8>, sep: u8, from: int) -> int
    decreases s.len() - from,
{
    if from < 0 || from >= s.len() {
        s.len() as int
    } else if s[from] == sep {
        from
    } else {
        spec_find(s, sep, from + 1)
    }
}

/// The segments of `s` between occurrences of `sep`, starting at `from`.
/// An empty sequence yields one empty segment, like `split` in std.
pub open spec fn spec_split_from(s: Seq<u8>, sep: u8, from: int) -> Seq<Seq<u8>>
    decreases s.len() - from,
{
    let j = spec_find(s, sep, from);
    if from < 0 || from > s.len() {
        Seq::empty()
    } else if j >= s.len() {
        seq![s.subrange(from, s.len() as int)]
    } else if j < from {
        Seq::empty()
    } else {
        seq![s.subrange(from, j)] + spec_split_from(s, sep, j + 1)
    }
}

pub open spec fn spec_split(s: Seq<u8>, sep: u8) -> Seq<Seq<u8>> {
    spec_split_from(s, sep, 0)
}

/// Finds the first occurrence of `sep` in `v` at or after `from`.
fn find_byte(v: &Vec<u8>, sep: u8, from: usize) -> (r: usize)
    requires
        from <= v@.len(),
    ensures
        r == spec_find(v@, sep, from as int),
        from <= r <= v@.len(),
{
    let mut i = from;
    while i < v.len()
        invariant
            from <= i <= v@.len(),
            spec_find(v@, sep, from as int) == spec_find(v@, sep, i as int),
        decreases v@.len() - i,
    {
        if v[i] == sep {
            return i;
        }
        i = i + 1;
    }
    i
}

/// Copies `v[a..b]` into a fresh vector.
pub fn copy_range(v: &Vec<u8>, a: usize, b: usize) -> (r: Vec<u8>)
    requires
        a <= b <= v@.len(),
    ensures
        r@ == v@.subrange(a as int, b as int),
{
    let mut out: Vec<u8> = Vec::new();
    let mut i = a;
    while i < b
        invariant
            a <= i <= b <= v@.len(),
            out@ == v@.subrange(a as int, i as int),
        decreases b - i,
    {
        out.push(v[i]);
        assert(out@ == v@.subrange(a as int, i + 1));
        i = i + 1;
    }
    out
}

/// Copies a whole byte vector.
pub fn copy_all(v: &Vec<u8>) -> (r: Vec<u8>)
    ensures
        r@ == v@,
{
    let r = copy_range(v, 0, v.len());
    proof {
        assert(r@ =~= v@);
    }
    r
}

/// Copies a vector of i32.
pub fn copy_i32s(v: &Vec<i32>) -> (r: Vec<i32>)
    ensures
        r@ == v@,
{
    let mut out: Vec<i32> = Vec::new();
    let n = v.len();
    let mut i: usize = 0;
    while i < n
        invariant
            i <= n == v@.len(),
            out@ == v@.subrange(0, i as int),
        decreases n - i,
    {
        out.push(v[i]);
        assert(out@ == v@.subrange(0, i + 1));
        i = i + 1;
    }
    assert(out@ =~= v@);
    out
}

/// Copies a vector of u32.
pub fn copy_u32s(v: &Vec<u32>) -> (r: Vec<u32>)
    ensures
        r@ == v@,
{
    let mut out: Vec<u32> = Vec::new();
    let n = v.len();
    let mut i: usize = 0;
    while i < n
        invariant
            i <= n == v@.len(),
            out@ == v@.subrange(0, i as int),
        decreases n - i,
    {
        out.push(v[i]);
        assert(out@ == v@.subrange(0, i + 1));
        i = i + 1;
    }
    assert(out@ =~= v@);
    out
}

impl TypedVec {
    /// Copies a typed value.
    pub fn duplicate(&self) -> (r: TypedVec)
        ensures
            r.view() == self.view(),
    {
        match self {
            TypedVec::Missing => TypedVec::Missing,
            TypedVec::Int32(v) => TypedVec::Int32(copy_i32s(v)),
            TypedVec::Float32(v) => TypedVec::Float32(copy_u32s(v)),
            TypedVec::UString(v) => TypedVec::UString(copy_all(v)),
        }
    }
}

/// Splits `v` at every occurrence of `sep`, like `split` in std.
pub(crate) fn split_bytes(v: &Vec<u8>, sep: u8) -> (r: Vec<Vec<u8>>)
    ensures
        r@.map_values(|x: Vec<u8>| x@) == spec_split(v@, sep),
{
    let mut out: Vec<Vec<u8>> = Vec::new();
    let mut cur: usize = 0;
    loop
        invariant
            cur <= v@.len(),
            spec_split(v@, sep) == out@.map_values(|x: Vec<u8>| x@) + spec_split_from(
                v@,
                sep,
                cur as int,
            ),
        decreases v@.len() - cur,
    {
        let j = find_byte(v, sep, cur);
        if j >= v.len() {
            out.push(copy_range(v, cur, v.len()));
            assert(out@.map_values(|x: Vec<u8>| x@) == out@.map_values(|x: Vec<u8>| x@).drop_last()
                + seq![v@.subrange(cur as int, v@.len() as int)]);
            return out;
        } else {
            out.push(copy_range(v, cur, j));
            assert(out@.map_values(|x: Vec<u8>| x@) == out@.map_values(|x: Vec<u8>| x@).drop_last()
                + seq![v@.subrange(cur as int, j as int)]);
            cur = j + 1;
        }
    }
}


/// The declared Type of an INFO or FORMAT field.
#[derive(Debug, Clone, Copy, PartialEq, Eq, Structural)]
pub enum InfoType {
    Integer,
    Float,
    Flag,
    Character,
    String,
}

/// The declared Number (cardinality) of an INFO or FORMAT field.
#[derive(Debug, Clone, Copy, PartialEq, Eq, Structural)]
pub enum InfoNumber {
    Count(usize),
    Alleles,
    AlternateAlleles,
    Genotypes,
    Unknown,
}

/// Mathematical value of one INFO dictionary entry.
pub struct HeaderInfoModel {
    pub id: Seq<u8>,
    pub number: InfoNumber,
    pub kind: InfoType,
    pub description: Seq<u8>,
    pub source: Seq<u8>,
    pub version: Seq<u8>,
    pub idx: int,
    pub additional: Seq<(Seq<u8>, Seq<u8>)>,
}

/// One INFO dictionary entry of the header.  `idx` is the integer handle
/// by which records reference this field.
#[derive(Debug, Clone)]
pub struct HeaderInfo {
    pub id: Vec<u8>,
    pub number: InfoNumber,
    pub kind: InfoType,
    pub description: Vec<u8>,
    pub source: Vec<u8>,
    pub version: Vec<u8>,
    pub idx: usize,
    pub additional: Vec<(Vec<u8>, Vec<u8>)>,
}

/// View of a sequence of byte-string pairs.
pub open spec fn pairs_view(v: Seq<(Vec<u8>, Vec<u8>)>) -> Seq<(Seq<u8>, Seq<u8>)> {
    v.map_values(|p: (Vec<u8>, Vec<u8>)| (p.0@, p.1@))
}

impl HeaderInfo {
    pub open spec fn view(self) -> HeaderInfoModel {
        HeaderInfoModel {
            id: self.id@,
            number: self.number,
            kind: self.kind,
            description: self.description@,
            source: self.source@,
            version: self.version@,
            idx: self.idx as int,
            additional: pairs_view(self.additional@),
        }
    }
}

/// Mathematical value of one FORMAT dictionary entry.
pub struct HeaderFormatModel {
    pub id: Seq<u8>,
    pub number: InfoNumber,
    pub kind: InfoType,
    pub description: Seq<u8>,
    pub idx: int,
}

/// One FORMAT dictionary entry of the header.
#[derive(Debug, Clone)]
pub struct HeaderFormat {
    pub id: Vec<u8>,
    pub number: InfoNumber,
    pub kind: InfoType,
    pub description: Vec<u8>,
    pub idx: usize,
}

impl HeaderFormat {
    pub open spec fn view(self) -> HeaderFormatModel {
        HeaderFormatModel {
            id: self.id@,
            number: self.number,
            kind: self.kind,
            description: self.description@,
            idx: self.idx as int,
        }
    }
}

/// Mathematical value of one contig line.
pub struct HeaderContigModel {
    pub id: Seq<u8>,
    pub length: Option<int>,
    pub additional: Seq<(Seq<u8>, Seq<u8>)>,
}

/// One contig (reference sequence) declared by the header.  Records refer
/// to contigs by their position in the header, in order of declaration.
#[derive(Debug, Clone)]
pub struct HeaderContig {
    pub id: Vec<u8>,
    pub length: Option<usize>,
    pub additional: Vec<(Vec<u8>, Vec<u8>)>,
}

impl HeaderContig {
    pub open spec fn view(self) -> HeaderContigModel {
        HeaderContigModel {
            id: self.id@,
            length: match self.length {
                Some(l) => Some(l as int),
                None => None,
            },
            additional: pairs_view(self.additional@),
        }
    }
}

/// Mathematical value of one FILTER line.
pub struct HeaderFilterModel {
    pub id: Seq<u8>,
    pub description: Seq<u8>,
}

/// One FILTER declared by the header.  Records refer to filters by their
/// position in the header, in order of declaration.
#[derive(Debug, Clone)]
pub struct HeaderFilter {
    pub id: Vec<u8>,
    pub description: Vec<u8>,
}

impl HeaderFilter {
    pub open spec fn view(self) -> HeaderFilterModel {
        HeaderFilterModel { id: self.id@, description: self.description@ }
    }
}

/// Mathematical value of a parsed header.
pub struct HeaderModel {
    pub meta: Seq<(Seq<u8>, Seq<u8>)>,
    pub info: Seq<HeaderInfoModel>,
    pub format: Seq<HeaderFormatModel>,
    pub contigs: Seq<HeaderContigModel>,
    pub filters: Seq<HeaderFilterModel>,
    pub samples: Seq<Seq<u8>>,
}

/// The parsed text header: the generic lines in order, the four structured
/// tables, and the sample names from the `#CHROM` line.
#[derive(Debug, Clone)]
pub struct Header {
    pub meta: Vec<(Vec<u8>, Vec<u8>)>,
    pub info: Vec<HeaderInfo>,
    pub format: Vec<HeaderFormat>,
    pub contigs: Vec<HeaderContig>,
    pub filters: Vec<HeaderFilter>,
    pub samples: Vec<Vec<u8>>,
}

impl View for Header {
    type V = HeaderModel;

    open spec fn view(&self) -> HeaderModel {
        HeaderModel {
            meta: pairs_view(self.meta@),
            info: self.info@.map_values(|e: HeaderInfo| e.view()),
            format: self.format@.map_values(|e: HeaderFormat| e.view()),
            contigs: self.contigs@.map_values(|e: HeaderContig| e.view()),
            filters: self.filters@.map_values(|e: HeaderFilter| e.view()),
            samples: self.samples@.map_values(|v: Vec<u8>| v@),
        }
    }
}

/// Relies on `Rc::as_ref` of std: it hands out a shared reference to the
/// one value the reference-counted pointer owns.
#[verifier::external_body]
pub fn rc_header(rc: &std::rc::Rc<Header>) -> (r: &Header)
    ensures
        r@ == rc@,
{
    rc.as_ref()
}

/// Relies on `Rc::clone` of std: the clone is a second handle on the same
/// value.
#[verifier::external_body]
pub fn rc_clone_header(rc: &std::rc::Rc<Header>) -> (r: std::rc::Rc<Header>)
    ensures
        r@ == rc@,
{
    std::rc::Rc::clone(rc)
}

/// The handle of the first INFO entry whose ID equals `tag`, if any.
pub open spec fn spec_info_idx_of(info: Seq<HeaderInfoModel>, tag: Seq<u8>) -> Option<int>
    decreases info.len(),
{
    if info.len() == 0 {
        None
    } else if info[0].id == tag {
        Some(info[0].idx)
    } else {
        spec_info_idx_of(info.drop_first(), tag)
    }
}

/// The handle of the first FORMAT entry whose ID equals `tag`, if any.
pub open spec fn spec_format_idx_of(format: Seq<HeaderFormatModel>, tag: Seq<u8>) -> Option<int>
    decreases format.len(),
{
    if format.len() == 0 {
        None
    } else if format[0].id == tag {
        Some(format[0].idx)
    } else {
        spec_format_idx_of(format.drop_first(), tag)
    }
}

/// The first INFO entry whose handle equals `idx`, if any.
pub open spec fn spec_entry_by_idx(info: Seq<HeaderInfoModel>, idx: int) -> Option<HeaderInfoModel>
    decreases info.len(),
{
    if info.len() == 0 {
        None
    } else if info[0].idx == idx {
        Some(info[0])
    } else {
        spec_entry_by_idx(info.drop_first(), idx)
    }
}

/// The first FORMAT entry whose handle equals `idx`, if any.
pub open spec fn spec_format_by_idx(format: Seq<HeaderFormatModel>, idx: int) -> Option<
    HeaderFormatModel,
>
    decreases format.len(),
{
    if format.len() == 0 {
        None
    } else if format[0].idx == idx {
        Some(format[0])
    } else {
        spec_format_by_idx(format.drop_first(), idx)
    }
}

/// Compares a byte vector with a byte slice.
pub fn bytes_eq(a: &Vec<u8>, b: &[u8]) -> (r: bool)
    ensures
        r == (a@ == b@),
{
    if a.len() != b.len() {
        assert(a@ != b@);
        return false;
    }
    let n = a.len();
    let mut i: usize = 0;
    while i < n
        invariant
            i <= n,
            n == a@.len() == b@.len(),
            forall|j: int| 0 <= j < i ==> a@[j] == b@[j],
        decreases n - i,
    {
        if a[i] != *vstd::slice::slice_index_get(b, i) {
            return false;
        }
        i = i + 1;
    }
    proof {
        assert(a@ =~= b@);
    }
    true
}

impl Header {
    /// Looks a tag up in the INFO dictionary, yielding its record handle.
    pub fn info_tag_to_offset(&self, tag: &[u8]) -> (r: Option<usize>)
        ensures
            match r {
                Some(idx) => spec_info_idx_of(self.view().info, tag@) == Some(idx as int),
                None => spec_info_idx_of(self.view().info, tag@) is None,
            },
    {
        let n = self.info.len();
        let mut i: usize = 0;
        assert(self.view().info.skip(0) =~= self.view().info);
        while i < n
            invariant
                i <= n,
                n == self.info@.len(),
                spec_info_idx_of(self.view().info, tag@) == spec_info_idx_of(
                    self.view().info.skip(i as int),
                    tag@,
                ),
            decreases n - i,
        {
            assert(self.view().info.skip(i as int).drop_first() =~= self.view().info.skip(
                i + 1,
            ));
            assert(self.view().info.skip(i as int)[0] == self.view().info[i as int]);
            if bytes_eq(&self.info[i].id, tag) {
                return Some(self.info[i].idx);
            }
            i = i + 1;
        }
        assert(self.view().info.skip(n as int) =~= Seq::<HeaderInfoModel>::empty());
        None
    }

    /// The first INFO entry carrying the given record handle, if any.
    pub fn info_by_idx(&self, idx: usize) -> (r: Option<&HeaderInfo>)
        ensures
            match r {
                Some(e) => spec_entry_by_idx(self.view().info, idx as int) == Some(e.view()),
                None => spec_entry_by_idx(self.view().info, idx as int) is None,
            },
    {
        let n = self.info.len();
        let mut i: usize = 0;
        assert(self.view().info.skip(0) =~= self.view().info);
        while i < n
            invariant
                i <= n == self.info@.len(),
                spec_entry_by_idx(self.view().info, idx as int) == spec_entry_by_idx(
                    self.view().info.skip(i as int),
                    idx as int,
                ),
            decreases n - i,
        {
            assert(self.view().info.skip(i as int).drop_first() =~= self.view().info.skip(
                i + 1,
            ));
            assert(self.view().info.skip(i as int)[0] == self.view().info[i as int]);
            if self.info[i].idx == idx {
                return Some(&self.info[i]);
            }
            i = i + 1;
        }
        assert(self.view().info.skip(n as int) =~= Seq::<HeaderInfoModel>::empty());
        None
    }

    /// The first FORMAT entry carrying the given record handle, if any.
    pub fn format_by_idx(&self, idx: usize) -> (r: Option<&HeaderFormat>)
        ensures
            match r {
                Some(e) => spec_format_by_idx(self.view().format, idx as int) == Some(e.view()),
                None => spec_format_by_idx(self.view().format, idx as int) is None,
            },
    {
        let n = self.format.len();
        let mut i: usize = 0;
        assert(self.view().format.skip(0) =~= self.view().format);
        while i < n
            invariant
                i <= n == self.format@.len(),
                spec_format_by_idx(self.view().format, idx as int) == spec_format_by_idx(
                    self.view().format.skip(i as int),
                    idx as int,
                ),
            decreases n - i,
        {
            assert(self.view().format.skip(i as int).drop_first() =~= self.view().format.skip(
                i + 1,
            ));
            assert(self.view().format.skip(i as int)[0] == self.view().format[i as int]);
            if self.format[i].idx == idx {
                return Some(&self.format[i]);
            }
            i = i + 1;
        }
        assert(self.view().format.skip(n as int) =~= Seq::<HeaderFormatModel>::empty());
        None
    }

    /// Looks a tag up in the FORMAT dictionary, yielding its record handle.
    pub fn format_tag_to_offset(&self, tag: &[u8]) -> (r: Option<usize>)
        ensures
            match r {
                Some(idx) => spec_format_idx_of(self.view().format, tag@) == Some(idx as int),
                None => spec_format_idx_of(self.view().format, tag@) is None,
            },
    {
        let n = self.format.len();
        let mut i: usize = 0;
        assert(self.view().format.skip(0) =~= self.view().format);
        while i < n
            invariant
                i <= n,
                n == self.format@.len(),
                spec_format_idx_of(self.view().format, tag@) == spec_format_idx_of(
                    self.view().format.skip(i as int),
                    tag@,
                ),
            decreases n - i,
        {
            assert(self.view().format.skip(i as int).drop_first() =~= self.view().format.skip(
                i + 1,
            ));
            assert(self.view().format.skip(i as int)[0] == self.view().format[i as int]);
            if bytes_eq(&self.format[i].id, tag) {
                return Some(self.format[i].idx);
            }
            i = i + 1;
        }
        assert(self.view().format.skip(n as int) =~= Seq::<HeaderFormatModel>::empty());
        None
    }
}

} // verus!