//! The text-VCF header parser: the `##KEY=VALUE` line grammar, the
//! `<k=v,...>` dictionaries with quoted values, the `#CHROM` sample line,
//! and the assembly of the parsed lines into the header tables.
//!
//! Structured lines must carry their mandatory fields; an entry without an
//! explicit IDX is assigned the next dense handle of its dictionary, in
//! order of appearance.

use vstd::prelude::*;
use vstd::string::StringSliceAdditionalSpecFns;

use crate::types::{
    bytes_eq, copy_all, copy_range, pairs_view, spec_find, BcfError, Header, HeaderContig,
    HeaderContigModel, HeaderFilter, HeaderFilterModel, HeaderFormat, HeaderFormatModel,
    HeaderInfo, HeaderInfoModel, HeaderModel, InfoNumber, InfoType,
};

verus! {

/// Line feed.
pub const NL: u8 = 10;

/// Horizontal tab.
pub const TAB: u8 = 9;

/// The byte value of '#'.
pub const HASH: u8 = 35;

/// The byte value of '='.
pub const EQ: u8 = 61;

/// The byte value of '<'.
pub const LT: u8 = 60;

/// The byte value of '>'.
pub const GT: u8 = 62;

/// The byte value of '"'.
pub const QUOTE: u8 = 34;

/// The byte value of a backslash.
pub const BSLASH: u8 = 92;

/// The byte value of ','.
pub const COMMA: u8 = 44;

/// The bytes of "INFO".
pub open spec fn kw_info() -> Seq<u8> {
    seq![73u8, 78u8, 70u8, 79u8]
}

/// Builds the byte vector "INFO".
pub fn kw_vec_info() -> (r: Vec<u8>)
    ensures
        r@ == kw_info(),
{
    let mut v: Vec<u8> = Vec::new();
    v.push(73);
    v.push(78);
    v.push(70);
    v.push(79);
    proof {
        assert(v@ =~= kw_info());
    }
    v
}

/// The bytes of "FORMAT".
pub open spec fn kw_format() -> Seq<u8> {
    seq![70u8, 79u8, 82u8, 77u8, 65u8, 84u8]
}

/// Builds the byte vector "FORMAT".
pub fn kw_vec_format() -> (r: Vec<u8>)
    ensures
        r@ == kw_format(),
{
    let mut v: Vec<u8> = Vec::new();
    v.push(70);
    v.push(79);
    v.push(82);
    v.push(77);
    v.push(65);
    v.push(84);
    proof {
        assert(v@ =~= kw_format());
    }
    v
}

/// The bytes of "FILTER".
pub open spec fn kw_filter() -> Seq<u8> {
    seq![70u8, 73u8, 76u8, 84u8, 69u8, 82u8]
}

/// Builds the byte vector "FILTER".
pub fn kw_vec_filter() -> (r: Vec<u8>)
    ensures
        r@ == kw_filter(),
{
    let mut v: Vec<u8> = Vec::new();
    v.push(70);
    v.push(73);
    v.push(76);
    v.push(84);
    v.push(69);
    v.push(82);
    proof {
        assert(v@ =~= kw_filter());
    }
    v
}

/// The bytes of "contig".
pub open spec fn kw_contig() -> Seq<u8> {
    seq![99u8, 111u8, 110u8, 116u8, 105u8, 103u8]
}

/// Builds the byte vector "contig".
pub fn kw_vec_contig() -> (r: Vec<u8>)
    ensures
        r@ == kw_contig(),
{
    let mut v: Vec<u8> = Vec::new();
    v.push(99);
    v.push(111);
    v.push(110);
    v.push(116);
    v.push(105);
    v.push(103);
    proof {
        assert(v@ =~= kw_contig());
    }
    v
}

/// The bytes of "ID".
pub open spec fn kw_id() -> Seq<u8> {
    seq![73u8, 68u8]
}

/// Builds the byte vector "ID".
pub fn kw_vec_id() -> (r: Vec<u8>)
    ensures
        r@ == kw_id(),
{
    let mut v: Vec<u8> = Vec::new();
    v.push(73);
    v.push(68);
    proof {
        assert(v@ =~= kw_id());
    }
    v
}

/// The bytes of "Number".
pub open spec fn kw_number() -> Seq<u8> {
    seq![78u8, 117u8, 109u8, 98u8, 101u8, 114u8]
}

/// Builds the byte vector "Number".
pub fn kw_vec_number() -> (r: Vec<u8>)
    ensures
        r@ == kw_number(),
{
    let mut v: Vec<u8> = Vec::new();
    v.push(78);
    v.push(117);
    v.push(109);
    v.push(98);
    v.push(101);
    v.push(114);
    proof {
        assert(v@ =~= kw_number());
    }
    v
}

/// The bytes of "Type".
pub open spec fn kw_type() -> Seq<u8> {
    seq![84u8, 121u8, 112u8, 101u8]
}

/// Builds the byte vector "Type".
pub fn kw_vec_type() -> (r: Vec<u8>)
    ensures
        r@ == kw_type(),
{
    let mut v: Vec<u8> = Vec::new();
    v.push(84);
    v.push(121);
    v.push(112);
    v.push(101);
    proof {
        assert(v@ =~= kw_type());
    }
    v
}

/// The bytes of "Description".
pub open spec fn kw_description() -> Seq<u8> {
    seq![68u8, 101u8, 115u8, 99u8, 114u8, 105u8, 112u8, 116u8, 105u8, 111u8, 110u8]
}

/// Builds the byte vector "Description".
pub fn kw_vec_description() -> (r: Vec<u8>)
    ensures
        r@ == kw_description(),
{
    let mut v: Vec<u8> = Vec::new();
    v.push(68);
    v.push(101);
    v.push(115);
    v.push(99);
    v.push(114);
    v.push(105);
    v.push(112);
    v.push(116);
    v.push(105);
    v.push(111);
    v.push(110);
    proof {
        assert(v@ =~= kw_description());
    }
    v
}

/// The bytes of "Source".
pub open spec fn kw_source() -> Seq<u8> {
    seq![83u8, 111u8, 117u8, 114u8, 99u8, 101u8]
}

/// Builds the byte vector "Source".
pub fn kw_vec_source() -> (r: Vec<u8>)
    ensures
        r@ == kw_source(),
{
    let mut v: Vec<u8> = Vec::new();
    v.push(83);
    v.push(111);
    v.push(117);
    v.push(114);
    v.push(99);
    v.push(101);
    proof {
        assert(v@ =~= kw_source());
    }
    v
}

/// The bytes of "Version".
pub open spec fn kw_version() -> Seq<u8> {
    seq![86u8, 101u8, 114u8, 115u8, 105u8, 111u8, 110u8]
}

/// Builds the byte vector "Version".
pub fn kw_vec_version() -> (r: Vec<u8>)
    ensures
        r@ == kw_version(),
{
    let mut v: Vec<u8> = Vec::new();
    v.push(86);
    v.push(101);
    v.push(114);
    v.push(115);
    v.push(105);
    v.push(111);
    v.push(110);
    proof {
        assert(v@ =~= kw_version());
    }
    v
}

/// The bytes of "IDX".
pub open spec fn kw_idx() -> Seq<u8> {
    seq![73u8, 68u8, 88u8]
}

/// Builds the byte vector "IDX".
pub fn kw_vec_idx() -> (r: Vec<u8>)
    ensures
        r@ == kw_idx(),
{
    let mut v: Vec<u8> = Vec::new();
    v.push(73);
    v.push(68);
    v.push(88);
    proof {
        assert(v@ =~= kw_idx());
    }
    v
}

/// The bytes of "length".
pub open spec fn kw_length() -> Seq<u8> {
    seq![108u8, 101u8, 110u8, 103u8, 116u8, 104u8]
}

/// Builds the byte vector "length".
pub fn kw_vec_length() -> (r: Vec<u8>)
    ensures
        r@ == kw_length(),
{
    let mut v: Vec<u8> = Vec::new();
    v.push(108);
    v.push(101);
    v.push(110);
    v.push(103);
    v.push(116);
    v.push(104);
    proof {
        assert(v@ =~= kw_length());
    }
    v
}

/// The bytes of "A".
pub open spec fn kw_cap_a() -> Seq<u8> {
    seq![65u8]
}

/// Builds the byte vector "A".
pub fn kw_vec_cap_a() -> (r: Vec<u8>)
    ensures
        r@ == kw_cap_a(),
{
    let mut v: Vec<u8> = Vec::new();
    v.push(65);
    proof {
        assert(v@ =~= kw_cap_a());
    }
    v
}

/// The bytes of "R".
pub open spec fn kw_cap_r() -> Seq<u8> {
    seq![82u8]
}

/// Builds the byte vector "R".
pub fn kw_vec_cap_r() -> (r: Vec<u8>)
    ensures
        r@ == kw_cap_r(),
{
    let mut v: Vec<u8> = Vec::new();
    v.push(82);
    proof {
        assert(v@ =~= kw_cap_r());
    }
    v
}

/// The bytes of "G".
pub open spec fn kw_cap_g() -> Seq<u8> {
    seq![71u8]
}

/// Builds the byte vector "G".
pub fn kw_vec_cap_g() -> (r: Vec<u8>)
    ensures
        r@ == kw_cap_g(),
{
    let mut v: Vec<u8> = Vec::new();
    v.push(71);
    proof {
        assert(v@ =~= kw_cap_g());
    }
    v
}

/// The bytes of ".".
pub open spec fn kw_dot() -> Seq<u8> {
    seq![46u8]
}

/// Builds the byte vector ".".
pub fn kw_vec_dot() -> (r: Vec<u8>)
    ensures
        r@ == kw_dot(),
{
    let mut v: Vec<u8> = Vec::new();
    v.push(46);
    proof {
        assert(v@ =~= kw_dot());
    }
    v
}

/// The bytes of "Integer".
pub open spec fn kw_integer() -> Seq<u8> {
    seq![73u8, 110u8, 116u8, 101u8, 103u8, 101u8, 114u8]
}

/// Builds the byte vector "Integer".
pub fn kw_vec_integer() -> (r: Vec<u8>)
    ensures
        r@ == kw_integer(),
{
    let mut v: Vec<u8> = Vec::new();
    v.push(73);
    v.push(110);
    v.push(116);
    v.push(101);
    v.push(103);
    v.push(101);
    v.push(114);
    proof {
        assert(v@ =~= kw_integer());
    }
    v
}

/// The bytes of "Float".
pub open spec fn kw_float() -> Seq<u8> {
    seq![70u8, 108u8, 111u8, 97u8, 116u8]
}

/// Builds the byte vector "Float".
pub fn kw_vec_float() -> (r: Vec<u8>)
    ensures
        r@ == kw_float(),
{
    let mut v: Vec<u8> = Vec::new();
    v.push(70);
    v.push(108);
    v.push(111);
    v.push(97);
    v.push(116);
    proof {
        assert(v@ =~= kw_float());
    }
    v
}

/// The bytes of "Flag".
pub open spec fn kw_flag() -> Seq<u8> {
    seq![70u8, 108u8, 97u8, 103u8]
}

/// Builds the byte vector "Flag".
pub fn kw_vec_flag() -> (r: Vec<u8>)
    ensures
        r@ == kw_flag(),
{
    let mut v: Vec<u8> = Vec::new();
    v.push(70);
    v.push(108);
    v.push(97);
    v.push(103);
    proof {
        assert(v@ =~= kw_flag());
    }
    v
}

/// The bytes of "Character".
pub open spec fn kw_character() -> Seq<u8> {
    seq![67u8, 104u8, 97u8, 114u8, 97u8, 99u8, 116u8, 101u8, 114u8]
}

/// Builds the byte vector "Character".
pub fn kw_vec_character() -> (r: Vec<u8>)
    ensures
        r@ == kw_character(),
{
    let mut v: Vec<u8> = Vec::new();
    v.push(67);
    v.push(104);
    v.push(97);
    v.push(114);
    v.push(97);
    v.push(99);
    v.push(116);
    v.push(101);
    v.push(114);
    proof {
        assert(v@ =~= kw_character());
    }
    v
}

/// The bytes of "String".
pub open spec fn kw_string() -> Seq<u8> {
    seq![83u8, 116u8, 114u8, 105u8, 110u8, 103u8]
}

/// Builds the byte vector "String".
pub fn kw_vec_string() -> (r: Vec<u8>)
    ensures
        r@ == kw_string(),
{
    let mut v: Vec<u8> = Vec::new();
    v.push(83);
    v.push(116);
    v.push(114);
    v.push(105);
    v.push(110);
    v.push(103);
    proof {
        assert(v@ =~= kw_string());
    }
    v
}

/// The bytes of "GT".
pub open spec fn kw_gt() -> Seq<u8> {
    seq![71u8, 84u8]
}

/// Builds the byte vector "GT".
pub fn kw_vec_gt() -> (r: Vec<u8>)
    ensures
        r@ == kw_gt(),
{
    let mut v: Vec<u8> = Vec::new();
    v.push(71);
    v.push(84);
    proof {
        assert(v@ =~= kw_gt());
    }
    v
}

/// Compares two byte vectors.
pub fn vec_eq(a: &Vec<u8>, b: &Vec<u8>) -> (r: bool)
    ensures
        r == (a@ == b@),
{
    bytes_eq(a, b.as_slice())
}

/// Whether `b` is an ASCII decimal digit.
pub open spec fn spec_is_digit(b: u8) -> bool {
    48 <= b <= 57
}

/// Whether every byte of `s` is a decimal digit.
pub open spec fn spec_all_digits(s: Seq<u8>) -> bool {
    forall|i: int| 0 <= i < s.len() ==> spec_is_digit(#[trigger] s[i])
}

/// The integer a run of decimal digits denotes.
pub open spec fn spec_digits_val(s: Seq<u8>) -> int
    decreases s.len(),
{
    if s.len() == 0 {
        0
    } else {
        spec_digits_val(s.drop_last()) * 10 + (s.last() - 48)
    }
}

/// The usize a byte string denotes: it must be a non-empty digit run whose
/// value fits.
pub open spec fn spec_parse_usize(s: Seq<u8>) -> Option<int> {
    if s.len() > 0 && spec_all_digits(s) && spec_digits_val(s) <= usize::MAX {
        Some(spec_digits_val(s))
    } else {
        None
    }
}

/// A digit run denotes a nonnegative value.
proof fn lemma_digits_nonneg(s: Seq<u8>)
    requires
        spec_all_digits(s),
    ensures
        spec_digits_val(s) >= 0,
    decreases s.len(),
{
    if s.len() > 0 {
        assert(spec_all_digits(s.drop_last()));
        lemma_digits_nonneg(s.drop_last());
    }
}

/// The value of a digit run only grows as digits are appended.
proof fn lemma_digits_prefix(s: Seq<u8>, i: int)
    requires
        spec_all_digits(s),
        0 <= i <= s.len(),
    ensures
        spec_digits_val(s.take(i)) <= spec_digits_val(s),
    decreases s.len() - i,
{
    if i < s.len() {
        assert(s.take(i + 1).drop_last() =~= s.take(i));
        assert(s.take(i + 1).last() == s[i]);
        assert(spec_all_digits(s.take(i)));
        lemma_digits_nonneg(s.take(i));
        assert(spec_digits_val(s.take(i)) <= spec_digits_val(s.take(i + 1)));
        lemma_digits_prefix(s, i + 1);
        assert(s.take(s.len() as int) =~= s);
    } else {
        assert(s.take(i) =~= s);
    }
}

/// Parses a decimal usize from a byte vector.
pub fn parse_usize_bytes(s: &Vec<u8>) -> (r: Option<usize>)
    ensures
        match r {
            Some(v) => spec_parse_usize(s@) == Some(v as int),
            None => spec_parse_usize(s@) is None,
        },
{
    if s.len() == 0 {
        return None;
    }
    let n = s.len();
    let mut acc: usize = 0;
    let mut i: usize = 0;
    while i < n
        invariant
            0 < n == s@.len(),
            i <= n,
            spec_all_digits(s@.take(i as int)),
            acc == spec_digits_val(s@.take(i as int)),
        decreases n - i,
    {
        let b = s[i];
        if b < 48 || b > 57 {
            assert(!spec_is_digit(s@[i as int]));
            return None;
        }
        let d = (b - 48) as usize;
        if acc > (usize::MAX - d) / 10 {
            proof {
                assert(s@.take(i + 1).drop_last() =~= s@.take(i as int));
                assert(spec_digits_val(s@.take(i + 1)) == acc * 10 + d);
                assert(acc * 10 + d > usize::MAX) by {
                    let m = usize::MAX as int;
                    assert(acc > (m - d) / 10);
                    assert((m - d) / 10 * 10 + (m - d) % 10 == m - d);
                };
                if spec_all_digits(s@) {
                    lemma_digits_prefix(s@, i + 1);
                }
            }
            return None;
        }
        assert(acc * 10 + d <= usize::MAX) by {
            let m = usize::MAX as int;
            assert(acc <= (m - d) / 10);
            assert((m - d) / 10 * 10 + (m - d) % 10 == m - d);
        };
        acc = acc * 10 + d;
        proof {
            assert(s@.take(i + 1).drop_last() =~= s@.take(i as int));
            assert(s@.take(i + 1).last() == s@[i as int]);
        }
        i = i + 1;
    }
    proof {
        assert(s@.take(n as int) =~= s@);
    }
    Some(acc)
}

/// The usize a decimal digit run denotes, for callers that already hold
/// text known to be numeric.
pub fn parse_usize(input: &str) -> (r: usize)
    requires
        spec_parse_usize(input.spec_bytes()) is Some,
    ensures
        spec_parse_usize(input.spec_bytes()) == Some(r as int),
{
    let b = input.as_bytes();
    let v = vstd::slice::slice_to_vec(b);
    match parse_usize_bytes(&v) {
        Some(r) => r,
        None => unreached(),
    }
}

/// The value bound to the first occurrence of `key` among `pairs`.
pub open spec fn spec_assoc(pairs: Seq<(Seq<u8>, Seq<u8>)>, key: Seq<u8>) -> Option<Seq<u8>>
    decreases pairs.len(),
{
    if pairs.len() == 0 {
        None
    } else if pairs[0].0 == key {
        Some(pairs[0].1)
    } else {
        spec_assoc(pairs.drop_first(), key)
    }
}

/// Finds the value bound to `key` among `pairs`, copying it out.
pub fn assoc_get(pairs: &Vec<(Vec<u8>, Vec<u8>)>, key: &Vec<u8>) -> (r: Option<Vec<u8>>)
    ensures
        match r {
            Some(v) => spec_assoc(pairs_view(pairs@), key@) == Some(v@),
            None => spec_assoc(pairs_view(pairs@), key@) is None,
        },
{
    let n = pairs.len();
    let mut i: usize = 0;
    assert(pairs_view(pairs@).skip(0) =~= pairs_view(pairs@));
    while i < n
        invariant
            i <= n,
            n == pairs@.len(),
            spec_assoc(pairs_view(pairs@), key@) == spec_assoc(
                pairs_view(pairs@).skip(i as int),
                key@,
            ),
        decreases n - i,
    {
        assert(pairs_view(pairs@).skip(i as int).drop_first() =~= pairs_view(pairs@).skip(i + 1));
        assert(pairs_view(pairs@).skip(i as int)[0] == pairs_view(pairs@)[i as int]);
        if vec_eq(&pairs[i].0, key) {
            let v = copy_all(&pairs[i].1);
            return Some(v);
        }
        i = i + 1;
    }
    assert(pairs_view(pairs@).skip(n as int) =~= Seq::<(Seq<u8>, Seq<u8>)>::empty());
    None
}

/// The Number a byte string denotes: a digit run, one of the letters
/// A, R, G, or a dot.
pub open spec fn spec_info_number(s: Seq<u8>) -> Option<InfoNumber> {
    if s == kw_cap_a() {
        Some(InfoNumber::AlternateAlleles)
    } else if s == kw_cap_r() {
        Some(InfoNumber::Alleles)
    } else if s == kw_cap_g() {
        Some(InfoNumber::Genotypes)
    } else if s == kw_dot() {
        Some(InfoNumber::Unknown)
    } else {
        match spec_parse_usize(s) {
            Some(v) => Some(InfoNumber::Count(v as usize)),
            None => None,
        }
    }
}

/// Parses the Number attribute of a structured header line.
pub fn info_number(s: &Vec<u8>) -> (r: Option<InfoNumber>)
    ensures
        r == spec_info_number(s@),
{
    if vec_eq(s, &kw_vec_cap_a()) {
        Some(InfoNumber::AlternateAlleles)
    } else if vec_eq(s, &kw_vec_cap_r()) {
        Some(InfoNumber::Alleles)
    } else if vec_eq(s, &kw_vec_cap_g()) {
        Some(InfoNumber::Genotypes)
    } else if vec_eq(s, &kw_vec_dot()) {
        Some(InfoNumber::Unknown)
    } else {
        match parse_usize_bytes(s) {
            Some(v) => Some(InfoNumber::Count(v)),
            None => None,
        }
    }
}

/// The Type a byte string denotes: one of the five declared type names.
pub open spec fn spec_info_type(s: Seq<u8>) -> Option<InfoType> {
    if s == kw_integer() {
        Some(InfoType::Integer)
    } else if s == kw_float() {
        Some(InfoType::Float)
    } else if s == kw_flag() {
        Some(InfoType::Flag)
    } else if s == kw_character() {
        Some(InfoType::Character)
    } else if s == kw_string() {
        Some(InfoType::String)
    } else {
        None
    }
}

/// Parses the Type attribute of a structured header line.
pub fn info_type(s: &Vec<u8>) -> (r: Option<InfoType>)
    ensures
        r == spec_info_type(s@),
{
    if vec_eq(s, &kw_vec_integer()) {
        Some(InfoType::Integer)
    } else if vec_eq(s, &kw_vec_float()) {
        Some(InfoType::Float)
    } else if vec_eq(s, &kw_vec_flag()) {
        Some(InfoType::Flag)
    } else if vec_eq(s, &kw_vec_character()) {
        Some(InfoType::Character)
    } else if vec_eq(s, &kw_vec_string()) {
        Some(InfoType::String)
    } else {
        None
    }
}

/// Whether `k` is one of the attribute names an INFO line consumes.
pub open spec fn spec_info_consumed(k: Seq<u8>) -> bool {
    k == kw_id() || k == kw_number() || k == kw_type() || k == kw_description() || k == kw_source()
        || k == kw_version() || k == kw_idx()
}

/// The pairs of an INFO line that are not consumed attributes, in order.
pub open spec fn spec_extras_info(pairs: Seq<(Seq<u8>, Seq<u8>)>) -> Seq<(Seq<u8>, Seq<u8>)>
    decreases pairs.len(),
{
    if pairs.len() == 0 {
        Seq::empty()
    } else if spec_info_consumed(pairs[0].0) {
        spec_extras_info(pairs.drop_first())
    } else {
        seq![pairs[0]] + spec_extras_info(pairs.drop_first())
    }
}

/// Whether `k` is one of the attribute names a contig line consumes.
pub open spec fn spec_contig_consumed(k: Seq<u8>) -> bool {
    k == kw_id() || k == kw_length()
}

/// The pairs of a contig line that are not consumed attributes, in order.
pub open spec fn spec_extras_contig(pairs: Seq<(Seq<u8>, Seq<u8>)>) -> Seq<(Seq<u8>, Seq<u8>)>
    decreases pairs.len(),
{
    if pairs.len() == 0 {
        Seq::empty()
    } else if spec_contig_consumed(pairs[0].0) {
        spec_extras_contig(pairs.drop_first())
    } else {
        seq![pairs[0]] + spec_extras_contig(pairs.drop_first())
    }
}

/// Copies a byte-string pair.
fn copy_pair(p: &(Vec<u8>, Vec<u8>)) -> (r: (Vec<u8>, Vec<u8>))
    ensures
        r.0@ == p.0@,
        r.1@ == p.1@,
{
    (copy_all(&p.0), copy_all(&p.1))
}

/// Collects the non-consumed pairs of an INFO line.
fn extras_info(pairs: &Vec<(Vec<u8>, Vec<u8>)>) -> (r: Vec<(Vec<u8>, Vec<u8>)>)
    ensures
        pairs_view(r@) == spec_extras_info(pairs_view(pairs@)),
{
    let pv = Ghost(pairs_view(pairs@));
    let n = pairs.len();
    let mut out: Vec<(Vec<u8>, Vec<u8>)> = Vec::new();
    let mut i: usize = 0;
    assert(pv@.skip(0) =~= pv@);
    assert(pairs_view(out@) =~= Seq::<(Seq<u8>, Seq<u8>)>::empty());
    while i < n
        invariant
            i <= n,
            n == pairs@.len(),
            pv@ == pairs_view(pairs@),
            spec_extras_info(pv@) == pairs_view(out@) + spec_extras_info(pv@.skip(i as int)),
        decreases n - i,
    {
        assert(pv@.skip(i as int).drop_first() =~= pv@.skip(i + 1));
        assert(pv@.skip(i as int)[0] == pv@[i as int]);
        let k = &pairs[i].0;
        let consumed = vec_eq(k, &kw_vec_id()) || vec_eq(k, &kw_vec_number()) || vec_eq(
            k,
            &kw_vec_type(),
        ) || vec_eq(k, &kw_vec_description()) || vec_eq(k, &kw_vec_source()) || vec_eq(
            k,
            &kw_vec_version(),
        ) || vec_eq(k, &kw_vec_idx());
        if !consumed {
            out.push(copy_pair(&pairs[i]));
            assert(pairs_view(out@) =~= pairs_view(out@.drop_last()) + seq![pv@[i as int]]);
        }
        i = i + 1;
    }
    assert(pv@.skip(n as int) =~= Seq::<(Seq<u8>, Seq<u8>)>::empty());
    out
}

/// Collects the non-consumed pairs of a contig line.
fn extras_contig(pairs: &Vec<(Vec<u8>, Vec<u8>)>) -> (r: Vec<(Vec<u8>, Vec<u8>)>)
    ensures
        pairs_view(r@) == spec_extras_contig(pairs_view(pairs@)),
{
    let pv = Ghost(pairs_view(pairs@));
    let n = pairs.len();
    let mut out: Vec<(Vec<u8>, Vec<u8>)> = Vec::new();
    let mut i: usize = 0;
    assert(pv@.skip(0) =~= pv@);
    assert(pairs_view(out@) =~= Seq::<(Seq<u8>, Seq<u8>)>::empty());
    while i < n
        invariant
            i <= n,
            n == pairs@.len(),
            pv@ == pairs_view(pairs@),
            spec_extras_contig(pv@) == pairs_view(out@) + spec_extras_contig(pv@.skip(i as int)),
        decreases n - i,
    {
        assert(pv@.skip(i as int).drop_first() =~= pv@.skip(i + 1));
        assert(pv@.skip(i as int)[0] == pv@[i as int]);
        let k = &pairs[i].0;
        let consumed = vec_eq(k, &kw_vec_id()) || vec_eq(k, &kw_vec_length());
        if !consumed {
            out.push(copy_pair(&pairs[i]));
            assert(pairs_view(out@) =~= pairs_view(out@.drop_last()) + seq![pv@[i as int]]);
        }
        i = i + 1;
    }
    assert(pv@.skip(n as int) =~= Seq::<(Seq<u8>, Seq<u8>)>::empty());
    out
}

/// The INFO entry the pairs of one structured line denote.  ID, Number,
/// Type and Description are mandatory; a missing IDX takes the next dense
/// handle of the dictionary, `dflt`.
pub open spec fn spec_header_info_of(pairs: Seq<(Seq<u8>, Seq<u8>)>, dflt: int) -> Result<
    HeaderInfoModel,
    BcfError,
> {
    match spec_assoc(pairs, kw_id()) {
        None => Err(BcfError::MalformedHeader),
        Some(id) => match spec_assoc(pairs, kw_number()) {
            None => Err(BcfError::MalformedHeader),
            Some(num_s) => match spec_info_number(num_s) {
                None => Err(BcfError::MalformedHeader),
                Some(number) => match spec_assoc(pairs, kw_type()) {
                    None => Err(BcfError::MalformedHeader),
                    Some(ty_s) => match spec_info_type(ty_s) {
                        None => Err(BcfError::MalformedHeader),
                        Some(kind) => match spec_assoc(pairs, kw_description()) {
                            None => Err(BcfError::MalformedHeader),
                            Some(description) => {
                                let source = match spec_assoc(pairs, kw_source()) {
                                    Some(v) => v,
                                    None => Seq::empty(),
                                };
                                let version = match spec_assoc(pairs, kw_version()) {
                                    Some(v) => v,
                                    None => Seq::empty(),
                                };
                                match spec_assoc(pairs, kw_idx()) {
                                    Some(idx_s) => match spec_parse_usize(idx_s) {
                                        None => Err(BcfError::MalformedHeader),
                                        Some(idx) => Ok(
                                            HeaderInfoModel {
                                                id,
                                                number,
                                                kind,
                                                description,
                                                source,
                                                version,
                                                idx,
                                                additional: spec_extras_info(pairs),
                                            },
                                        ),
                                    },
                                    None => Ok(
                                        HeaderInfoModel {
                                            id,
                                            number,
                                            kind,
                                            description,
                                            source,
                                            version,
                                            idx: dflt,
                                            additional: spec_extras_info(pairs),
                                        },
                                    ),
                                }
                            },
                        },
                    },
                },
            },
        },
    }
}

/// Builds one INFO dictionary entry from the pairs of a structured line.
pub fn header_info_of(pairs: &Vec<(Vec<u8>, Vec<u8>)>, dflt: usize) -> (r: Result<
    HeaderInfo,
    BcfError,
>)
    ensures
        match r {
            Ok(e) => spec_header_info_of(pairs_view(pairs@), dflt as int) == Ok::<_, BcfError>(
                e.view(),
            ),
            Err(e) => spec_header_info_of(pairs_view(pairs@), dflt as int) == Err::<
                HeaderInfoModel,
                _,
            >(e),
        },
{
    let id = match assoc_get(pairs, &kw_vec_id()) {
        Some(v) => v,
        None => {
            return Err(BcfError::MalformedHeader);
        },
    };
    let num_s = match assoc_get(pairs, &kw_vec_number()) {
        Some(v) => v,
        None => {
            return Err(BcfError::MalformedHeader);
        },
    };
    let number = match info_number(&num_s) {
        Some(v) => v,
        None => {
            return Err(BcfError::MalformedHeader);
        },
    };
    let ty_s = match assoc_get(pairs, &kw_vec_type()) {
        Some(v) => v,
        None => {
            return Err(BcfError::MalformedHeader);
        },
    };
    let kind = match info_type(&ty_s) {
        Some(v) => v,
        None => {
            return Err(BcfError::MalformedHeader);
        },
    };
    let description = match assoc_get(pairs, &kw_vec_description()) {
        Some(v) => v,
        None => {
            return Err(BcfError::MalformedHeader);
        },
    };
    let source = match assoc_get(pairs, &kw_vec_source()) {
        Some(v) => v,
        None => Vec::new(),
    };
    let version = match assoc_get(pairs, &kw_vec_version()) {
        Some(v) => v,
        None => Vec::new(),
    };
    let idx: usize = match assoc_get(pairs, &kw_vec_idx()) {
        Some(idx_s) => match parse_usize_bytes(&idx_s) {
            Some(v) => v,
            None => {
                return Err(BcfError::MalformedHeader);
            },
        },
        None => dflt,
    };
    let additional = extras_info(pairs);
    Ok(HeaderInfo { id, number, kind, description, source, version, idx, additional })
}

/// The FORMAT entry the pairs of one structured line denote.
pub open spec fn spec_header_format_of(pairs: Seq<(Seq<u8>, Seq<u8>)>, dflt: int) -> Result<
    HeaderFormatModel,
    BcfError,
> {
    match spec_assoc(pairs, kw_id()) {
        None => Err(BcfError::MalformedHeader),
        Some(id) => match spec_assoc(pairs, kw_number()) {
            None => Err(BcfError::MalformedHeader),
            Some(num_s) => match spec_info_number(num_s) {
                None => Err(BcfError::MalformedHeader),
                Some(number) => match spec_assoc(pairs, kw_type()) {
                    None => Err(BcfError::MalformedHeader),
                    Some(ty_s) => match spec_info_type(ty_s) {
                        None => Err(BcfError::MalformedHeader),
                        Some(kind) => match spec_assoc(pairs, kw_description()) {
                            None => Err(BcfError::MalformedHeader),
                            Some(description) => match spec_assoc(pairs, kw_idx()) {
                                Some(idx_s) => match spec_parse_usize(idx_s) {
                                    None => Err(BcfError::MalformedHeader),
                                    Some(idx) => Ok(
                                        HeaderFormatModel { id, number, kind, description, idx },
                                    ),
                                },
                                None => Ok(
                                    HeaderFormatModel { id, number, kind, description, idx: dflt },
                                ),
                            },
                        },
                    },
                },
            },
        },
    }
}

/// Builds one FORMAT dictionary entry from the pairs of a structured line.
pub fn header_format_of(pairs: &Vec<(Vec<u8>, Vec<u8>)>, dflt: usize) -> (r: Result<
    HeaderFormat,
    BcfError,
>)
    ensures
        match r {
            Ok(e) => spec_header_format_of(pairs_view(pairs@), dflt as int) == Ok::<_, BcfError>(
                e.view(),
            ),
            Err(e) => spec_header_format_of(pairs_view(pairs@), dflt as int) == Err::<
                HeaderFormatModel,
                _,
            >(e),
        },
{
    let id = match assoc_get(pairs, &kw_vec_id()) {
        Some(v) => v,
        None => {
            return Err(BcfError::MalformedHeader);
        },
    };
    let num_s = match assoc_get(pairs, &kw_vec_number()) {
        Some(v) => v,
        None => {
            return Err(BcfError::MalformedHeader);
        },
    };
    let number = match info_number(&num_s) {
        Some(v) => v,
        None => {
            return Err(BcfError::MalformedHeader);
        },
    };
    let ty_s = match assoc_get(pairs, &kw_vec_type()) {
        Some(v) => v,
        None => {
            return Err(BcfError::MalformedHeader);
        },
    };
    let kind = match info_type(&ty_s) {
        Some(v) => v,
        None => {
            return Err(BcfError::MalformedHeader);
        },
    };
    let description = match assoc_get(pairs, &kw_vec_description()) {
        Some(v) => v,
        None => {
            return Err(BcfError::MalformedHeader);
        },
    };
    let idx: usize = match assoc_get(pairs, &kw_vec_idx()) {
        Some(idx_s) => match parse_usize_bytes(&idx_s) {
            Some(v) => v,
            None => {
                return Err(BcfError::MalformedHeader);
            },
        },
        None => dflt,
    };
    Ok(HeaderFormat { id, number, kind, description, idx })
}

/// The contig entry the pairs of one structured line denote.  Only ID is
/// mandatory; a `length` that is not a plain number is ignored.
pub open spec fn spec_header_contig_of(pairs: Seq<(Seq<u8>, Seq<u8>)>) -> Result<
    HeaderContigModel,
    BcfError,
> {
    match spec_assoc(pairs, kw_id()) {
        None => Err(BcfError::MalformedHeader),
        Some(id) => {
            let length = match spec_assoc(pairs, kw_length()) {
                Some(len_s) => spec_parse_usize(len_s),
                None => None,
            };
            Ok(HeaderContigModel { id, length, additional: spec_extras_contig(pairs) })
        },
    }
}

/// Builds one contig entry from the pairs of a structured line.
pub fn header_contig_of(pairs: &Vec<(Vec<u8>, Vec<u8>)>) -> (r: Result<HeaderContig, BcfError>)
    ensures
        match r {
            Ok(e) => spec_header_contig_of(pairs_view(pairs@)) == Ok::<_, BcfError>(e.view()),
            Err(e) => spec_header_contig_of(pairs_view(pairs@)) == Err::<HeaderContigModel, _>(e),
        },
{
    let id = match assoc_get(pairs, &kw_vec_id()) {
        Some(v) => v,
        None => {
            return Err(BcfError::MalformedHeader);
        },
    };
    let length: Option<usize> = match assoc_get(pairs, &kw_vec_length()) {
        Some(len_s) => parse_usize_bytes(&len_s),
        None => None,
    };
    let additional = extras_contig(pairs);
    Ok(HeaderContig { id, length, additional })
}

/// The FILTER entry the pairs of one structured line denote: ID and
/// Description are mandatory, anything else is ignored.
pub open spec fn spec_header_filter_of(pairs: Seq<(Seq<u8>, Seq<u8>)>) -> Result<
    HeaderFilterModel,
    BcfError,
> {
    match spec_assoc(pairs, kw_id()) {
        None => Err(BcfError::MalformedHeader),
        Some(id) => match spec_assoc(pairs, kw_description()) {
            None => Err(BcfError::MalformedHeader),
            Some(description) => Ok(HeaderFilterModel { id, description }),
        },
    }
}

/// Builds one FILTER entry from the pairs of a structured line.
pub fn header_filter_of(pairs: &Vec<(Vec<u8>, Vec<u8>)>) -> (r: Result<HeaderFilter, BcfError>)
    ensures
        match r {
            Ok(e) => spec_header_filter_of(pairs_view(pairs@)) == Ok::<_, BcfError>(e.view()),
            Err(e) => spec_header_filter_of(pairs_view(pairs@)) == Err::<HeaderFilterModel, _>(e),
        },
{
    let id = match assoc_get(pairs, &kw_vec_id()) {
        Some(v) => v,
        None => {
            return Err(BcfError::MalformedHeader);
        },
    };
    let description = match assoc_get(pairs, &kw_vec_description()) {
        Some(v) => v,
        None => {
            return Err(BcfError::MalformedHeader);
        },
    };
    Ok(HeaderFilter { id, description })
}

/// First index at or after `from` that ends a bare dictionary value:
/// '>', ',', '=' or a line feed; the length of `s` if there is none.
pub open spec fn spec_bare_end(s: Seq<u8>, from: int) -> int
    decreases s.len() - from,
{
    if from < 0 || from >= s.len() {
        s.len() as int
    } else if s[from] == GT || s[from] == COMMA || s[from] == EQ || s[from] == NL {
        from
    } else {
        spec_bare_end(s, from + 1)
    }
}

/// First index at or after `from` that ends a dictionary key:
/// '<', ',', '=' or a line feed; the length of `s` if there is none.
pub open spec fn spec_key_end(s: Seq<u8>, from: int) -> int
    decreases s.len() - from,
{
    if from < 0 || from >= s.len() {
        s.len() as int
    } else if s[from] == LT || s[from] == COMMA || s[from] == EQ || s[from] == NL {
        from
    } else {
        spec_key_end(s, from + 1)
    }
}

/// First index at or after `from` that ends a line key: '=' or a line
/// feed; the length of `s` if there is none.
pub open spec fn spec_line_key_end(s: Seq<u8>, from: int) -> int
    decreases s.len() - from,
{
    if from < 0 || from >= s.len() {
        s.len() as int
    } else if s[from] == EQ || s[from] == NL {
        from
    } else {
        spec_line_key_end(s, from + 1)
    }
}

/// The index of the closing quote of a quoted value whose content starts
/// at `i`.  A backslash must be followed by a backslash or a quote; a line
/// feed or the end of input before the closing quote means the value is
/// unterminated.
pub open spec fn spec_quoted_end(s: Seq<u8>, i: int) -> Option<int>
    decreases s.len() - i,
{
    if i < 0 || i >= s.len() {
        None
    } else if s[i] == QUOTE {
        Some(i)
    } else if s[i] == NL {
        None
    } else if s[i] == BSLASH {
        if i + 2 <= s.len() && (s[i + 1] == BSLASH || s[i + 1] == QUOTE) {
            spec_quoted_end(s, i + 2)
        } else {
            None
        }
    } else {
        spec_quoted_end(s, i + 1)
    }
}

/// Finds the end of a bare dictionary value.
fn find_bare_end(bytes: &[u8], from: usize) -> (r: usize)
    requires
        from <= bytes@.len(),
    ensures
        r == spec_bare_end(bytes@, from as int),
        from <= r <= bytes@.len(),
{
    let n = bytes.len();
    let mut i = from;
    while i < n
        invariant
            from <= i <= n == bytes@.len(),
            spec_bare_end(bytes@, from as int) == spec_bare_end(bytes@, i as int),
        decreases n - i,
    {
        let b = *vstd::slice::slice_index_get(bytes, i);
        if b == GT || b == COMMA || b == EQ || b == NL {
            return i;
        }
        i = i + 1;
    }
    i
}

/// Finds the end of a dictionary key.
fn find_key_end(bytes: &[u8], from: usize) -> (r: usize)
    requires
        from <= bytes@.len(),
    ensures
        r == spec_key_end(bytes@, from as int),
        from <= r <= bytes@.len(),
{
    let n = bytes.len();
    let mut i = from;
    while i < n
        invariant
            from <= i <= n == bytes@.len(),
            spec_key_end(bytes@, from as int) == spec_key_end(bytes@, i as int),
        decreases n - i,
    {
        let b = *vstd::slice::slice_index_get(bytes, i);
        if b == LT || b == COMMA || b == EQ || b == NL {
            return i;
        }
        i = i + 1;
    }
    i
}

/// Finds the end of a line key.
fn find_line_key_end(bytes: &[u8], from: usize) -> (r: usize)
    requires
        from <= bytes@.len(),
    ensures
        r == spec_line_key_end(bytes@, from as int),
        from <= r <= bytes@.len(),
{
    let n = bytes.len();
    let mut i = from;
    while i < n
        invariant
            from <= i <= n == bytes@.len(),
            spec_line_key_end(bytes@, from as int) == spec_line_key_end(bytes@, i as int),
        decreases n - i,
    {
        let b = *vstd::slice::slice_index_get(bytes, i);
        if b == EQ || b == NL {
            return i;
        }
        i = i + 1;
    }
    i
}

/// Finds the first line feed at or after `from`.
fn find_nl(bytes: &[u8], from: usize) -> (r: usize)
    requires
        from <= bytes@.len(),
    ensures
        r == spec_find(bytes@, NL, from as int),
        from <= r <= bytes@.len(),
{
    let n = bytes.len();
    let mut i = from;
    while i < n
        invariant
            from <= i <= n == bytes@.len(),
            spec_find(bytes@, NL, from as int) == spec_find(bytes@, NL, i as int),
        decreases n - i,
    {
        if *vstd::slice::slice_index_get(bytes, i) == NL {
            return i;
        }
        i = i + 1;
    }
    i
}

/// Finds the closing quote of a quoted value whose content starts at `i`.
fn find_quoted_end(bytes: &[u8], from: usize) -> (r: Option<usize>)
    requires
        from <= bytes@.len(),
    ensures
        match r {
            Some(e) => spec_quoted_end(bytes@, from as int) == Some(e as int) && from <= e
                < bytes@.len(),
            None => spec_quoted_end(bytes@, from as int) is None,
        },
{
    let n = bytes.len();
    let mut i = from;
    while i < n
        invariant
            from <= i <= n == bytes@.len(),
            spec_quoted_end(bytes@, from as int) == spec_quoted_end(bytes@, i as int),
        decreases n - i,
    {
        let b = *vstd::slice::slice_index_get(bytes, i);
        if b == QUOTE {
            return Some(i);
        }
        if b == NL {
            return None;
        }
        if b == BSLASH {
            if i + 1 < n {
                let b2 = *vstd::slice::slice_index_get(bytes, i + 1);
                if b2 == BSLASH || b2 == QUOTE {
                    i = i + 2;
                } else {
                    return None;
                }
            } else {
                return None;
            }
        } else {
            i = i + 1;
        }
    }
    None
}

/// Copies `bytes[a..b]` into a fresh vector.
fn copy_slice_range(bytes: &[u8], a: usize, b: usize) -> (r: Vec<u8>)
    requires
        a <= b <= bytes@.len(),
    ensures
        r@ == bytes@.subrange(a as int, b as int),
{
    vstd::slice::slice_to_vec(vstd::slice::slice_subrange(bytes, a, b))
}

/// The result of parsing one `key=value` dictionary pair at `pos`: the key
/// runs to an '=' and must not be empty; the value is quoted (kept raw,
/// escapes included, without the quotes) or bare and non-empty.
pub open spec fn spec_dict_pair(s: Seq<u8>, pos: int) -> Result<
    ((Seq<u8>, Seq<u8>), int),
    BcfError,
> {
    let ke = spec_key_end(s, pos);
    if pos < 0 || ke == pos || ke >= s.len() || s[ke] != EQ {
        Err(BcfError::MalformedHeader)
    } else {
        let k = s.subrange(pos, ke);
        if ke + 1 < s.len() && s[ke + 1] == QUOTE {
            match spec_quoted_end(s, ke + 2) {
                None => Err(BcfError::MalformedHeader),
                Some(e) => Ok(((k, s.subrange(ke + 2, e)), e + 1)),
            }
        } else {
            let ve = spec_bare_end(s, ke + 1);
            if ve == ke + 1 {
                Err(BcfError::MalformedHeader)
            } else {
                Ok(((k, s.subrange(ke + 1, ve)), ve))
            }
        }
    }
}

/// Parses one `key=value` dictionary pair.
fn parse_dict_pair(bytes: &[u8], pos: usize) -> (r: Result<((Vec<u8>, Vec<u8>), usize), BcfError>)
    requires
        pos <= bytes@.len(),
    ensures
        match r {
            Ok(((k, v), next)) => {
                &&& spec_dict_pair(bytes@, pos as int) == Ok::<_, BcfError>(((k@, v@), next as int))
                &&& pos < next <= bytes@.len()
            },
            Err(e) => spec_dict_pair(bytes@, pos as int) == Err::<((Seq<u8>, Seq<u8>), int), _>(e),
        },
{
    let ke = find_key_end(bytes, pos);
    if ke == pos || ke >= bytes.len() || *vstd::slice::slice_index_get(bytes, ke) != EQ {
        return Err(BcfError::MalformedHeader);
    }
    let k = copy_slice_range(bytes, pos, ke);
    if ke + 1 < bytes.len() && *vstd::slice::slice_index_get(bytes, ke + 1) == QUOTE {
        match find_quoted_end(bytes, ke + 2) {
            None => Err(BcfError::MalformedHeader),
            Some(e) => {
                let v = copy_slice_range(bytes, ke + 2, e);
                Ok(((k, v), e + 1))
            },
        }
    } else {
        let ve = find_bare_end(bytes, ke + 1);
        if ve == ke + 1 {
            return Err(BcfError::MalformedHeader);
        }
        let v = copy_slice_range(bytes, ke + 1, ve);
        Ok(((k, v), ve))
    }
}

/// The result of parsing a comma-separated run of dictionary pairs at
/// `pos`.  Zero pairs are legal (nothing is consumed); after a comma a
/// pair is mandatory.
pub open spec fn spec_dict_pairs(s: Seq<u8>, pos: int) -> Result<
    (Seq<(Seq<u8>, Seq<u8>)>, int),
    BcfError,
>
    decreases s.len() - pos,
{
    match spec_dict_pair(s, pos) {
        Err(_) => Ok((Seq::empty(), pos)),
        Ok((p, n)) => if n < s.len() && s[n] == COMMA {
            if pos < n + 1 <= s.len() {
                match spec_dict_pairs(s, n + 1) {
                    Err(e) => Err(e),
                    Ok((rest, m)) => Ok((seq![p] + rest, m)),
                }
            } else {
                Err(BcfError::MalformedHeader)
            }
        } else {
            Ok((seq![p], n))
        },
    }
}

/// Parses a comma-separated run of dictionary pairs.
fn parse_dict_pairs(bytes: &[u8], pos: usize) -> (r: Result<
    (Vec<(Vec<u8>, Vec<u8>)>, usize),
    BcfError,
>)
    requires
        pos <= bytes@.len(),
    ensures
        match r {
            Ok((v, next)) => {
                &&& spec_dict_pairs(bytes@, pos as int) == Ok::<_, BcfError>(
                    (pairs_view(v@), next as int),
                )
                &&& pos <= next <= bytes@.len()
            },
            Err(e) => spec_dict_pairs(bytes@, pos as int) == Err::<
                (Seq<(Seq<u8>, Seq<u8>)>, int),
                _,
            >(e),
        },
    decreases bytes@.len() - pos,
{
    match parse_dict_pair(bytes, pos) {
        Err(_) => {
            let v: Vec<(Vec<u8>, Vec<u8>)> = Vec::new();
            assert(pairs_view(v@) =~= Seq::<(Seq<u8>, Seq<u8>)>::empty());
            Ok((v, pos))
        },
        Ok((p, n)) => {
            let ghost pv = (p.0@, p.1@);
            if n < bytes.len() && *vstd::slice::slice_index_get(bytes, n) == COMMA {
                match parse_dict_pairs(bytes, n + 1) {
                    Err(e) => Err(e),
                    Ok((mut rest, m)) => {
                        let ghost oldrest = rest@;
                        rest.insert(0, p);
                        proof {
                            assert(pairs_view(rest@) =~= seq![pv] + pairs_view(oldrest));
                        }
                        Ok((rest, m))
                    },
                }
            } else {
                let mut v: Vec<(Vec<u8>, Vec<u8>)> = Vec::new();
                v.push(p);
                proof {
                    assert(pairs_view(v@) =~= seq![pv]);
                }
                Ok((v, n))
            }
        },
    }
}

/// Mathematical value of one parsed `##` header line.
pub enum HeaderLineModel {
    Generic(Seq<u8>, Seq<u8>),
    Info(Seq<(Seq<u8>, Seq<u8>)>),
    Format(Seq<(Seq<u8>, Seq<u8>)>),
    Contig(Seq<(Seq<u8>, Seq<u8>)>),
    Filter(Seq<(Seq<u8>, Seq<u8>)>),
}

/// One parsed `##` header line: a generic `KEY=VALUE` line, or the
/// attribute pairs of one of the four structured keys.
pub enum HeaderLine {
    Generic(Vec<u8>, Vec<u8>),
    Info(Vec<(Vec<u8>, Vec<u8>)>),
    Format(Vec<(Vec<u8>, Vec<u8>)>),
    Contig(Vec<(Vec<u8>, Vec<u8>)>),
    Filter(Vec<(Vec<u8>, Vec<u8>)>),
}

impl HeaderLine {
    pub open spec fn view(self) -> HeaderLineModel {
        match self {
            HeaderLine::Generic(k, v) => HeaderLineModel::Generic(k@, v@),
            HeaderLine::Info(p) => HeaderLineModel::Info(pairs_view(p@)),
            HeaderLine::Format(p) => HeaderLineModel::Format(pairs_view(p@)),
            HeaderLine::Contig(p) => HeaderLineModel::Contig(pairs_view(p@)),
            HeaderLine::Filter(p) => HeaderLineModel::Filter(pairs_view(p@)),
        }
    }
}

/// View of a sequence of parsed header lines.
pub open spec fn lines_view(v: Seq<HeaderLine>) -> Seq<HeaderLineModel> {
    v.map_values(|l: HeaderLine| l.view())
}

/// The result of parsing one `##KEY=VALUE` line at `pos`: the key runs to
/// the first '='; the four structured keys take a `<...>` dictionary, any
/// other key takes the non-empty rest of the line.  Every line must end
/// with a line feed.
pub open spec fn spec_header_entry(s: Seq<u8>, pos: int) -> Result<
    (HeaderLineModel, int),
    BcfError,
> {
    if pos < 0 || pos + 2 > s.len() || s[pos] != HASH || s[pos + 1] != HASH {
        Err(BcfError::MalformedHeader)
    } else {
        let ke = spec_line_key_end(s, pos + 2);
        if ke == pos + 2 || ke >= s.len() || s[ke] != EQ {
            Err(BcfError::MalformedHeader)
        } else {
            let key = s.subrange(pos + 2, ke);
            let vs = ke + 1;
            if key == kw_info() || key == kw_format() || key == kw_filter() || key
                == kw_contig() {
                if vs >= s.len() || s[vs] != LT {
                    Err(BcfError::MalformedHeader)
                } else {
                    match spec_dict_pairs(s, vs + 1) {
                        Err(e) => Err(e),
                        Ok((pairs, after)) => if after >= s.len() || s[after] != GT {
                            Err(BcfError::MalformedHeader)
                        } else {
                            let nl = spec_find(s, NL, after + 1);
                            if nl >= s.len() {
                                Err(BcfError::MalformedHeader)
                            } else {
                                let line = if key == kw_info() {
                                    HeaderLineModel::Info(pairs)
                                } else if key == kw_format() {
                                    HeaderLineModel::Format(pairs)
                                } else if key == kw_filter() {
                                    HeaderLineModel::Filter(pairs)
                                } else {
                                    HeaderLineModel::Contig(pairs)
                                };
                                Ok((line, nl + 1))
                            }
                        },
                    }
                }
            } else {
                let ve = spec_find(s, NL, vs);
                if ve >= s.len() || ve == vs {
                    Err(BcfError::MalformedHeader)
                } else {
                    Ok((HeaderLineModel::Generic(key, s.subrange(vs, ve)), ve + 1))
                }
            }
        }
    }
}

/// Parses one `##KEY=VALUE` header line.
fn parse_header_entry(bytes: &[u8], pos: usize) -> (r: Result<(HeaderLine, usize), BcfError>)
    requires
        pos <= bytes@.len(),
    ensures
        match r {
            Ok((l, next)) => {
                &&& spec_header_entry(bytes@, pos as int) == Ok::<_, BcfError>(
                    (l.view(), next as int),
                )
                &&& pos < next <= bytes@.len()
            },
            Err(e) => spec_header_entry(bytes@, pos as int) == Err::<(HeaderLineModel, int), _>(e),
        },
{
    let n = bytes.len();
    if pos >= n || n - pos < 2 || *vstd::slice::slice_index_get(bytes, pos) != HASH
        || *vstd::slice::slice_index_get(bytes, pos + 1) != HASH {
        return Err(BcfError::MalformedHeader);
    }
    let ke = find_line_key_end(bytes, pos + 2);
    if ke == pos + 2 || ke >= n || *vstd::slice::slice_index_get(bytes, ke) != EQ {
        return Err(BcfError::MalformedHeader);
    }
    let key = copy_slice_range(bytes, pos + 2, ke);
    let vs = ke + 1;
    let is_info = vec_eq(&key, &kw_vec_info());
    let is_format = vec_eq(&key, &kw_vec_format());
    let is_filter = vec_eq(&key, &kw_vec_filter());
    let is_contig = vec_eq(&key, &kw_vec_contig());
    if is_info || is_format || is_filter || is_contig {
        if vs >= n || *vstd::slice::slice_index_get(bytes, vs) != LT {
            return Err(BcfError::MalformedHeader);
        }
        let (pairs, after) = match parse_dict_pairs(bytes, vs + 1) {
            Ok(x) => x,
            Err(e) => {
                return Err(e);
            },
        };
        if after >= n || *vstd::slice::slice_index_get(bytes, after) != GT {
            return Err(BcfError::MalformedHeader);
        }
        let nl = find_nl(bytes, after + 1);
        if nl >= n {
            return Err(BcfError::MalformedHeader);
        }
        let line = if is_info {
            HeaderLine::Info(pairs)
        } else if is_format {
            HeaderLine::Format(pairs)
        } else if is_filter {
            HeaderLine::Filter(pairs)
        } else {
            HeaderLine::Contig(pairs)
        };
        Ok((line, nl + 1))
    } else {
        let ve = find_nl(bytes, vs);
        if ve >= n || ve == vs {
            return Err(BcfError::MalformedHeader);
        }
        let value = copy_slice_range(bytes, vs, ve);
        Ok((HeaderLine::Generic(key, value), ve + 1))
    }
}

/// The result of parsing every consecutive `##` line starting at `pos`.
pub open spec fn spec_header_lines(s: Seq<u8>, pos: int) -> Result<
    (Seq<HeaderLineModel>, int),
    BcfError,
>
    decreases s.len() - pos,
{
    if 0 <= pos && pos + 2 <= s.len() && s[pos] == HASH && s[pos + 1] == HASH {
        match spec_header_entry(s, pos) {
            Err(e) => Err(e),
            Ok((l, next)) => if pos < next <= s.len() {
                match spec_header_lines(s, next) {
                    Err(e) => Err(e),
                    Ok((rest, m)) => Ok((seq![l] + rest, m)),
                }
            } else {
                Err(BcfError::MalformedHeader)
            },
        }
    } else {
        Ok((Seq::empty(), pos))
    }
}

/// Glues an already-parsed prefix of lines onto the parse of the rest.
pub open spec fn spec_cons_lines(
    acc: Seq<HeaderLineModel>,
    r: Result<(Seq<HeaderLineModel>, int), BcfError>,
) -> Result<(Seq<HeaderLineModel>, int), BcfError> {
    match r {
        Err(e) => Err(e),
        Ok((rest, m)) => Ok((acc + rest, m)),
    }
}

/// Parses every consecutive `##` line starting at `pos`.
fn parse_header_lines(bytes: &[u8], pos: usize) -> (r: Result<(Vec<HeaderLine>, usize), BcfError>)
    requires
        pos <= bytes@.len(),
    ensures
        match r {
            Ok((v, next)) => {
                &&& spec_header_lines(bytes@, pos as int) == Ok::<_, BcfError>(
                    (lines_view(v@), next as int),
                )
                &&& pos <= next <= bytes@.len()
            },
            Err(e) => spec_header_lines(bytes@, pos as int) == Err::<
                (Seq<HeaderLineModel>, int),
                _,
            >(e),
        },
{
    let n = bytes.len();
    let mut out: Vec<HeaderLine> = Vec::new();
    let mut cur = pos;
    assert(lines_view(out@) =~= Seq::<HeaderLineModel>::empty());
    loop
        invariant
            pos <= cur <= n == bytes@.len(),
            spec_cons_lines(lines_view(out@), spec_header_lines(bytes@, cur as int))
                == spec_header_lines(bytes@, pos as int),
        decreases n - cur,
    {
        let starts = cur < n && n - cur >= 2 && *vstd::slice::slice_index_get(bytes, cur) == HASH
            && *vstd::slice::slice_index_get(bytes, cur + 1) == HASH;
        if !starts {
            return Ok((out, cur));
        }
        match parse_header_entry(bytes, cur) {
            Err(e) => {
                return Err(e);
            },
            Ok((l, next)) => {
                let ghost lv = l.view();
                let ghost oldout = out@;
                out.push(l);
                proof {
                    assert(lines_view(out@) =~= lines_view(oldout) + seq![lv]);
                    match spec_header_lines(bytes@, next as int) {
                        Err(e) => {},
                        Ok((rest, m)) => {
                            assert((lines_view(oldout) + seq![lv]) + rest =~= lines_view(oldout)
                                + (seq![lv] + rest));
                        },
                    }
                }
                cur = next;
            },
        }
    }
}

/// The sample names of the `#CHROM` line at `pos`: the tab-separated
/// columns past the nine fixed ones.  Without such a line there are no
/// samples.
pub open spec fn spec_samples(s: Seq<u8>, pos: int) -> Seq<Seq<u8>> {
    if 0 <= pos < s.len() && s[pos] == HASH {
        let le = spec_find(s, NL, pos);
        let fields = crate::types::spec_split(s.subrange(pos, le), TAB);
        if fields.len() > 9 {
            fields.skip(9)
        } else {
            Seq::empty()
        }
    } else {
        Seq::empty()
    }
}

/// Extracts the sample names from the `#CHROM` line at `pos`, if present.
fn parse_samples(bytes: &[u8], pos: usize) -> (r: Vec<Vec<u8>>)
    requires
        pos <= bytes@.len(),
    ensures
        r@.map_values(|v: Vec<u8>| v@) == spec_samples(bytes@, pos as int),
{
    if pos >= bytes.len() || *vstd::slice::slice_index_get(bytes, pos) != HASH {
        let out: Vec<Vec<u8>> = Vec::new();
        assert(out@.map_values(|v: Vec<u8>| v@) =~= Seq::<Seq<u8>>::empty());
        return out;
    }
    let le = find_nl(bytes, pos);
    let line = copy_slice_range(bytes, pos, le);
    let fields = crate::types::split_bytes(&line, TAB);
    let ghost fv = fields@.map_values(|v: Vec<u8>| v@);
    let mut out: Vec<Vec<u8>> = Vec::new();
    if fields.len() <= 9 {
        assert(out@.map_values(|v: Vec<u8>| v@) =~= Seq::<Seq<u8>>::empty());
        return out;
    }
    let m = fields.len();
    let mut i: usize = 9;
    while i < m
        invariant
            9 <= i <= m == fields@.len(),
            fv == fields@.map_values(|v: Vec<u8>| v@),
            fv.len() > 9,
            out@.map_values(|v: Vec<u8>| v@) =~= fv.subrange(9, i as int),
        decreases m - i,
    {
        let c = copy_all(&fields[i]);
        let ghost oldout = out@;
        out.push(c);
        proof {
            assert(out@.map_values(|v: Vec<u8>| v@) =~= oldout.map_values(|v: Vec<u8>| v@).push(
                fv[i as int],
            ));
            assert(oldout.map_values(|v: Vec<u8>| v@).push(fv[i as int]) =~= fv.subrange(
                9,
                i + 1,
            ));
        }
        i = i + 1;
    }
    proof {
        assert(fv.subrange(9, fv.len() as int) =~= fv.skip(9));
    }
    out
}

/// The header with nothing in it.
pub open spec fn spec_empty_header() -> HeaderModel {
    HeaderModel {
        meta: Seq::empty(),
        info: Seq::empty(),
        format: Seq::empty(),
        contigs: Seq::empty(),
        filters: Seq::empty(),
        samples: Seq::empty(),
    }
}

/// Folds the parsed lines from position `i` on into the header tables of
/// `acc`.  An INFO or FORMAT entry without an explicit IDX takes the next
/// dense handle of its dictionary.
pub open spec fn spec_build_from(
    lines: Seq<HeaderLineModel>,
    i: int,
    acc: HeaderModel,
) -> Result<HeaderModel, BcfError>
    decreases lines.len() - i,
{
    if i < 0 || i > lines.len() {
        Err(BcfError::MalformedHeader)
    } else if i == lines.len() {
        Ok(acc)
    } else {
        match lines[i] {
            HeaderLineModel::Generic(k, v) => spec_build_from(
                lines,
                i + 1,
                HeaderModel { meta: acc.meta.push((k, v)), ..acc },
            ),
            HeaderLineModel::Info(pairs) => match spec_header_info_of(
                pairs,
                acc.info.len() as int,
            ) {
                Err(e) => Err(e),
                Ok(e) => spec_build_from(
                    lines,
                    i + 1,
                    HeaderModel { info: acc.info.push(e), ..acc },
                ),
            },
            HeaderLineModel::Format(pairs) => match spec_header_format_of(
                pairs,
                acc.format.len() as int,
            ) {
                Err(e) => Err(e),
                Ok(e) => spec_build_from(
                    lines,
                    i + 1,
                    HeaderModel { format: acc.format.push(e), ..acc },
                ),
            },
            HeaderLineModel::Contig(pairs) => match spec_header_contig_of(pairs) {
                Err(e) => Err(e),
                Ok(e) => spec_build_from(
                    lines,
                    i + 1,
                    HeaderModel { contigs: acc.contigs.push(e), ..acc },
                ),
            },
            HeaderLineModel::Filter(pairs) => match spec_header_filter_of(pairs) {
                Err(e) => Err(e),
                Ok(e) => spec_build_from(
                    lines,
                    i + 1,
                    HeaderModel { filters: acc.filters.push(e), ..acc },
                ),
            },
        }
    }
}

/// The header a whole header byte region denotes: every `##` line parsed
/// and folded into the tables, then the samples of the `#CHROM` line.
/// Bytes after the sample line (the terminating NUL) are ignored.
pub open spec fn spec_parse_header(s: Seq<u8>) -> Result<HeaderModel, BcfError> {
    match spec_header_lines(s, 0) {
        Err(e) => Err(e),
        Ok((lines, p)) => match spec_build_from(lines, 0, spec_empty_header()) {
            Err(e) => Err(e),
            Ok(hm) => Ok(HeaderModel { samples: spec_samples(s, p), ..hm }),
        },
    }
}

impl Header {
    /// Parses the complete text header region.
    pub fn parse(bytes: &[u8]) -> (r: Result<Header, BcfError>)
        ensures
            match r {
                Ok(h) => spec_parse_header(bytes@) == Ok::<_, BcfError>(h.view()),
                Err(e) => spec_parse_header(bytes@) == Err::<HeaderModel, _>(e),
            },
    {
        let (lines, p) = match parse_header_lines(bytes, 0) {
            Ok(x) => x,
            Err(e) => {
                return Err(e);
            },
        };
        let ghost lv = lines_view(lines@);
        let mut meta: Vec<(Vec<u8>, Vec<u8>)> = Vec::new();
        let mut info: Vec<HeaderInfo> = Vec::new();
        let mut format: Vec<HeaderFormat> = Vec::new();
        let mut contigs: Vec<HeaderContig> = Vec::new();
        let mut filters: Vec<HeaderFilter> = Vec::new();
        let n = lines.len();
        let mut i: usize = 0;
        proof {
            assert(pairs_view(meta@) =~= Seq::<(Seq<u8>, Seq<u8>)>::empty());
            assert(info@.map_values(|e: HeaderInfo| e.view()) =~= Seq::<HeaderInfoModel>::empty());
            assert(format@.map_values(|e: HeaderFormat| e.view()) =~= Seq::<
                HeaderFormatModel,
            >::empty());
            assert(contigs@.map_values(|e: HeaderContig| e.view()) =~= Seq::<
                HeaderContigModel,
            >::empty());
            assert(filters@.map_values(|e: HeaderFilter| e.view()) =~= Seq::<
                HeaderFilterModel,
            >::empty());
        }
        while i < n
            invariant
                i <= n == lines@.len(),
                lv == lines_view(lines@),
                p <= bytes@.len(),
                spec_header_lines(bytes@, 0) == Ok::<(Seq<HeaderLineModel>, int), BcfError>(
                    (lv, p as int),
                ),
                spec_build_from(lv, 0, spec_empty_header()) == spec_build_from(
                    lv,
                    i as int,
                    HeaderModel {
                        meta: pairs_view(meta@),
                        info: info@.map_values(|e: HeaderInfo| e.view()),
                        format: format@.map_values(|e: HeaderFormat| e.view()),
                        contigs: contigs@.map_values(|e: HeaderContig| e.view()),
                        filters: filters@.map_values(|e: HeaderFilter| e.view()),
                        samples: Seq::empty(),
                    },
                ),
            decreases n - i,
        {
            let ghost cur = HeaderModel {
                meta: pairs_view(meta@),
                info: info@.map_values(|e: HeaderInfo| e.view()),
                format: format@.map_values(|e: HeaderFormat| e.view()),
                contigs: contigs@.map_values(|e: HeaderContig| e.view()),
                filters: filters@.map_values(|e: HeaderFilter| e.view()),
                samples: Seq::empty(),
            };
            proof {
                assert(lv[i as int] == lines@[i as int].view());
            }
            match &lines[i] {
                HeaderLine::Generic(k, v) => {
                    let kc = copy_all(k);
                    let vc = copy_all(v);
                    let ghost gk = kc@;
                    let ghost gv = vc@;
                    let ghost oldmeta = meta@;
                    meta.push((kc, vc));
                    proof {
                        assert(lv[i as int] == HeaderLineModel::Generic(gk, gv));
                        assert(pairs_view(meta@) =~= pairs_view(oldmeta).push((gk, gv)));
                        assert(spec_build_from(lv, i as int, cur) == spec_build_from(
                            lv,
                            i + 1,
                            HeaderModel { meta: cur.meta.push((gk, gv)), ..cur },
                        ));
                    }
                },
                HeaderLine::Info(pairs) => {
                    let ghost pv = pairs_view(pairs@);
                    proof {
                        assert(lv[i as int] == HeaderLineModel::Info(pv));
                        assert(cur.info.len() == info@.len());
                    }
                    let e = match header_info_of(pairs, info.len()) {
                        Ok(e) => e,
                        Err(e) => {
                            proof {
                                assert(spec_build_from(lv, i as int, cur) == Err::<
                                    HeaderModel,
                                    BcfError,
                                >(e));
                                assert(spec_build_from(lv, 0, spec_empty_header()) == Err::<
                                    HeaderModel,
                                    BcfError,
                                >(e));
                                assert(spec_header_lines(bytes@, 0) == Ok::<_, BcfError>(
                                    (lv, p as int),
                                ));
                                assert(spec_parse_header(bytes@) == Err::<HeaderModel, BcfError>(
                                    e,
                                ));
                            }
                            return Err(e);
                        },
                    };
                    let ghost ev = e.view();
                    let ghost oldinfo = info@;
                    info.push(e);
                    proof {
                        assert(info@.map_values(|x: HeaderInfo| x.view()) =~= oldinfo.map_values(
                            |x: HeaderInfo| x.view(),
                        ).push(ev));
                        assert(spec_build_from(lv, i as int, cur) == spec_build_from(
                            lv,
                            i + 1,
                            HeaderModel { info: cur.info.push(ev), ..cur },
                        ));
                    }
                },
                HeaderLine::Format(pairs) => {
                    let ghost pv = pairs_view(pairs@);
                    proof {
                        assert(lv[i as int] == HeaderLineModel::Format(pv));
                        assert(cur.format.len() == format@.len());
                    }
                    let e = match header_format_of(pairs, format.len()) {
                        Ok(e) => e,
                        Err(e) => {
                            proof {
                                assert(spec_build_from(lv, i as int, cur) == Err::<
                                    HeaderModel,
                                    BcfError,
                                >(e));
                                assert(spec_build_from(lv, 0, spec_empty_header()) == Err::<
                                    HeaderModel,
                                    BcfError,
                                >(e));
                                assert(spec_header_lines(bytes@, 0) == Ok::<_, BcfError>(
                                    (lv, p as int),
                                ));
                                assert(spec_parse_header(bytes@) == Err::<HeaderModel, BcfError>(
                                    e,
                                ));
                            }
                            return Err(e);
                        },
                    };
                    let ghost ev = e.view();
                    let ghost oldformat = format@;
                    format.push(e);
                    proof {
                        assert(format@.map_values(|x: HeaderFormat| x.view())
                            =~= oldformat.map_values(|x: HeaderFormat| x.view()).push(ev));
                        assert(spec_build_from(lv, i as int, cur) == spec_build_from(
                            lv,
                            i + 1,
                            HeaderModel { format: cur.format.push(ev), ..cur },
                        ));
                    }
                },
                HeaderLine::Contig(pairs) => {
                    let ghost pv = pairs_view(pairs@);
                    proof {
                        assert(lv[i as int] == HeaderLineModel::Contig(pv));
                    }
                    let e = match header_contig_of(pairs) {
                        Ok(e) => e,
                        Err(e) => {
                            proof {
                                assert(spec_build_from(lv, i as int, cur) == Err::<
                                    HeaderModel,
                                    BcfError,
                                >(e));
                                assert(spec_build_from(lv, 0, spec_empty_header()) == Err::<
                                    HeaderModel,
                                    BcfError,
                                >(e));
                                assert(spec_header_lines(bytes@, 0) == Ok::<_, BcfError>(
                                    (lv, p as int),
                                ));
                                assert(spec_parse_header(bytes@) == Err::<HeaderModel, BcfError>(
                                    e,
                                ));
                            }
                            return Err(e);
                        },
                    };
                    let ghost ev = e.view();
                    let ghost oldcontigs = contigs@;
                    contigs.push(e);
                    proof {
                        assert(contigs@.map_values(|x: HeaderContig| x.view())
                            =~= oldcontigs.map_values(|x: HeaderContig| x.view()).push(ev));
                        assert(spec_build_from(lv, i as int, cur) == spec_build_from(
                            lv,
                            i + 1,
                            HeaderModel { contigs: cur.contigs.push(ev), ..cur },
                        ));
                    }
                },
                HeaderLine::Filter(pairs) => {
                    let ghost pv = pairs_view(pairs@);
                    proof {
                        assert(lv[i as int] == HeaderLineModel::Filter(pv));
                    }
                    let e = match header_filter_of(pairs) {
                        Ok(e) => e,
                        Err(e) => {
                            proof {
                                assert(spec_build_from(lv, i as int, cur) == Err::<
                                    HeaderModel,
                                    BcfError,
                                >(e));
                                assert(spec_build_from(lv, 0, spec_empty_header()) == Err::<
                                    HeaderModel,
                                    BcfError,
                                >(e));
                                assert(spec_header_lines(bytes@, 0) == Ok::<_, BcfError>(
                                    (lv, p as int),
                                ));
                                assert(spec_parse_header(bytes@) == Err::<HeaderModel, BcfError>(
                                    e,
                                ));
                            }
                            return Err(e);
                        },
                    };
                    let ghost ev = e.view();
                    let ghost oldfilters = filters@;
                    filters.push(e);
                    proof {
                        assert(filters@.map_values(|x: HeaderFilter| x.view())
                            =~= oldfilters.map_values(|x: HeaderFilter| x.view()).push(ev));
                        assert(spec_build_from(lv, i as int, cur) == spec_build_from(
                            lv,
                            i + 1,
                            HeaderModel { filters: cur.filters.push(ev), ..cur },
                        ));
                    }
                },
            }
            i = i + 1;
        }
        let samples = parse_samples(bytes, p);
        let h = Header { meta, info, format, contigs, filters, samples };
        Ok(h)
    }
}

} // verus!
