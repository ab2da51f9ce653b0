//! Variant records: the shared-region layout, the two record access
//! strategies (eager materialization in `BcfRecord`, lazy byte retention in
//! `RawBcfRecord`), and the genotype encoding.
//!
//! Both record types are specified against one mathematical model,
//! [`RecordModel`]: the value `spec_record` assigns to the record's two
//! byte regions.  Whatever strategy a caller picks, each accessor promises
//! the corresponding component of that model.

use vstd::prelude::*;

use crate::codec::{
    read_le16, read_le24, read_le32, read_raw_body, read_type_descriptor, read_typed_int,
    read_typed_ints, read_typed_string, read_typed_vec, sign_extend16, sign_extend32,
    spec_le16, spec_le24, spec_le32, spec_sign16, spec_sign32, spec_type_descriptor,
    spec_typed_body, spec_typed_int, spec_typed_ints, spec_typed_string, spec_typed_vec,
};
use crate::types::{BcfError, HeaderModel, RawVec, TypeKind, TypedVec, TypedVecModel};

verus! {

/// The mathematical value of one variant record: the fixed prefix fields
/// and the decoded variable regions.  `alleles[0]` is REF, the rest are
/// the alternative alleles; `filters` are positions into the header's
/// FILTER table; `info` and `format` keep on-disk order and reference the
/// header dictionaries by integer handle.
pub struct RecordModel {
    pub chrom: i32,
    pub pos: i32,
    pub rlen: i32,
    pub qual_bits: u32,
    pub n_info: int,
    pub n_allele: int,
    pub n_sample: int,
    pub n_fmt: int,
    pub id: Seq<u8>,
    pub alleles: Seq<Seq<u8>>,
    pub filters: Seq<i32>,
    pub info: Seq<(i32, TypedVecModel)>,
    pub format: Option<Seq<(i32, Seq<TypedVecModel>)>>,
}

/// The result of parsing `n` consecutive typed strings at `pos`.
pub open spec fn spec_strings_at(s: Seq<u8>, pos: usize, n: nat) -> Result<
    (Seq<Seq<u8>>, usize),
    BcfError,
>
    decreases n,
{
    if n == 0 {
        Ok((Seq::empty(), pos))
    } else {
        match spec_typed_string(s, pos) {
            Err(e) => Err(e),
            Ok((v, next)) => if pos < next <= s.len() {
                match spec_strings_at(s, next, (n - 1) as nat) {
                    Err(e) => Err(e),
                    Ok((rest, m)) => Ok((seq![v] + rest, m)),
                }
            } else {
                Err(BcfError::TruncatedInput)
            },
        }
    }
}

/// The result of parsing `n` consecutive INFO pairs at `pos`: each is one
/// typed integer dictionary key followed by one typed value.
pub open spec fn spec_info_pairs(s: Seq<u8>, pos: usize, n: nat) -> Result<
    (Seq<(i32, TypedVecModel)>, usize),
    BcfError,
>
    decreases n,
{
    if n == 0 {
        Ok((Seq::empty(), pos))
    } else {
        match spec_typed_int(s, pos) {
            Err(e) => Err(e),
            Ok((key, p1)) => if pos < p1 <= s.len() {
                match spec_typed_vec(s, p1) {
                    Err(e) => Err(e),
                    Ok((v, p2)) => if p1 < p2 <= s.len() {
                        match spec_info_pairs(s, p2, (n - 1) as nat) {
                            Err(e) => Err(e),
                            Ok((rest, m)) => Ok((seq![(key, v)] + rest, m)),
                        }
                    } else {
                        Err(BcfError::TruncatedInput)
                    },
                }
            } else {
                Err(BcfError::TruncatedInput)
            },
        }
    }
}

/// The result of parsing `n` consecutive per-sample payloads that share
/// the kind and count of one FORMAT field descriptor.
pub open spec fn spec_fmt_samples(
    s: Seq<u8>,
    pos: usize,
    kind: TypeKind,
    cnt: nat,
    n: nat,
) -> Result<(Seq<TypedVecModel>, usize), BcfError>
    decreases n,
{
    if n == 0 {
        Ok((Seq::empty(), pos))
    } else {
        match spec_typed_body(s, pos, kind, cnt) {
            Err(e) => Err(e),
            Ok((v, next)) => if pos <= next <= s.len() {
                match spec_fmt_samples(s, next, kind, cnt, (n - 1) as nat) {
                    Err(e) => Err(e),
                    Ok((rest, m)) => Ok((seq![v] + rest, m)),
                }
            } else {
                Err(BcfError::TruncatedInput)
            },
        }
    }
}

/// The result of parsing `n` FORMAT fields at `pos`: each is a typed
/// integer dictionary key, one type descriptor, then one payload of that
/// type per sample.
pub open spec fn spec_fmt_fields(s: Seq<u8>, pos: usize, n: nat, n_sample: nat) -> Result<
    (Seq<(i32, Seq<TypedVecModel>)>, usize),
    BcfError,
>
    decreases n,
{
    if n == 0 {
        Ok((Seq::empty(), pos))
    } else {
        match spec_typed_int(s, pos) {
            Err(e) => Err(e),
            Ok((key, p1)) => if pos < p1 <= s.len() {
                match spec_type_descriptor(s, p1) {
                    Err(e) => Err(e),
                    Ok((kind, cnt, p2)) => if p1 < p2 <= s.len() {
                        match spec_fmt_samples(s, p2, kind, cnt, n_sample) {
                            Err(e) => Err(e),
                            Ok((samples, p3)) => if p2 <= p3 <= s.len() {
                                match spec_fmt_fields(s, p3, (n - 1) as nat, n_sample) {
                                    Err(e) => Err(e),
                                    Ok((rest, m)) => Ok((seq![(key, samples)] + rest, m)),
                                }
                            } else {
                                Err(BcfError::TruncatedInput)
                            },
                        }
                    } else {
                        Err(BcfError::TruncatedInput)
                    },
                }
            } else {
                Err(BcfError::TruncatedInput)
            },
        }
    }
}

/// The record the two byte regions of one frame denote.  The shared region
/// starts with a 24-byte fixed prefix; a record must declare at least the
/// REF allele and a nonnegative INFO count, or it is malformed.  Bytes of
/// either region past the decoded fields are tolerated.
pub open spec fn spec_record(shared: Seq<u8>, indiv: Seq<u8>) -> Result<RecordModel, BcfError> {
    if shared.len() < 24 {
        Err(BcfError::TruncatedInput)
    } else {
        let chrom = spec_sign32(spec_le32(shared, 0));
        let pos = spec_sign32(spec_le32(shared, 4));
        let rlen = spec_sign32(spec_le32(shared, 8));
        let qual_bits = spec_le32(shared, 12);
        let n_info = spec_sign16(spec_le16(shared, 16)) as int;
        let n_allele = spec_sign16(spec_le16(shared, 18)) as int;
        let n_sample = spec_le24(shared, 20) as int;
        let n_fmt = shared[23] as int;
        if n_allele < 1 || n_info < 0 {
            Err(BcfError::MalformedTypeDescriptor)
        } else {
            match spec_typed_string(shared, 24) {
                Err(e) => Err(e),
                Ok((id, p1)) => match spec_strings_at(shared, p1, n_allele as nat) {
                    Err(e) => Err(e),
                    Ok((alleles, p2)) => match spec_typed_ints(shared, p2) {
                        Err(e) => Err(e),
                        Ok((filters, p3)) => match spec_info_pairs(shared, p3, n_info as nat) {
                            Err(e) => Err(e),
                            Ok((info, _p4)) => {
                                let format = if indiv.len() > 0 {
                                    match spec_fmt_fields(indiv, 0, n_fmt as nat, n_sample as nat) {
                                        Err(e) => Err(e),
                                        Ok((fields, _)) => Ok(Some(fields)),
                                    }
                                } else {
                                    Ok(None)
                                };
                                match format {
                                    Err(e) => Err(e),
                                    Ok(format) => Ok(
                                        RecordModel {
                                            chrom,
                                            pos,
                                            rlen,
                                            qual_bits,
                                            n_info,
                                            n_allele,
                                            n_sample,
                                            n_fmt,
                                            id,
                                            alleles,
                                            filters,
                                            info,
                                            format,
                                        },
                                    ),
                                }
                            },
                        },
                    },
                },
            }
        }
    }
}

/// Whether every index the record carries resolves in the header: the
/// contig index in the contig table, every filter index in the FILTER
/// table.
pub open spec fn spec_record_resolves(m: RecordModel, h: HeaderModel) -> bool {
    &&& 0 <= m.chrom < h.contigs.len()
    &&& forall|i: int|
        0 <= i < m.filters.len() ==> 0 <= #[trigger] m.filters[i] < h.filters.len()
}

/// The value of the first pair whose key equals `idx`, if any.
pub open spec fn spec_lookup_pairs(pairs: Seq<(i32, TypedVecModel)>, idx: int) -> Option<
    TypedVecModel,
>
    decreases pairs.len(),
{
    if pairs.len() == 0 {
        None
    } else if pairs[0].0 == idx {
        Some(pairs[0].1)
    } else {
        spec_lookup_pairs(pairs.drop_first(), idx)
    }
}

/// The per-sample values of the first FORMAT field whose key equals
/// `idx`, if any.
pub open spec fn spec_lookup_fields(fields: Seq<(i32, Seq<TypedVecModel>)>, idx: int) -> Option<
    Seq<TypedVecModel>,
>
    decreases fields.len(),
{
    if fields.len() == 0 {
        None
    } else if fields[0].0 == idx {
        Some(fields[0].1)
    } else {
        spec_lookup_fields(fields.drop_first(), idx)
    }
}

/// What `info(tag)` answers on model `m` under header `h`: the value of
/// the first INFO pair whose key is the handle the header gives `tag`,
/// absent when the header does not know the tag or the record does not
/// carry it.
pub open spec fn spec_info_of(m: RecordModel, h: HeaderModel, tag: Seq<u8>) -> Option<
    TypedVecModel,
> {
    match crate::types::spec_info_idx_of(h.info, tag) {
        None => None,
        Some(idx) => spec_lookup_pairs(m.info, idx),
    }
}

/// What `format(tag)` answers on model `m` under header `h`.
pub open spec fn spec_format_of(m: RecordModel, h: HeaderModel, tag: Seq<u8>) -> Option<
    Seq<TypedVecModel>,
> {
    match m.format {
        None => None,
        Some(fields) => match crate::types::spec_format_idx_of(h.format, tag) {
            None => None,
            Some(idx) => spec_lookup_fields(fields, idx),
        },
    }
}

/// A first-match lookup finds the witness: if nothing before `j` matches
/// and `j` does, the lookup answers the value at `j`.
proof fn lemma_lookup_pairs_hit(pairs: Seq<(i32, TypedVecModel)>, idx: int, j: int)
    requires
        0 <= j < pairs.len(),
        forall|k: int| 0 <= k < j ==> (#[trigger] pairs[k]).0 != idx,
        pairs[j].0 == idx,
    ensures
        spec_lookup_pairs(pairs, idx) == Some(pairs[j].1),
    decreases j,
{
    if j == 0 {
    } else {
        assert(pairs.drop_first()[j - 1] == pairs[j]);
        assert(forall|k: int|
            0 <= k < j - 1 ==> (#[trigger] pairs.drop_first()[k]).0 == pairs[k + 1].0);
        lemma_lookup_pairs_hit(pairs.drop_first(), idx, j - 1);
    }
}

/// A lookup over pairs none of which match answers nothing.
proof fn lemma_lookup_pairs_miss(pairs: Seq<(i32, TypedVecModel)>, idx: int)
    requires
        forall|k: int| 0 <= k < pairs.len() ==> (#[trigger] pairs[k]).0 != idx,
    ensures
        spec_lookup_pairs(pairs, idx) is None,
    decreases pairs.len(),
{
    if pairs.len() > 0 {
        assert(forall|k: int|
            0 <= k < pairs.drop_first().len() ==> (#[trigger] pairs.drop_first()[k]).0 == pairs[k
                + 1].0);
        lemma_lookup_pairs_miss(pairs.drop_first(), idx);
    }
}

/// The FORMAT analogue of `lemma_lookup_pairs_hit`.
proof fn lemma_lookup_fields_hit(fields: Seq<(i32, Seq<TypedVecModel>)>, idx: int, j: int)
    requires
        0 <= j < fields.len(),
        forall|k: int| 0 <= k < j ==> (#[trigger] fields[k]).0 != idx,
        fields[j].0 == idx,
    ensures
        spec_lookup_fields(fields, idx) == Some(fields[j].1),
    decreases j,
{
    if j == 0 {
    } else {
        assert(fields.drop_first()[j - 1] == fields[j]);
        assert(forall|k: int|
            0 <= k < j - 1 ==> (#[trigger] fields.drop_first()[k]).0 == fields[k + 1].0);
        lemma_lookup_fields_hit(fields.drop_first(), idx, j - 1);
    }
}

/// The FORMAT analogue of `lemma_lookup_pairs_miss`.
proof fn lemma_lookup_fields_miss(fields: Seq<(i32, Seq<TypedVecModel>)>, idx: int)
    requires
        forall|k: int| 0 <= k < fields.len() ==> (#[trigger] fields[k]).0 != idx,
    ensures
        spec_lookup_fields(fields, idx) is None,
    decreases fields.len(),
{
    if fields.len() > 0 {
        assert(forall|k: int|
            0 <= k < fields.drop_first().len() ==> (#[trigger] fields.drop_first()[k]).0
                == fields[k + 1].0);
        lemma_lookup_fields_miss(fields.drop_first(), idx);
    }
}

/// View of a sequence of decoded typed values.
pub open spec fn tvs_view(v: Seq<TypedVec>) -> Seq<TypedVecModel> {
    v.map_values(|x: TypedVec| x.view())
}

/// View of a sequence of INFO pairs.
pub open spec fn ipairs_view(v: Seq<(i32, TypedVec)>) -> Seq<(i32, TypedVecModel)> {
    v.map_values(|p: (i32, TypedVec)| (p.0, p.1.view()))
}

/// View of a sequence of FORMAT fields.
pub open spec fn ffields_view(v: Seq<(i32, Vec<TypedVec>)>) -> Seq<(i32, Seq<TypedVecModel>)> {
    v.map_values(|f: (i32, Vec<TypedVec>)| (f.0, tvs_view(f.1@)))
}

/// View of a sequence of byte vectors.
pub open spec fn bvs_view(v: Seq<Vec<u8>>) -> Seq<Seq<u8>> {
    v.map_values(|x: Vec<u8>| x@)
}

/// Reads `n` consecutive typed strings.
pub fn read_strings(bytes: &[u8], pos: usize, n: usize) -> (r: Result<
    (Vec<Vec<u8>>, usize),
    BcfError,
>)
    requires
        pos <= bytes@.len(),
    ensures
        match r {
            Ok((v, next)) => {
                &&& spec_strings_at(bytes@, pos, n as nat) == Ok::<_, BcfError>(
                    (bvs_view(v@), next as usize),
                )
                &&& pos <= next <= bytes@.len()
                &&& v@.len() == n
            },
            Err(e) => spec_strings_at(bytes@, pos, n as nat) == Err::<(Seq<Seq<u8>>, usize), _>(e),
        },
    decreases n,
{
    if n == 0 {
        let v: Vec<Vec<u8>> = Vec::new();
        assert(bvs_view(v@) =~= Seq::<Seq<u8>>::empty());
        return Ok((v, pos));
    }
    match read_typed_string(bytes, pos) {
        Err(e) => Err(e),
        Ok((s0, p1)) => {
            let ghost s0v = s0@;
            match read_strings(bytes, p1, n - 1) {
                Err(e) => Err(e),
                Ok((mut rest, m)) => {
                    let ghost oldrest = rest@;
                    rest.insert(0, s0);
                    proof {
                        assert(bvs_view(rest@) =~= seq![s0v] + bvs_view(oldrest));
                    }
                    Ok((rest, m))
                },
            }
        },
    }
}

/// Reads `n` consecutive INFO pairs, decoding the values.
pub fn read_info_pairs(bytes: &[u8], pos: usize, n: usize) -> (r: Result<
    (Vec<(i32, TypedVec)>, usize),
    BcfError,
>)
    requires
        pos <= bytes@.len(),
    ensures
        match r {
            Ok((v, next)) => {
                &&& spec_info_pairs(bytes@, pos, n as nat) == Ok::<_, BcfError>(
                    (ipairs_view(v@), next as usize),
                )
                &&& pos <= next <= bytes@.len()
            },
            Err(e) => spec_info_pairs(bytes@, pos, n as nat) == Err::<
                (Seq<(i32, TypedVecModel)>, usize),
                _,
            >(e),
        },
    decreases n,
{
    if n == 0 {
        let v: Vec<(i32, TypedVec)> = Vec::new();
        assert(ipairs_view(v@) =~= Seq::<(i32, TypedVecModel)>::empty());
        return Ok((v, pos));
    }
    match read_typed_int(bytes, pos) {
        Err(e) => Err(e),
        Ok((key, p1)) => match read_typed_vec(bytes, p1) {
            Err(e) => Err(e),
            Ok((val, p2)) => {
                let ghost pv = (key, val.view());
                match read_info_pairs(bytes, p2, n - 1) {
                    Err(e) => Err(e),
                    Ok((mut rest, m)) => {
                        let ghost oldrest = rest@;
                        rest.insert(0, (key, val));
                        proof {
                            assert(ipairs_view(rest@) =~= seq![pv] + ipairs_view(oldrest));
                        }
                        Ok((rest, m))
                    },
                }
            },
        },
    }
}

/// Reads `n` per-sample payloads that share one FORMAT descriptor,
/// decoding each.
pub fn read_fmt_samples(
    bytes: &[u8],
    pos: usize,
    td: crate::types::TypeDescriptor,
    n: usize,
) -> (r: Result<(Vec<TypedVec>, usize), BcfError>)
    requires
        pos <= bytes@.len(),
    ensures
        match r {
            Ok((v, next)) => {
                &&& spec_fmt_samples(bytes@, pos, td.kind, td.num_elements as nat, n as nat)
                    == Ok::<_, BcfError>((tvs_view(v@), next as usize))
                &&& pos <= next <= bytes@.len()
            },
            Err(e) => spec_fmt_samples(bytes@, pos, td.kind, td.num_elements as nat, n as nat)
                == Err::<(Seq<TypedVecModel>, usize), _>(e),
        },
    decreases n,
{
    if n == 0 {
        let v: Vec<TypedVec> = Vec::new();
        assert(tvs_view(v@) =~= Seq::<TypedVecModel>::empty());
        return Ok((v, pos));
    }
    match crate::codec::read_typed_body(bytes, pos, td) {
        Err(e) => Err(e),
        Ok((val, p1)) => {
            let ghost vv = val.view();
            match read_fmt_samples(bytes, p1, td, n - 1) {
                Err(e) => Err(e),
                Ok((mut rest, m)) => {
                    let ghost oldrest = rest@;
                    rest.insert(0, val);
                    proof {
                        assert(tvs_view(rest@) =~= seq![vv] + tvs_view(oldrest));
                    }
                    Ok((rest, m))
                },
            }
        },
    }
}

/// Reads `n` FORMAT fields, decoding every per-sample payload.
pub fn read_fmt_fields(bytes: &[u8], pos: usize, n: usize, n_sample: usize) -> (r: Result<
    (Vec<(i32, Vec<TypedVec>)>, usize),
    BcfError,
>)
    requires
        pos <= bytes@.len(),
    ensures
        match r {
            Ok((v, next)) => {
                &&& spec_fmt_fields(bytes@, pos, n as nat, n_sample as nat) == Ok::<_, BcfError>(
                    (ffields_view(v@), next as usize),
                )
                &&& pos <= next <= bytes@.len()
            },
            Err(e) => spec_fmt_fields(bytes@, pos, n as nat, n_sample as nat) == Err::<
                (Seq<(i32, Seq<TypedVecModel>)>, usize),
                _,
            >(e),
        },
    decreases n,
{
    if n == 0 {
        let v: Vec<(i32, Vec<TypedVec>)> = Vec::new();
        assert(ffields_view(v@) =~= Seq::<(i32, Seq<TypedVecModel>)>::empty());
        return Ok((v, pos));
    }
    match read_typed_int(bytes, pos) {
        Err(e) => Err(e),
        Ok((key, p1)) => match read_type_descriptor(bytes, p1) {
            Err(e) => Err(e),
            Ok((td, p2)) => match read_fmt_samples(bytes, p2, td, n_sample) {
                Err(e) => Err(e),
                Ok((samples, p3)) => {
                    let ghost fv = (key, tvs_view(samples@));
                    match read_fmt_fields(bytes, p3, n - 1, n_sample) {
                        Err(e) => Err(e),
                        Ok((mut rest, m)) => {
                            let ghost oldrest = rest@;
                            rest.insert(0, (key, samples));
                            proof {
                                assert(ffields_view(rest@) =~= seq![fv] + ffields_view(oldrest));
                            }
                            Ok((rest, m))
                        },
                    }
                },
            },
        },
    }
}

/// A successful parse of `n` typed strings yields exactly `n` of them.
pub proof fn lemma_strings_len(s: Seq<u8>, pos: usize, n: nat)
    requires
        spec_strings_at(s, pos, n) is Ok,
    ensures
        spec_strings_at(s, pos, n)->Ok_0.0.len() == n,
    decreases n,
{
    if n > 0 {
        match spec_typed_string(s, pos) {
            Err(_) => {},
            Ok((v, next)) => {
                if pos < next <= s.len() {
                    lemma_strings_len(s, next, (n - 1) as nat);
                }
            },
        }
    }
}

/// A successful parse of `n` INFO pairs yields exactly `n` of them.
pub proof fn lemma_info_pairs_len(s: Seq<u8>, pos: usize, n: nat)
    requires
        spec_info_pairs(s, pos, n) is Ok,
    ensures
        spec_info_pairs(s, pos, n)->Ok_0.0.len() == n,
    decreases n,
{
    if n > 0 {
        match spec_typed_int(s, pos) {
            Err(_) => {},
            Ok((key, p1)) => {
                if pos < p1 <= s.len() {
                    match spec_typed_vec(s, p1) {
                        Err(_) => {},
                        Ok((v, p2)) => {
                            if p1 < p2 <= s.len() {
                                lemma_info_pairs_len(s, p2, (n - 1) as nat);
                            }
                        },
                    }
                }
            },
        }
    }
}

/// A successful parse of `n` FORMAT fields yields exactly `n` of them.
pub proof fn lemma_fmt_fields_len(s: Seq<u8>, pos: usize, n: nat, n_sample: nat)
    requires
        spec_fmt_fields(s, pos, n, n_sample) is Ok,
    ensures
        spec_fmt_fields(s, pos, n, n_sample)->Ok_0.0.len() == n,
    decreases n,
{
    if n > 0 {
        match spec_typed_int(s, pos) {
            Err(_) => {},
            Ok((key, p1)) => {
                if pos < p1 <= s.len() {
                    match spec_type_descriptor(s, p1) {
                        Err(_) => {},
                        Ok((kind, cnt, p2)) => {
                            if p1 < p2 <= s.len() {
                                match spec_fmt_samples(s, p2, kind, cnt, n_sample) {
                                    Err(_) => {},
                                    Ok((samples, p3)) => {
                                        if p2 <= p3 <= s.len() {
                                            lemma_fmt_fields_len(s, p3, (n - 1) as nat, n_sample);
                                        }
                                    },
                                }
                            }
                        },
                    }
                }
            },
        }
    }
}

/// The lazy record: it retains the raw shared and per-sample byte regions
/// together with a handle on the header, and decodes a field each time it
/// is asked for.  Construction validates the frame once, so the accessors
/// are total.
#[derive(Debug)]
pub struct RawBcfRecord {
    shared: Vec<u8>,
    format: Vec<u8>,
    header: std::rc::Rc<crate::types::Header>,
    allele_start_bytepos: usize,
}

/// The record capability: the accessor set both record access
/// strategies offer.  Every accessor promises the matching component of
/// the one model `spec_record` assigns to the record's bytes, resolved
/// against the stream's header.
pub trait Record: Sized {
    /// The mathematical value of this record.
    spec fn model(&self) -> RecordModel;

    /// The header this record resolves its indices in.
    spec fn header_model(&self) -> HeaderModel;

    /// The record parses and every index it carries resolves.
    spec fn wf(&self) -> bool;

    /// The record's ID, empty when the record has none.
    fn id(&self) -> (r: Vec<u8>)
        requires
            self.wf(),
        ensures
            r@ == self.model().id,
    ;

    /// The name of the contig this record lies on, CHROM.
    fn chrom(&self) -> (r: Vec<u8>)
        requires
            self.wf(),
        ensures
            r@ == self.header_model().contigs[self.model().chrom as int].id,
    ;

    /// The position of this record, POS, 0-based, as the unsigned value
    /// whose reinterpretation as a signed 32-bit number the record
    /// stores.
    fn pos(&self) -> (r: u32)
        requires
            self.wf(),
        ensures
            self.model().pos == spec_sign32(r),
    ;

    /// The reference allele, REF: the first allele on wire.
    fn ref_allele(&self) -> (r: Vec<u8>)
        requires
            self.wf(),
        ensures
            r@ == self.model().alleles[0],
            self.model().alleles.len() >= 1,
    ;

    /// The alternative alleles, ALT: every allele but the first.
    fn alt_alleles(&self) -> (r: Vec<Vec<u8>>)
        requires
            self.wf(),
        ensures
            bvs_view(r@) == self.model().alleles.drop_first(),
            r@.len() == self.model().n_allele - 1,
    ;

    /// The QUAL bit pattern, absent when it equals the missing sentinel.
    /// Any other pattern, other NaN encodings included, is present.
    fn qual(&self) -> (r: Option<u32>)
        requires
            self.wf(),
        ensures
            r == if self.model().qual_bits == crate::types::MISSING_QUAL {
                Option::<u32>::None
            } else {
                Option::<u32>::Some(self.model().qual_bits)
            },
    ;

    /// The names of the filters attached to this record, FILTER.
    fn filters(&self) -> (r: Vec<Vec<u8>>)
        requires
            self.wf(),
        ensures
            r@.len() == self.model().filters.len(),
            forall|i: int|
                0 <= i < r@.len() ==> #[trigger] r@[i]@ == self.header_model().filters[
                    self.model().filters[i] as int
                ].id,
    ;

    /// For a given INFO tag, the record's value of it: the first INFO
    /// entry carrying the handle the header assigns the tag.  Absent when
    /// the header does not know the tag or the record does not carry it.
    fn info(&self, tag: &[u8]) -> (r: Option<TypedVec>)
        requires
            self.wf(),
        ensures
            match r {
                Some(v) => spec_info_of(self.model(), self.header_model(), tag@) == Some(v.view()),
                None => spec_info_of(self.model(), self.header_model(), tag@) is None,
            },
    ;

    /// For a given FORMAT tag, the record's per-sample values of it.
    fn format(&self, tag: &[u8]) -> (r: Option<Vec<TypedVec>>)
        requires
            self.wf(),
        ensures
            match r {
                Some(v) => spec_format_of(self.model(), self.header_model(), tag@) == Some(
                    tvs_view(v@),
                ),
                None => spec_format_of(self.model(), self.header_model(), tag@) is None,
            },
    ;

    /// The genotypes of every sample, decoded from the GT FORMAT field.
    fn genotypes(&self) -> (r: Vec<Vec<GenotypeAllele>>)
        requires
            self.wf(),
        ensures
            r@.map_values(|v: Vec<GenotypeAllele>| v@) == spec_genotypes(
                self.model(),
                self.header_model(),
            ),
    ;

    /// Whether the record sets the given INFO flag: presence of the key
    /// is sufficient, whatever its payload.
    fn has_flag(&self, tag: &[u8]) -> (r: bool)
        requires
            self.wf(),
        ensures
            r == spec_info_of(self.model(), self.header_model(), tag@) is Some,
    ;
}

impl RawBcfRecord {
    /// Frames a record from its two byte regions, validating that they
    /// parse and that every contig and filter index resolves in the
    /// header.
    pub fn new(
        shared: Vec<u8>,
        format: Vec<u8>,
        header: std::rc::Rc<crate::types::Header>,
    ) -> (r: Result<RawBcfRecord, BcfError>)
        ensures
            match r {
                Ok(rec) => {
                    &&& spec_record(shared@, format@) == Ok::<_, BcfError>(rec.model())
                    &&& spec_record_resolves(rec.model(), header@)
                    &&& rec.wf()
                    &&& rec.header_model() == header@
                },
                Err(e) => spec_record(shared@, format@) == Err::<RecordModel, _>(e) || (
                spec_record(shared@, format@) matches Ok(m) && !spec_record_resolves(m, header@)
                    && e == BcfError::IndexOutOfBounds),
            },
    {
        let bs = shared.as_slice();
        if bs.len() < 24 {
            return Err(BcfError::TruncatedInput);
        }
        let chrom = sign_extend32(read_le32(bs, 0));
        let n_info = sign_extend16(read_le16(bs, 16));
        let n_allele = sign_extend16(read_le16(bs, 18));
        let n_sample = read_le24(bs, 20);
        let n_fmt = *vstd::slice::slice_index_get(bs, 23);
        if n_allele < 1 || n_info < 0 {
            return Err(BcfError::MalformedTypeDescriptor);
        }
        let (_id, p1) = match read_typed_string(bs, 24) {
            Ok(x) => x,
            Err(e) => {
                return Err(e);
            },
        };
        let (_alleles, p2) = match read_strings(bs, p1, n_allele as usize) {
            Ok(x) => x,
            Err(e) => {
                return Err(e);
            },
        };
        let (filters, p3) = match read_typed_ints(bs, p2) {
            Ok(x) => x,
            Err(e) => {
                return Err(e);
            },
        };
        match read_info_pairs(bs, p3, n_info as usize) {
            Ok(_) => {},
            Err(e) => {
                return Err(e);
            },
        };
        if format.len() > 0 {
            match read_fmt_fields(format.as_slice(), 0, n_fmt as usize, n_sample as usize) {
                Ok(_) => {},
                Err(e) => {
                    return Err(e);
                },
            };
        }
        let h = crate::types::rc_header(&header);
        proof {
            assert(spec_record(shared@, format@) is Ok);
            assert(h@.contigs.len() == h.contigs@.len());
            assert(h@.filters.len() == h.filters@.len());
        }
        let ghost m = spec_record(shared@, format@)->Ok_0;
        proof {
            assert(m.chrom == chrom);
            assert(m.filters == filters@);
        }
        if chrom < 0 || chrom as usize >= h.contigs.len() {
            proof {
                assert(!spec_record_resolves(m, header@));
            }
            return Err(BcfError::IndexOutOfBounds);
        }
        let nf = filters.len();
        let mut i: usize = 0;
        while i < nf
            invariant
                i <= nf == filters@.len(),
                h@ == header@,
                spec_record(shared@, format@) is Ok,
                m == spec_record(shared@, format@)->Ok_0,
                m.filters == filters@,
                forall|k: int| 0 <= k < i ==> 0 <= #[trigger] filters@[k] < h@.filters.len(),
                h@.filters.len() == h.filters@.len(),
            decreases nf - i,
        {
            let f = filters[i];
            if f < 0 || f as usize >= h.filters.len() {
                proof {
                    assert(!(0 <= m.filters[i as int] < header@.filters.len()));
                    assert(!spec_record_resolves(m, header@));
                }
                return Err(BcfError::IndexOutOfBounds);
            }
            i = i + 1;
        }
        let rec = RawBcfRecord { shared, format, header, allele_start_bytepos: p1 };
        Ok(rec)
    }

    /// The number of alleles the record declares, REF included.
    fn n_alleles(&self) -> (r: usize)
        requires
            self.wf(),
        ensures
            r == self.model().n_allele,
    {
        let n = sign_extend16(read_le16(self.shared.as_slice(), 18));
        n as usize
    }
}

impl Record for RawBcfRecord {
    /// The mathematical value of this record.
    closed spec fn model(&self) -> RecordModel {
        spec_record(self.shared@, self.format@)->Ok_0
    }

    /// The header this record resolves its indices in.
    closed spec fn header_model(&self) -> HeaderModel {
        self.header@
    }

    /// The record regions parse, every index resolves in the header, and
    /// the cached allele offset is the position after the ID string.
    closed spec fn wf(&self) -> bool {
        &&& spec_record(self.shared@, self.format@) is Ok
        &&& spec_record_resolves(self.model(), self.header@)
        &&& spec_typed_string(self.shared@, 24) matches Ok((_id, p1)) && self.allele_start_bytepos
            == p1
    }

    /// The position of this record, POS, 0-based, as the unsigned value
    /// whose reinterpretation as a signed 32-bit number the record stores.
    fn pos(&self) -> (r: u32)
    {
        read_le32(self.shared.as_slice(), 4)
    }

    /// The QUAL bit pattern, absent when it equals the missing sentinel.
    /// Any other pattern, other NaN encodings included, is present.
    fn qual(&self) -> (r: Option<u32>)
    {
        let bits = read_le32(self.shared.as_slice(), 12);
        if bits == crate::types::MISSING_QUAL {
            None
        } else {
            Some(bits)
        }
    }

    /// The record's ID, empty when the record has none.
    fn id(&self) -> (r: Vec<u8>)
    {
        let (id, _) = match read_typed_string(self.shared.as_slice(), 24) {
            Ok(x) => x,
            Err(_) => unreached(),
        };
        id
    }

    /// The name of the contig this record lies on, CHROM.
    fn chrom(&self) -> (r: Vec<u8>)
    {
        let c = sign_extend32(read_le32(self.shared.as_slice(), 0));
        let h = crate::types::rc_header(&self.header);
        assert(h@.contigs[c as int] == h.contigs@.map_values(
            |e: crate::types::HeaderContig| e.view(),
        )[c as int]);
        crate::types::copy_all(&h.contigs[c as usize].id)
    }

    /// The reference allele, REF: the first allele on wire.
    fn ref_allele(&self) -> (r: Vec<u8>)
    {
        proof {
            let m = self.model();
            let p1 = self.allele_start_bytepos;
            assert(spec_strings_at(self.shared@, p1 as usize, m.n_allele as nat) == Ok::<
                _,
                BcfError,
            >((m.alleles, spec_strings_at(self.shared@, p1 as usize, m.n_allele as nat)->Ok_0.1)));
        }
        let (v, _) = match read_typed_string(self.shared.as_slice(), self.allele_start_bytepos) {
            Ok(x) => x,
            Err(_) => unreached(),
        };
        v
    }

    /// The alternative alleles, ALT: every allele but the first.
    fn alt_alleles(&self) -> (r: Vec<Vec<u8>>)
    {
        let n_allele = self.n_alleles();
        let bs = self.shared.as_slice();
        let (_first, after) = match read_typed_string(bs, self.allele_start_bytepos) {
            Ok(x) => x,
            Err(_) => unreached(),
        };
        let (alts, _) = match read_strings(bs, after, n_allele - 1) {
            Ok(x) => x,
            Err(_) => unreached(),
        };
        proof {
            let m = self.model();
            assert(m.alleles =~= seq![m.alleles[0]] + m.alleles.drop_first());
            assert(bvs_view(alts@) =~= m.alleles.drop_first());
        }
        alts
    }

    /// The names of the filters attached to this record, FILTER.
    fn filters(&self) -> (r: Vec<Vec<u8>>)
    {
        let n_allele = self.n_alleles();
        let bs = self.shared.as_slice();
        let (_alleles, p2) = match read_strings(bs, self.allele_start_bytepos, n_allele) {
            Ok(x) => x,
            Err(_) => unreached(),
        };
        let (ids, _) = match read_typed_ints(bs, p2) {
            Ok(x) => x,
            Err(_) => unreached(),
        };
        let h = crate::types::rc_header(&self.header);
        let n = ids.len();
        let mut out: Vec<Vec<u8>> = Vec::new();
        let mut i: usize = 0;
        while i < n
            invariant
                i <= n == ids@.len(),
                h@ == self.header_model(),
                ids@ == self.model().filters,
                self.wf(),
                out@.len() == i,
                forall|k: int|
                    0 <= k < i ==> #[trigger] out@[k]@ == self.header_model().filters[
                        self.model().filters[k] as int
                    ].id,
            decreases n - i,
        {
            let f = ids[i];
            assert(0 <= self.model().filters[i as int] < self.header_model().filters.len());
            assert(h@.filters[f as int] == h.filters@.map_values(
                |e: crate::types::HeaderFilter| e.view(),
            )[f as int]);
            out.push(crate::types::copy_all(&h.filters[f as usize].id));
            i = i + 1;
        }
        out
    }    /// For a given INFO tag, the record's value of it: the first INFO
    /// entry carrying the handle the header assigns the tag.  Absent when
    /// the header does not know the tag or the record does not carry it.
    fn info(&self, tag: &[u8]) -> (r: Option<TypedVec>)
    {
        let h = crate::types::rc_header(&self.header);
        let idx = match h.info_tag_to_offset(tag) {
            Some(i) => i,
            None => {
                return None;
            },
        };
        let ghost m = self.model();
        let bs = self.shared.as_slice();
        let n_allele = self.n_alleles();
        let (_alleles, p2) = match read_strings(bs, self.allele_start_bytepos, n_allele) {
            Ok(x) => x,
            Err(_) => unreached(),
        };
        let (_f, p3) = match read_typed_ints(bs, p2) {
            Ok(x) => x,
            Err(_) => unreached(),
        };
        let n_info_i = sign_extend16(read_le16(bs, 16));
        let n_info = n_info_i as usize;
        let ghost p4 = spec_info_pairs(self.shared@, p3 as usize, m.n_info as nat)->Ok_0.1;
        proof {
            assert(spec_info_pairs(self.shared@, p3 as usize, m.n_info as nat) is Ok);
            lemma_info_pairs_len(self.shared@, p3 as usize, m.n_info as nat);
            assert(m.info.len() == m.n_info);
        }
        let mut j: usize = 0;
        let mut cur = p3;
        assert(m.info.skip(0) =~= m.info);
        while j < n_info
            invariant
                self.wf(),
                m == self.model(),
                crate::types::spec_info_idx_of(self.header_model().info, tag@) == Some(
                    idx as int,
                ),
                j <= n_info == m.n_info,
                m.info.len() == n_info,
                cur <= self.shared@.len(),
                bs@ == self.shared@,
                spec_info_pairs(self.shared@, cur as usize, (n_info - j) as nat) == Ok::<
                    _,
                    BcfError,
                >((m.info.skip(j as int), p4)),
                forall|k: int| 0 <= k < j ==> (#[trigger] m.info[k]).0 != idx,
            decreases n_info - j,
        {
            let (key, pk) = match read_typed_int(bs, cur) {
                Ok(x) => x,
                Err(_) => unreached(),
            };
            let (raw, pv) = match crate::codec::read_raw_vec(bs, pk) {
                Ok(x) => x,
                Err(_) => unreached(),
            };
            proof {
                let rest = spec_info_pairs(
                    self.shared@,
                    pv as usize,
                    (n_info - j - 1) as nat,
                )->Ok_0.0;
                assert(spec_info_pairs(self.shared@, pv as usize, (n_info - j - 1) as nat) is Ok);
                assert(seq![(key, raw.view())] + rest == m.info.skip(j as int));
                assert(m.info.skip(j as int)[0] == (key, raw.view()));
                assert(m.info[j as int] == (key, raw.view()));
                assert(rest.len() + 1 == m.info.skip(j as int).len());
                assert forall|q: int| 0 <= q < rest.len() implies rest[q] == m.info.skip(j + 1)[q] by {
                    assert((seq![(key, raw.view())] + rest)[q + 1] == rest[q]);
                    assert(m.info.skip(j as int)[q + 1] == m.info[j + 1 + q]);
                    assert(m.info.skip(j + 1)[q] == m.info[j + 1 + q]);
                };
                assert(rest =~= m.info.skip(j + 1));
            }
            if key >= 0 && key as usize == idx {
                proof {
                    lemma_lookup_pairs_hit(m.info, idx as int, j as int);
                }
                return Some(raw.into_typed());
            }
            proof {
                assert(m.info[j as int].0 != idx);
            }
            j = j + 1;
            cur = pv;
        }
        proof {
            assert(m.info.skip(n_info as int) =~= Seq::<(i32, TypedVecModel)>::empty());
            lemma_lookup_pairs_miss(m.info, idx as int);
        }
        None
    }

    /// Whether the record sets the given INFO flag: presence of the key
    /// is sufficient, whatever its payload.
    fn has_flag(&self, tag: &[u8]) -> (r: bool)
    {
        self.info(tag).is_some()
    }

    /// For a given FORMAT tag, the record's per-sample values of it.
    fn format(&self, tag: &[u8]) -> (r: Option<Vec<TypedVec>>)
    {
        if self.format.len() == 0 {
            return None;
        }
        let h = crate::types::rc_header(&self.header);
        let idx = match h.format_tag_to_offset(tag) {
            Some(i) => i,
            None => {
                return None;
            },
        };
        let ghost m = self.model();
        let ghost fields = m.format->0;
        let fs = self.format.as_slice();
        let n_sample = read_le24(self.shared.as_slice(), 20) as usize;
        let n_fmt = *vstd::slice::slice_index_get(self.shared.as_slice(), 23) as usize;
        let ghost p4 = spec_fmt_fields(self.format@, 0, m.n_fmt as nat, m.n_sample as nat)->Ok_0.1;
        proof {
            assert(spec_fmt_fields(self.format@, 0, m.n_fmt as nat, m.n_sample as nat) is Ok);
            lemma_fmt_fields_len(self.format@, 0, m.n_fmt as nat, m.n_sample as nat);
            assert(fields.len() == m.n_fmt);
        }
        let mut j: usize = 0;
        let mut cur: usize = 0;
        assert(fields.skip(0) =~= fields);
        while j < n_fmt
            invariant
                self.wf(),
                m == self.model(),
                m.format == Some(fields),
                crate::types::spec_format_idx_of(self.header_model().format, tag@) == Some(
                    idx as int,
                ),
                j <= n_fmt == m.n_fmt,
                fields.len() == n_fmt,
                n_sample == m.n_sample,
                cur <= self.format@.len(),
                fs@ == self.format@,
                spec_fmt_fields(self.format@, cur as usize, (n_fmt - j) as nat, m.n_sample as nat)
                    == Ok::<_, BcfError>((fields.skip(j as int), p4)),
                forall|k: int| 0 <= k < j ==> (#[trigger] fields[k]).0 != idx,
            decreases n_fmt - j,
        {
            let (key, pk) = match read_typed_int(fs, cur) {
                Ok(x) => x,
                Err(_) => unreached(),
            };
            let (td, pd) = match read_type_descriptor(fs, pk) {
                Ok(x) => x,
                Err(_) => unreached(),
            };
            let (samples, pv) = match read_fmt_samples(fs, pd, td, n_sample) {
                Ok(x) => x,
                Err(_) => unreached(),
            };
            proof {
                let rest = spec_fmt_fields(
                    self.format@,
                    pv as usize,
                    (n_fmt - j - 1) as nat,
                    m.n_sample as nat,
                )->Ok_0.0;
                assert(spec_fmt_fields(
                    self.format@,
                    pv as usize,
                    (n_fmt - j - 1) as nat,
                    m.n_sample as nat,
                ) is Ok);
                assert(seq![(key, tvs_view(samples@))] + rest == fields.skip(j as int));
                assert(fields.skip(j as int)[0] == (key, tvs_view(samples@)));
                assert(fields[j as int] == (key, tvs_view(samples@)));
                assert(rest.len() + 1 == fields.skip(j as int).len());
                assert forall|q: int| 0 <= q < rest.len() implies rest[q] == fields.skip(j + 1)[q] by {
                    assert((seq![(key, tvs_view(samples@))] + rest)[q + 1] == rest[q]);
                    assert(fields.skip(j as int)[q + 1] == fields[j + 1 + q]);
                    assert(fields.skip(j + 1)[q] == fields[j + 1 + q]);
                };
                assert(rest =~= fields.skip(j + 1));
            }
            if key >= 0 && key as usize == idx {
                proof {
                    lemma_lookup_fields_hit(fields, idx as int, j as int);
                }
                return Some(samples);
            }
            proof {
                assert(fields[j as int].0 != idx);
            }
            j = j + 1;
            cur = pv;
        }
        proof {
            assert(fields.skip(n_fmt as int) =~= Seq::<(i32, Seq<TypedVecModel>)>::empty());
            lemma_lookup_fields_miss(fields, idx as int);
        }
        None
    }

    /// The genotypes of every sample, decoded from the GT FORMAT field.
    fn genotypes(&self) -> (r: Vec<Vec<GenotypeAllele>>)
    {
        let gt = crate::header::kw_vec_gt();
        let samples = match self.format(gt.as_slice()) {
            Some(s) => s,
            None => {
                let out: Vec<Vec<GenotypeAllele>> = Vec::new();
                assert(out@.map_values(|v: Vec<GenotypeAllele>| v@) =~= Seq::<
                    Seq<GenotypeAllele>,
                >::empty());
                return out;
            },
        };
        let n = samples.len();
        let mut out: Vec<Vec<GenotypeAllele>> = Vec::new();
        let ghost sm = tvs_view(samples@);
        let ghost target = spec_genotypes(self.model(), self.header_model());
        proof {
            assert(target == sm.map_values(
                |tv: TypedVecModel|
                    match tv {
                        TypedVecModel::Ints(v) => v.map_values(
                            |e: i32| spec_gt_allele(e as int),
                        ),
                        _ => Seq::<GenotypeAllele>::empty(),
                    },
            ));
        }
        let mut i: usize = 0;
        while i < n
            invariant
                i <= n == samples@.len(),
                sm == tvs_view(samples@),
                target == sm.map_values(
                    |tv: TypedVecModel|
                        match tv {
                            TypedVecModel::Ints(v) => v.map_values(
                                |e: i32| spec_gt_allele(e as int),
                            ),
                            _ => Seq::<GenotypeAllele>::empty(),
                        },
                ),
                out@.len() == i,
                forall|k: int|
                    0 <= k < i ==> #[trigger] out@[k]@ == target[k],
            decreases n - i,
        {
            let mut alleles: Vec<GenotypeAllele> = Vec::new();
            match &samples[i] {
                TypedVec::Int32(v) => {
                    let vn = v.len();
                    let mut k: usize = 0;
                    while k < vn
                        invariant
                            k <= vn == v@.len(),
                            alleles@.len() == k,
                            forall|q: int|
                                0 <= q < k ==> #[trigger] alleles@[q] == spec_gt_allele(
                                    v@[q] as int,
                                ),
                        decreases vn - k,
                    {
                        alleles.push(GenotypeAllele::from(v[k]));
                        k = k + 1;
                    }
                    proof {
                        assert(sm[i as int] == TypedVecModel::Ints(v@));
                        assert(alleles@ =~= v@.map_values(|e: i32| spec_gt_allele(e as int)));
                    }
                },
                _ => {
                    proof {
                        assert(alleles@ =~= Seq::<GenotypeAllele>::empty());
                    }
                },
            }
            proof {
                assert(sm[i as int] == samples@[i as int].view());
            }
            out.push(alleles);
            i = i + 1;
        }
        proof {
            assert(out@.map_values(|v: Vec<GenotypeAllele>| v@) =~= target);
        }
        out
    }
}


/// Phased or unphased alleles, represented as indices.
#[derive(Debug, Clone, Copy, PartialEq, Eq, Hash, Structural)]
pub enum GenotypeAllele {
    Unphased(i32),
    Phased(i32),
    UnphasedMissing,
    PhasedMissing,
}

/// The genotype allele an encoded integer denotes: bit 0 is the phased
/// flag, the remaining bits hold the allele index plus one, and zero in
/// those bits encodes the missing allele.
pub open spec fn spec_gt_allele(e: int) -> GenotypeAllele {
    let bit = e % 2;
    let half = (e - bit) / 2;
    if e == 0 {
        GenotypeAllele::UnphasedMissing
    } else if e == 1 {
        GenotypeAllele::PhasedMissing
    } else if bit == 1 {
        GenotypeAllele::Phased((half - 1) as i32)
    } else {
        GenotypeAllele::Unphased((half - 1) as i32)
    }
}

impl vstd::std_specs::convert::FromSpecImpl<i32> for GenotypeAllele {
    open spec fn obeys_from_spec() -> bool {
        true
    }

    open spec fn from_spec(e: i32) -> GenotypeAllele {
        spec_gt_allele(e as int)
    }
}

impl From<i32> for GenotypeAllele {
    /// Decodes an integer of a GT field.
    fn from(encoded: i32) -> (r: GenotypeAllele) {
        let bit: i32 = if encoded % 2 != 0 {
            1
        } else {
            0
        };
        let half: i32 = (encoded - bit) / 2;
        proof {
            assert(encoded as int % 2 == bit as int) by {
                assert((encoded as int) % 2 == ((encoded as int) % 2 + 2) % 2);
            };
        }
        if encoded == 0 {
            GenotypeAllele::UnphasedMissing
        } else if encoded == 1 {
            GenotypeAllele::PhasedMissing
        } else if bit == 1 {
            GenotypeAllele::Phased(half - 1)
        } else {
            GenotypeAllele::Unphased(half - 1)
        }
    }
}

/// The unsigned 32-bit value with the same bit pattern as `v`.
pub open spec fn spec_u32_of_i32(v: i32) -> u32 {
    if v >= 0 {
        v as u32
    } else {
        (v + 0x1_0000_0000) as u32
    }
}

impl GenotypeAllele {
    /// The index into the list of alleles, absent for a missing allele.
    pub fn index(self) -> (r: Option<u32>)
        ensures
            r == match self {
                GenotypeAllele::Unphased(i) | GenotypeAllele::Phased(i) => Some(
                    spec_u32_of_i32(i),
                ),
                GenotypeAllele::UnphasedMissing | GenotypeAllele::PhasedMissing => None::<u32>,
            },
    {
        match self {
            GenotypeAllele::Unphased(i) | GenotypeAllele::Phased(i) => {
                if i >= 0 {
                    Some(i as u32)
                } else {
                    Some(((i as i64) + 0x1_0000_0000i64) as u32)
                }
            },
            GenotypeAllele::UnphasedMissing | GenotypeAllele::PhasedMissing => None,
        }
    }
}

/// The per-sample genotype lists of model `m` under header `h`: the
/// decoded GT field, one list per sample, empty without a GT field.  A
/// sample whose GT value is not an integer vector yields an empty list.
pub open spec fn spec_genotypes(m: RecordModel, h: HeaderModel) -> Seq<Seq<GenotypeAllele>> {
    match spec_format_of(m, h, crate::header::kw_gt()) {
        None => Seq::empty(),
        Some(samples) => samples.map_values(
            |tv: TypedVecModel|
                match tv {
                    TypedVecModel::Ints(v) => v.map_values(|e: i32| spec_gt_allele(e as int)),
                    _ => Seq::<GenotypeAllele>::empty(),
                },
        ),
    }
}


/// The eager record: construction decodes every field of the frame into
/// owned values, and the accessors answer from those.
#[derive(Debug)]
pub struct BcfRecord {
    chrom: i32,
    pos_bits: u32,
    rlen: i32,
    qual_bits: u32,
    n_info: i32,
    n_allele: i32,
    n_sample: u32,
    n_fmt: u8,
    id: Vec<u8>,
    alleles: Vec<Vec<u8>>,
    filters: Vec<i32>,
    info: Vec<(i32, TypedVec)>,
    format: Option<Vec<(i32, Vec<TypedVec>)>>,
    header: std::rc::Rc<crate::types::Header>,
}

impl BcfRecord {
    /// Decodes a whole record from its two byte regions, validating that
    /// every contig and filter index resolves in the header.
    pub fn new(
        shared: &[u8],
        format: &[u8],
        header: std::rc::Rc<crate::types::Header>,
    ) -> (r: Result<BcfRecord, BcfError>)
        ensures
            match r {
                Ok(rec) => {
                    &&& spec_record(shared@, format@) == Ok::<_, BcfError>(rec.model())
                    &&& spec_record_resolves(rec.model(), header@)
                    &&& rec.wf()
                    &&& rec.header_model() == header@
                },
                Err(e) => spec_record(shared@, format@) == Err::<RecordModel, _>(e) || (
                spec_record(shared@, format@) matches Ok(m) && !spec_record_resolves(m, header@)
                    && e == BcfError::IndexOutOfBounds),
            },
    {
        if shared.len() < 24 {
            return Err(BcfError::TruncatedInput);
        }
        let chrom = sign_extend32(read_le32(shared, 0));
        let pos_bits = read_le32(shared, 4);
        let rlen = sign_extend32(read_le32(shared, 8));
        let qual_bits = read_le32(shared, 12);
        let n_info = sign_extend16(read_le16(shared, 16));
        let n_allele = sign_extend16(read_le16(shared, 18));
        let n_sample = read_le24(shared, 20);
        let n_fmt = *vstd::slice::slice_index_get(shared, 23);
        if n_allele < 1 || n_info < 0 {
            return Err(BcfError::MalformedTypeDescriptor);
        }
        let (id, p1) = match read_typed_string(shared, 24) {
            Ok(x) => x,
            Err(e) => {
                return Err(e);
            },
        };
        let (alleles, p2) = match read_strings(shared, p1, n_allele as usize) {
            Ok(x) => x,
            Err(e) => {
                return Err(e);
            },
        };
        let (filters, p3) = match read_typed_ints(shared, p2) {
            Ok(x) => x,
            Err(e) => {
                return Err(e);
            },
        };
        let (info, _p4) = match read_info_pairs(shared, p3, n_info as usize) {
            Ok(x) => x,
            Err(e) => {
                return Err(e);
            },
        };
        let fmt: Option<Vec<(i32, Vec<TypedVec>)>> = if format.len() > 0 {
            match read_fmt_fields(format, 0, n_fmt as usize, n_sample as usize) {
                Ok((fields, _)) => Some(fields),
                Err(e) => {
                    return Err(e);
                },
            }
        } else {
            None
        };
        let h = crate::types::rc_header(&header);
        proof {
            assert(spec_record(shared@, format@) is Ok);
            assert(h@.contigs.len() == h.contigs@.len());
            assert(h@.filters.len() == h.filters@.len());
        }
        let ghost m = spec_record(shared@, format@)->Ok_0;
        proof {
            assert(m.chrom == chrom);
            assert(m.filters == filters@);
        }
        if chrom < 0 || chrom as usize >= h.contigs.len() {
            proof {
                assert(!spec_record_resolves(m, header@));
            }
            return Err(BcfError::IndexOutOfBounds);
        }
        let nf = filters.len();
        let mut i: usize = 0;
        while i < nf
            invariant
                i <= nf == filters@.len(),
                h@ == header@,
                spec_record(shared@, format@) is Ok,
                m == spec_record(shared@, format@)->Ok_0,
                m.filters == filters@,
                forall|k: int| 0 <= k < i ==> 0 <= #[trigger] filters@[k] < h@.filters.len(),
                h@.filters.len() == h.filters@.len(),
            decreases nf - i,
        {
            let f = filters[i];
            if f < 0 || f as usize >= h.filters.len() {
                proof {
                    assert(!(0 <= m.filters[i as int] < header@.filters.len()));
                    assert(!spec_record_resolves(m, header@));
                }
                return Err(BcfError::IndexOutOfBounds);
            }
            i = i + 1;
        }
        proof {
            lemma_info_pairs_len(shared@, p3, n_info as nat);
        }
        let rec = BcfRecord {
            chrom,
            pos_bits,
            rlen,
            qual_bits,
            n_info,
            n_allele,
            n_sample,
            n_fmt,
            id,
            alleles,
            filters,
            info,
            format: fmt,
            header,
        };
        proof {
            assert(rec.model() == m);
        }
        Ok(rec)
    }
}

impl Record for BcfRecord {
    /// The mathematical value of this record.
    closed spec fn model(&self) -> RecordModel {
        RecordModel {
            chrom: self.chrom,
            pos: crate::codec::spec_sign32(self.pos_bits),
            rlen: self.rlen,
            qual_bits: self.qual_bits,
            n_info: self.n_info as int,
            n_allele: self.n_allele as int,
            n_sample: self.n_sample as int,
            n_fmt: self.n_fmt as int,
            id: self.id@,
            alleles: bvs_view(self.alleles@),
            filters: self.filters@,
            info: ipairs_view(self.info@),
            format: match self.format {
                Some(f) => Some(ffields_view(f@)),
                None => None,
            },
        }
    }

    /// The header this record resolves its indices in.
    closed spec fn header_model(&self) -> HeaderModel {
        self.header@
    }

    /// Every index resolves in the header and the allele list carries at
    /// least REF.
    closed spec fn wf(&self) -> bool {
        &&& spec_record_resolves(self.model(), self.header@)
        &&& self.model().alleles.len() == self.model().n_allele
        &&& self.model().n_allele >= 1
        &&& self.model().info.len() == self.model().n_info
    }

    /// The position of this record, POS, 0-based, as the unsigned value
    /// whose reinterpretation as a signed 32-bit number the record stores.
    fn pos(&self) -> (r: u32)
    {
        self.pos_bits
    }

    /// The QUAL bit pattern, absent when it equals the missing sentinel.
    fn qual(&self) -> (r: Option<u32>)
    {
        if self.qual_bits == crate::types::MISSING_QUAL {
            None
        } else {
            Some(self.qual_bits)
        }
    }

    /// The record's ID, empty when the record has none.
    fn id(&self) -> (r: Vec<u8>)
    {
        crate::types::copy_all(&self.id)
    }

    /// The name of the contig this record lies on, CHROM.
    fn chrom(&self) -> (r: Vec<u8>)
    {
        let h = crate::types::rc_header(&self.header);
        assert(h@.contigs[self.chrom as int] == h.contigs@.map_values(
            |e: crate::types::HeaderContig| e.view(),
        )[self.chrom as int]);
        crate::types::copy_all(&h.contigs[self.chrom as usize].id)
    }

    /// The reference allele, REF: the first allele on wire.
    fn ref_allele(&self) -> (r: Vec<u8>)
    {
        assert(self.model().alleles[0] == self.alleles@[0]@);
        crate::types::copy_all(&self.alleles[0])
    }

    /// The alternative alleles, ALT: every allele but the first.
    fn alt_alleles(&self) -> (r: Vec<Vec<u8>>)
    {
        let n = self.alleles.len();
        let mut out: Vec<Vec<u8>> = Vec::new();
        let mut i: usize = 1;
        while i < n
            invariant
                1 <= i <= n == self.alleles@.len(),
                out@.len() == i - 1,
                forall|k: int| 0 <= k < i - 1 ==> #[trigger] out@[k]@ == self.alleles@[k + 1]@,
            decreases n - i,
        {
            out.push(crate::types::copy_all(&self.alleles[i]));
            i = i + 1;
        }
        proof {
            assert(bvs_view(out@) =~= self.model().alleles.drop_first());
        }
        out
    }

    /// The names of the filters attached to this record, FILTER.
    fn filters(&self) -> (r: Vec<Vec<u8>>)
    {
        let h = crate::types::rc_header(&self.header);
        let n = self.filters.len();
        let mut out: Vec<Vec<u8>> = Vec::new();
        let mut i: usize = 0;
        while i < n
            invariant
                i <= n == self.filters@.len(),
                h@ == self.header_model(),
                self.wf(),
                self.filters@ == self.model().filters,
                out@.len() == i,
                forall|k: int|
                    0 <= k < i ==> #[trigger] out@[k]@ == self.header_model().filters[
                        self.model().filters[k] as int
                    ].id,
            decreases n - i,
        {
            let f = self.filters[i];
            assert(0 <= self.model().filters[i as int] < self.header_model().filters.len());
            assert(h@.filters[f as int] == h.filters@.map_values(
                |e: crate::types::HeaderFilter| e.view(),
            )[f as int]);
            out.push(crate::types::copy_all(&h.filters[f as usize].id));
            i = i + 1;
        }
        out
    }

    /// For a given INFO tag, the record's value of it.
    fn info(&self, tag: &[u8]) -> (r: Option<TypedVec>)
    {
        let h = crate::types::rc_header(&self.header);
        let idx = match h.info_tag_to_offset(tag) {
            Some(i) => i,
            None => {
                return None;
            },
        };
        let ghost pm = ipairs_view(self.info@);
        let n = self.info.len();
        let mut j: usize = 0;
        while j < n
            invariant
                j <= n == self.info@.len(),
                pm == ipairs_view(self.info@),
                crate::types::spec_info_idx_of(self.header_model().info, tag@) == Some(
                    idx as int,
                ),
                forall|k: int| 0 <= k < j ==> (#[trigger] pm[k]).0 != idx,
            decreases n - j,
        {
            let key = self.info[j].0;
            assert(pm[j as int] == (self.info@[j as int].0, self.info@[j as int].1.view()));
            if key >= 0 && key as usize == idx {
                proof {
                    lemma_lookup_pairs_hit(pm, idx as int, j as int);
                }
                return Some(self.info[j].1.duplicate());
            }
            j = j + 1;
        }
        proof {
            lemma_lookup_pairs_miss(pm, idx as int);
        }
        None
    }

    /// Whether the record sets the given INFO flag.
    fn has_flag(&self, tag: &[u8]) -> (r: bool)
    {
        self.info(tag).is_some()
    }

    /// For a given FORMAT tag, the record's per-sample values of it.
    fn format(&self, tag: &[u8]) -> (r: Option<Vec<TypedVec>>)
    {
        let fields = match &self.format {
            Some(f) => f,
            None => {
                return None;
            },
        };
        let h = crate::types::rc_header(&self.header);
        let idx = match h.format_tag_to_offset(tag) {
            Some(i) => i,
            None => {
                return None;
            },
        };
        let ghost fm = ffields_view(fields@);
        let n = fields.len();
        let mut j: usize = 0;
        while j < n
            invariant
                j <= n == fields@.len(),
                fm == ffields_view(fields@),
                self.format == Some(*fields),
                crate::types::spec_format_idx_of(self.header_model().format, tag@) == Some(
                    idx as int,
                ),
                forall|k: int| 0 <= k < j ==> (#[trigger] fm[k]).0 != idx,
            decreases n - j,
        {
            let key = fields[j].0;
            assert(fm[j as int] == (fields@[j as int].0, tvs_view(fields@[j as int].1@)));
            if key >= 0 && key as usize == idx {
                proof {
                    lemma_lookup_fields_hit(fm, idx as int, j as int);
                }
                let samples = &fields[j].1;
                let sn = samples.len();
                let mut out: Vec<TypedVec> = Vec::new();
                let mut k: usize = 0;
                while k < sn
                    invariant
                        k <= sn == samples@.len(),
                        out@.len() == k,
                        forall|q: int|
                            0 <= q < k ==> #[trigger] out@[q].view() == samples@[q].view(),
                    decreases sn - k,
                {
                    out.push(samples[k].duplicate());
                    k = k + 1;
                }
                proof {
                    assert(tvs_view(out@) =~= tvs_view(samples@));
                }
                return Some(out);
            }
            j = j + 1;
        }
        proof {
            lemma_lookup_fields_miss(fm, idx as int);
        }
        None
    }

    /// The genotypes of every sample, decoded from the GT FORMAT field.
    fn genotypes(&self) -> (r: Vec<Vec<GenotypeAllele>>)
    {
        let gt = crate::header::kw_vec_gt();
        let samples = match self.format(gt.as_slice()) {
            Some(s) => s,
            None => {
                let out: Vec<Vec<GenotypeAllele>> = Vec::new();
                assert(out@.map_values(|v: Vec<GenotypeAllele>| v@) =~= Seq::<
                    Seq<GenotypeAllele>,
                >::empty());
                return out;
            },
        };
        let n = samples.len();
        let mut out: Vec<Vec<GenotypeAllele>> = Vec::new();
        let ghost sm = tvs_view(samples@);
        let ghost target = spec_genotypes(self.model(), self.header_model());
        proof {
            assert(target == sm.map_values(
                |tv: TypedVecModel|
                    match tv {
                        TypedVecModel::Ints(v) => v.map_values(
                            |e: i32| spec_gt_allele(e as int),
                        ),
                        _ => Seq::<GenotypeAllele>::empty(),
                    },
            ));
        }
        let mut i: usize = 0;
        while i < n
            invariant
                i <= n == samples@.len(),
                sm == tvs_view(samples@),
                target == sm.map_values(
                    |tv: TypedVecModel|
                        match tv {
                            TypedVecModel::Ints(v) => v.map_values(
                                |e: i32| spec_gt_allele(e as int),
                            ),
                            _ => Seq::<GenotypeAllele>::empty(),
                        },
                ),
                out@.len() == i,
                forall|k: int|
                    0 <= k < i ==> #[trigger] out@[k]@ == target[k],
            decreases n - i,
        {
            let mut alleles: Vec<GenotypeAllele> = Vec::new();
            match &samples[i] {
                TypedVec::Int32(v) => {
                    let vn = v.len();
                    let mut k: usize = 0;
                    while k < vn
                        invariant
                            k <= vn == v@.len(),
                            alleles@.len() == k,
                            forall|q: int|
                                0 <= q < k ==> #[trigger] alleles@[q] == spec_gt_allele(
                                    v@[q] as int,
                                ),
                        decreases vn - k,
                    {
                        alleles.push(GenotypeAllele::from(v[k]));
                        k = k + 1;
                    }
                    proof {
                        assert(sm[i as int] == TypedVecModel::Ints(v@));
                        assert(alleles@ =~= v@.map_values(|e: i32| spec_gt_allele(e as int)));
                    }
                },
                _ => {
                    proof {
                        assert(alleles@ =~= Seq::<GenotypeAllele>::empty());
                    }
                },
            }
            proof {
                assert(sm[i as int] == samples@[i as int].view());
            }
            out.push(alleles);
            i = i + 1;
        }
        proof {
            assert(out@.map_values(|v: Vec<GenotypeAllele>| v@) =~= target);
        }
        out
    }
}


/// Every record carries at least the REF allele, the allele list has
/// exactly `n_allele` entries, and REF is the first allele on wire: the
/// typed string standing right after the ID decodes to `alleles[0]`, and
/// `n_allele - 1` alternative alleles follow it.
pub proof fn lemma_allele_counts(shared: Seq<u8>, indiv: Seq<u8>, m: RecordModel)
    requires
        spec_record(shared, indiv) == Ok::<RecordModel, BcfError>(m),
    ensures
        m.n_allele >= 1,
        m.alleles.len() == m.n_allele,
        m.alleles.drop_first().len() == m.n_allele - 1,
        spec_typed_string(shared, 24) matches Ok((_id, p1)) && spec_typed_string(shared, p1)
            matches Ok((first, _)) && first == m.alleles[0],
{
    let p1 = spec_typed_string(shared, 24)->Ok_0.1;
    lemma_strings_len(shared, p1, m.n_allele as nat);
}

/// Lazy and eager decoding agree: one frame denotes one model, so both
/// record types answer the same value for every field and for every INFO
/// or FORMAT tag, the flags and genotypes included.
pub proof fn lemma_lazy_eager_agree(
    raw: RawBcfRecord,
    eager: BcfRecord,
    shared: Seq<u8>,
    indiv: Seq<u8>,
)
    requires
        spec_record(shared, indiv) == Ok::<RecordModel, BcfError>(raw.model()),
        spec_record(shared, indiv) == Ok::<RecordModel, BcfError>(eager.model()),
        raw.header_model() == eager.header_model(),
    ensures
        raw.model() == eager.model(),
        forall|tag: Seq<u8>|
            #[trigger] spec_info_of(raw.model(), raw.header_model(), tag) == spec_info_of(
                eager.model(),
                eager.header_model(),
                tag,
            ),
        forall|tag: Seq<u8>|
            #[trigger] spec_format_of(raw.model(), raw.header_model(), tag) == spec_format_of(
                eager.model(),
                eager.header_model(),
                tag,
            ),
        spec_genotypes(raw.model(), raw.header_model()) == spec_genotypes(
            eager.model(),
            eager.header_model(),
        ),
{
}

} // verus!
