//! The stream driver: it checks the magic and version prelude, parses the
//! header once, and then drains length-prefixed records in on-disk order.
//!
//! The driver owns an already-decompressed byte buffer; reading and
//! decompressing a file belongs to the caller.  Each record is framed by
//! two little-endian u32 lengths; reaching the end of the buffer exactly
//! at a frame boundary is the clean end of the stream, and an exhausted
//! stream keeps yielding nothing without failing.

use vstd::prelude::*;

use crate::codec::{read_le32, spec_le32};
use crate::header::spec_parse_header;
use crate::record::{spec_record, spec_record_resolves, RawBcfRecord, Record, RecordModel};
use crate::types::{rc_clone_header, BcfError, Header, HeaderModel, Version};

verus! {

/// BCF major version this reader accepts.
pub const BCF_MAJOR_VERSION: u8 = 2;

/// BCF minor version this reader accepts.
pub const BCF_MINOR_VERSION: u8 = 2;

/// The version bytes at the head of a BCF stream, behind the magic.
pub open spec fn spec_version(s: Seq<u8>) -> Result<Version, BcfError> {
    if s.len() < 5 {
        Err(BcfError::TruncatedInput)
    } else if s[0] != 66 || s[1] != 67 || s[2] != 70 {
        Err(BcfError::InvalidMagic)
    } else {
        Ok(Version { major: s[3], minor: s[4] })
    }
}

/// Reads the five-byte prelude: the magic `BCF` followed by the major and
/// minor version bytes.
pub fn bcf_version(bytes: &[u8]) -> (r: Result<Version, BcfError>)
    ensures
        r == spec_version(bytes@),
{
    if bytes.len() < 5 {
        return Err(BcfError::TruncatedInput);
    }
    let b0 = *vstd::slice::slice_index_get(bytes, 0);
    let b1 = *vstd::slice::slice_index_get(bytes, 1);
    let b2 = *vstd::slice::slice_index_get(bytes, 2);
    if b0 != 66 || b1 != 67 || b2 != 70 {
        return Err(BcfError::InvalidMagic);
    }
    Ok(Version {
        major: *vstd::slice::slice_index_get(bytes, 3),
        minor: *vstd::slice::slice_index_get(bytes, 4),
    })
}

/// The result of opening a stream: the header's model and the position of
/// the first record frame.  The prelude is the three magic bytes `BCF`,
/// the two version bytes, and the little-endian u32 length of the header
/// region.
pub open spec fn spec_open(s: Seq<u8>) -> Result<(HeaderModel, int), BcfError> {
    if s.len() < 5 {
        Err(BcfError::TruncatedInput)
    } else if s[0] != 66 || s[1] != 67 || s[2] != 70 {
        Err(BcfError::InvalidMagic)
    } else if s[3] != BCF_MAJOR_VERSION || s[4] != BCF_MINOR_VERSION {
        Err(BcfError::VersionMismatch)
    } else if s.len() < 9 {
        Err(BcfError::TruncatedInput)
    } else {
        let hlen = spec_le32(s, 5) as int;
        if s.len() - 9 < hlen {
            Err(BcfError::TruncatedInput)
        } else {
            match spec_parse_header(s.subrange(9, 9 + hlen)) {
                Err(e) => Err(e),
                Ok(hm) => Ok((hm, 9 + hlen)),
            }
        }
    }
}

/// The frame at `pos`: nothing at the clean end of the stream, the two
/// byte regions and the position after them otherwise.  A partial length
/// prefix or a body shorter than the lengths announce is a truncation.
pub open spec fn spec_frame(s: Seq<u8>, pos: int) -> Result<
    Option<(Seq<u8>, Seq<u8>, int)>,
    BcfError,
> {
    if pos == s.len() {
        Ok(None)
    } else if pos < 0 || s.len() - pos < 8 {
        Err(BcfError::TruncatedInput)
    } else {
        let ls = spec_le32(s, pos) as int;
        let li = spec_le32(s, pos + 4) as int;
        if s.len() - (pos + 8) < ls + li {
            Err(BcfError::TruncatedInput)
        } else {
            Ok(
                Some(
                    (
                        s.subrange(pos + 8, pos + 8 + ls),
                        s.subrange(pos + 8 + ls, pos + 8 + ls + li),
                        pos + 8 + ls + li,
                    ),
                ),
            )
        }
    }
}

/// What `next` answers for the frame at `pos`: nothing when the stream is
/// exhausted, the model of the record the frame holds when it parses and
/// resolves, and the decode error otherwise.
pub open spec fn spec_next(s: Seq<u8>, pos: int, h: HeaderModel) -> Result<
    Option<RecordModel>,
    BcfError,
> {
    match spec_frame(s, pos) {
        Err(e) => Err(e),
        Ok(None) => Ok(None),
        Ok(Some((sh, ind, _next))) => match spec_record(sh, ind) {
            Err(e) => Err(e),
            Ok(m) => if spec_record_resolves(m, h) {
                Ok(Some(m))
            } else {
                Err(BcfError::IndexOutOfBounds)
            },
        },
    }
}

/// The record stream: the parsed header, the remaining bytes, and the
/// cursor of the next frame.
pub struct BcfRecords {
    header: std::rc::Rc<Header>,
    data: Vec<u8>,
    pos: usize,
}

impl BcfRecords {
    /// The byte buffer the stream drains.
    pub closed spec fn data_model(self) -> Seq<u8> {
        self.data@
    }

    /// The cursor of the next frame.
    pub closed spec fn cursor(self) -> int {
        self.pos as int
    }

    /// The header's model.
    pub closed spec fn header_model(self) -> HeaderModel {
        self.header@
    }

    /// The cursor stays within the buffer.
    pub closed spec fn wf(self) -> bool {
        self.pos <= self.data@.len()
    }

    /// Whether the stream has reached its clean end.
    pub open spec fn exhausted(self) -> bool {
        self.cursor() == self.data_model().len()
    }

    /// Opens a stream over an already-decompressed BCF byte buffer:
    /// checks magic and version, parses the header, and stands at the
    /// first record frame.
    pub fn new(data: Vec<u8>) -> (r: Result<BcfRecords, BcfError>)
        ensures
            match r {
                Ok(stream) => {
                    &&& spec_open(data@) == Ok::<_, BcfError>(
                        (stream.header_model(), stream.cursor()),
                    )
                    &&& stream.wf()
                    &&& stream.data_model() == data@
                },
                Err(e) => spec_open(data@) == Err::<(HeaderModel, int), _>(e),
            },
    {
        let bs = data.as_slice();
        let version = match bcf_version(bs) {
            Ok(v) => v,
            Err(e) => {
                return Err(e);
            },
        };
        if version.major != BCF_MAJOR_VERSION || version.minor != BCF_MINOR_VERSION {
            return Err(BcfError::VersionMismatch);
        }
        if bs.len() < 9 {
            return Err(BcfError::TruncatedInput);
        }
        let hlen = read_le32(bs, 5) as usize;
        if bs.len() - 9 < hlen {
            return Err(BcfError::TruncatedInput);
        }
        let hbytes = vstd::slice::slice_subrange(bs, 9, 9 + hlen);
        let header = match Header::parse(hbytes) {
            Ok(h) => h,
            Err(e) => {
                return Err(e);
            },
        };
        let pos = 9 + hlen;
        Ok(BcfRecords { header: std::rc::Rc::new(header), data, pos })
    }

    /// The header of this stream.
    pub fn header(&self) -> (r: &Header)
        ensures
            r@ == self.header_model(),
    {
        crate::types::rc_header(&self.header)
    }

    /// Yields the next record, lazily framed: nothing at the clean end of
    /// the stream (the cursor then stays put, so asking again keeps
    /// yielding nothing), and the decode error of the first malformed
    /// frame, after which the stream is drained.
    pub fn next(&mut self) -> (r: Option<Result<RawBcfRecord, BcfError>>)
        requires
            old(self).wf(),
        ensures
            final(self).wf(),
            final(self).data_model() == old(self).data_model(),
            final(self).header_model() == old(self).header_model(),
            match r {
                None => {
                    &&& spec_next(
                        old(self).data_model(),
                        old(self).cursor(),
                        old(self).header_model(),
                    ) == Ok::<Option<RecordModel>, BcfError>(None)
                    &&& final(self).cursor() == old(self).cursor()
                },
                Some(Ok(rec)) => {
                    &&& spec_next(
                        old(self).data_model(),
                        old(self).cursor(),
                        old(self).header_model(),
                    ) == Ok::<_, BcfError>(Some(rec.model()))
                    &&& rec.wf()
                    &&& rec.header_model() == old(self).header_model()
                    &&& spec_frame(old(self).data_model(), old(self).cursor()) matches Ok(
                        Some((_sh, _ind, next)),
                    ) && final(self).cursor() == next
                },
                Some(Err(e)) => {
                    &&& spec_next(
                        old(self).data_model(),
                        old(self).cursor(),
                        old(self).header_model(),
                    ) == Err::<Option<RecordModel>, _>(e)
                    &&& final(self).exhausted()
                },
            },
    {
        let bs_len = self.data.len();
        if self.pos == bs_len {
            return None;
        }
        if bs_len - self.pos < 8 {
            self.pos = bs_len;
            return Some(Err(BcfError::TruncatedInput));
        }
        let ls = read_le32(self.data.as_slice(), self.pos) as usize;
        let li = read_le32(self.data.as_slice(), self.pos + 4) as usize;
        let body = self.pos + 8;
        if bs_len - body < ls || (bs_len - body) - ls < li {
            self.pos = bs_len;
            return Some(Err(BcfError::TruncatedInput));
        }
        let shared = vstd::slice::slice_to_vec(
            vstd::slice::slice_subrange(self.data.as_slice(), body, body + ls),
        );
        let indiv = vstd::slice::slice_to_vec(
            vstd::slice::slice_subrange(self.data.as_slice(), body + ls, body + ls + li),
        );
        match RawBcfRecord::new(shared, indiv, rc_clone_header(&self.header)) {
            Ok(rec) => {
                self.pos = body + ls + li;
                Some(Ok(rec))
            },
            Err(e) => {
                self.pos = bs_len;
                Some(Err(e))
            },
        }
    }
}

/// Once the stream is exhausted, asking for more keeps yielding nothing
/// and never fails: the frame at the end of the buffer is the clean end,
/// and `next` leaves the cursor there.
pub proof fn lemma_exhausted_stays(s: Seq<u8>, pos: int, h: HeaderModel)
    requires
        pos == s.len(),
    ensures
        spec_next(s, pos, h) == Ok::<Option<RecordModel>, BcfError>(None),
{
}

} // verus!
