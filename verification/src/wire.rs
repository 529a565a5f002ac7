//! The byte layout of an RTP header, as functions on sequences of bytes.

use crate::error::Error;
use vstd::prelude::*;

verus! {

/// The profile of the one-byte form of header extensions.
pub const EXTENSION_PROFILE_ONE_BYTE: u16 = 0xBEDE;

/// The profile of the two-byte form of header extensions.
pub const EXTENSION_PROFILE_TWO_BYTE: u16 = 0x1000;

/// The length of the fixed part of a header.
pub const HEADER_LENGTH: usize = 12;

/// One header extension: its id and the bytes it carries.
pub struct ExtensionView {
    pub id: u8,
    pub payload: Seq<u8>,
}

/// A header as a mathematical value.
pub struct HeaderView {
    pub version: u8,
    pub padding: bool,
    pub extension: bool,
    pub marker: bool,
    pub payload_type: u8,
    pub sequence_number: u16,
    pub timestamp: u32,
    pub ssrc: u32,
    pub csrc: Seq<u32>,
    pub extension_profile: u16,
    pub extensions: Seq<ExtensionView>,
}

/// The header whose every field is zero, false or empty.
pub open spec fn blank_header() -> HeaderView {
    HeaderView {
        version: 0,
        padding: false,
        extension: false,
        marker: false,
        payload_type: 0,
        sequence_number: 0,
        timestamp: 0,
        ssrc: 0,
        csrc: Seq::empty(),
        extension_profile: 0,
        extensions: Seq::empty(),
    }
}

/// The 16-bit number whose big-endian bytes are `hi`, `lo`.
pub open spec fn be16(hi: u8, lo: u8) -> u16 {
    (hi * 256 + lo) as u16
}

/// The 32-bit number whose big-endian bytes are `b0` to `b3`.
pub open spec fn be32(b0: u8, b1: u8, b2: u8, b3: u8) -> u32 {
    (((b0 * 256 + b1) * 256 + b2) * 256 + b3) as u32
}

/// The two big-endian bytes of `v`.
pub open spec fn be16_bytes(v: u16) -> Seq<u8> {
    seq![(v / 256) as u8, (v % 256) as u8]
}

/// The four big-endian bytes of `v`.
pub open spec fn be32_bytes(v: u32) -> Seq<u8> {
    seq![
        (v / 0x100_0000) as u8,
        (v / 0x1_0000 % 256) as u8,
        (v / 256 % 256) as u8,
        (v % 256) as u8,
    ]
}

/// `n` bytes of value 0.
pub open spec fn zeros(n: nat) -> Seq<u8> {
    Seq::new(n, |i: int| 0u8)
}

/// 1 where `b` holds, else 0.
pub open spec fn bit(b: bool) -> int {
    if b {
        1
    } else {
        0
    }
}

/// The first byte of a header: version (2 bits), padding, extension, and the
/// number of CSRC ids (4 bits). A version or a count wider than its field
/// keeps its low bits.
pub open spec fn first_byte(h: HeaderView) -> u8 {
    ((h.version % 4) * 64 + bit(h.padding) * 32 + bit(h.extension) * 16 + h.csrc.len() % 16) as u8
}

/// The second byte of a header: marker and payload type (7 bits). A payload
/// type wider than its field keeps its low bits.
pub open spec fn second_byte(h: HeaderView) -> u8 {
    (bit(h.marker) * 128 + h.payload_type % 128) as u8
}

/// The twelve bytes of the fixed part of a header.
pub open spec fn fixed_bytes(h: HeaderView) -> Seq<u8> {
    seq![first_byte(h), second_byte(h)] + be16_bytes(h.sequence_number) + be32_bytes(h.timestamp)
        + be32_bytes(h.ssrc)
}

/// The bytes of a list of CSRC ids: four big-endian bytes each.
pub open spec fn csrc_bytes(csrc: Seq<u32>) -> Seq<u8> {
    Seq::new(4 * csrc.len(), |k: int| be32_bytes(csrc[k / 4])[k % 4])
}

/// The `count` CSRC ids that stand in `raw` behind the fixed part.
pub open spec fn csrc_at(raw: Seq<u8>, count: nat) -> Seq<u32> {
    Seq::new(
        count,
        |i: int| be32(raw[12 + 4 * i], raw[12 + 4 * i + 1], raw[12 + 4 * i + 2], raw[12 + 4 * i + 3]),
    )
}

/// `first` put in front of the extensions of `rest`, where `rest` is no error.
pub open spec fn prepend(first: Seq<ExtensionView>, rest: Result<Seq<ExtensionView>, Error>) -> Result<
    Seq<ExtensionView>,
    Error,
> {
    match rest {
        Ok(tail) => Ok(first + tail),
        Err(e) => Err(e),
    }
}

/// The extensions in a region of the one-byte form. A byte 0 is padding and
/// is passed over. Any other byte holds an id in its high four bits and the
/// payload's length less one in its low four bits; id 15 ends the reading.
/// A payload that runs past the end of the region is an error.
pub open spec fn parse_one_byte(s: Seq<u8>) -> Result<Seq<ExtensionView>, Error>
    decreases s.len(),
{
    if s.len() == 0 {
        Ok(Seq::empty())
    } else if s[0] == 0 {
        parse_one_byte(s.skip(1))
    } else if s[0] / 16 == 15 {
        Ok(Seq::empty())
    } else {
        let n = s[0] % 16 + 1;
        if s.len() < 1 + n {
            Err(Error::errTooSmall)
        } else {
            prepend(
                seq![ExtensionView { id: s[0] / 16, payload: s.subrange(1, 1 + n) }],
                parse_one_byte(s.skip(1 + n)),
            )
        }
    }
}

/// The extensions in a region of the two-byte form. A byte 0 where an id is
/// due is padding and is passed over. Any other id is followed by a byte that
/// holds the payload's length, then by the payload. A length byte or payload
/// that runs past the end of the region is an error.
pub open spec fn parse_two_byte(s: Seq<u8>) -> Result<Seq<ExtensionView>, Error>
    decreases s.len(),
{
    if s.len() == 0 {
        Ok(Seq::empty())
    } else if s[0] == 0 {
        parse_two_byte(s.skip(1))
    } else if s.len() < 2 || s.len() < 2 + s[1] {
        Err(Error::errTooSmall)
    } else {
        prepend(
            seq![ExtensionView { id: s[0], payload: s.subrange(2, 2 + s[1]) }],
            parse_two_byte(s.skip(2 + s[1])),
        )
    }
}

/// The extensions in an extension region under `profile`. Under a profile
/// that is neither the one-byte nor the two-byte form, the whole region is
/// the payload of one extension with id 0.
pub open spec fn parse_extensions(profile: u16, region: Seq<u8>) -> Result<
    Seq<ExtensionView>,
    Error,
> {
    if profile == EXTENSION_PROFILE_ONE_BYTE {
        parse_one_byte(region)
    } else if profile == EXTENSION_PROFILE_TWO_BYTE {
        parse_two_byte(region)
    } else {
        Ok(seq![ExtensionView { id: 0, payload: region }])
    }
}

/// What reading a header from the front of `raw` gives: the header and the
/// number of bytes it takes up, or the error.
pub open spec fn parse_header(raw: Seq<u8>) -> Result<(HeaderView, nat), Error> {
    if raw.len() < 12 {
        Err(Error::errHeaderSizeInsufficient)
    } else {
        let count = (raw[0] % 16) as nat;
        let fixed_end: int = 12 + 4 * (count as int);
        let base = HeaderView {
            version: raw[0] / 64,
            padding: raw[0] / 32 % 2 == 1,
            extension: raw[0] / 16 % 2 == 1,
            marker: raw[1] / 128 == 1,
            payload_type: raw[1] % 128,
            sequence_number: be16(raw[2], raw[3]),
            timestamp: be32(raw[4], raw[5], raw[6], raw[7]),
            ssrc: be32(raw[8], raw[9], raw[10], raw[11]),
            csrc: csrc_at(raw, count),
            extension_profile: 0,
            extensions: Seq::empty(),
        };
        if raw.len() < fixed_end {
            Err(Error::errHeaderSizeInsufficient)
        } else if !base.extension {
            Ok((base, fixed_end as nat))
        } else if raw.len() < fixed_end + 4 {
            Err(Error::errHeaderSizeInsufficientForExtension)
        } else {
            let profile = be16(raw[fixed_end], raw[fixed_end + 1]);
            let words = be16(raw[fixed_end + 2], raw[fixed_end + 3]);
            let end: int = fixed_end + 4 + 4 * words;
            if raw.len() < end {
                Err(Error::errHeaderSizeInsufficientForExtension)
            } else {
                match parse_extensions(profile, raw.subrange(fixed_end + 4, end)) {
                    Ok(extensions) => Ok(
                        (HeaderView { extension_profile: profile, extensions, ..base }, end as nat),
                    ),
                    Err(e) => Err(e),
                }
            }
        }
    }
}

/// The bytes of one extension in the one-byte form: a byte with the id in
/// its high four bits and the payload's length less one in its low four
/// bits, then the payload. The form has no way to write an empty payload:
/// its length less one is cut to four bits like any other, which sets all
/// four.
pub open spec fn one_byte_entry(e: ExtensionView) -> Seq<u8> {
    seq![((e.id % 16) * 16 + (e.payload.len() + 15) % 16) as u8] + e.payload
}

/// The bytes of one extension in the two-byte form: the id, the payload's
/// length, then the payload.
pub open spec fn two_byte_entry(e: ExtensionView) -> Seq<u8> {
    seq![e.id, (e.payload.len() % 256) as u8] + e.payload
}

/// The bytes of one extension under `profile`, before padding.
pub open spec fn entry_bytes(profile: u16, e: ExtensionView) -> Seq<u8> {
    if profile == EXTENSION_PROFILE_ONE_BYTE {
        one_byte_entry(e)
    } else if profile == EXTENSION_PROFILE_TWO_BYTE {
        two_byte_entry(e)
    } else {
        e.payload
    }
}

/// The bytes of a list of extensions under `profile`, one behind the other,
/// before padding.
pub open spec fn body_bytes(profile: u16, extensions: Seq<ExtensionView>) -> Seq<u8>
    decreases extensions.len(),
{
    if extensions.len() == 0 {
        Seq::empty()
    } else {
        entry_bytes(profile, extensions[0]) + body_bytes(profile, extensions.skip(1))
    }
}

/// The number of 32-bit words that hold `len` bytes.
pub open spec fn words_for(len: nat) -> nat {
    ((len + 3) / 4) as nat
}

/// The extension block of a header: profile, length in words, the
/// extensions, and zero bytes up to the next whole word.
pub open spec fn extension_block(h: HeaderView) -> Seq<u8> {
    let body = body_bytes(h.extension_profile, h.extensions);
    let words = words_for(body.len());
    be16_bytes(h.extension_profile) + be16_bytes((words % 0x1_0000) as u16) + body + zeros(
        (4 * words - body.len()) as nat,
    )
}

/// The bytes of a header on the wire.
pub open spec fn header_bytes(h: HeaderView) -> Seq<u8> {
    fixed_bytes(h) + csrc_bytes(h.csrc) + if h.extension {
        extension_block(h)
    } else {
        Seq::empty()
    }
}

/// The size of a header on the wire: the fixed part, four bytes for each
/// CSRC id and, where the extension flag is set, four bytes and the
/// extensions in whole words.
pub open spec fn header_size(h: HeaderView) -> nat {
    12 + 4 * h.csrc.len() + if h.extension {
        4 + 4 * words_for(body_bytes(h.extension_profile, h.extensions).len())
    } else {
        0
    }
}

/// Whether the header's values fit the fields that carry their sizes: at
/// most 15 CSRC ids, and an extension block of at most 0xFFFF words.
pub open spec fn encodable(h: HeaderView) -> bool {
    &&& h.csrc.len() <= 15
    &&& h.extension ==> words_for(body_bytes(h.extension_profile, h.extensions).len()) <= 0xFFFF
}

/// The first fault among the extensions of a header in the one-byte form:
/// an id outside 1 to 14, or a payload of more than 16 bytes.
pub open spec fn one_byte_fault(extensions: Seq<ExtensionView>) -> Option<Error>
    decreases extensions.len(),
{
    if extensions.len() == 0 {
        None
    } else if extensions[0].id < 1 || extensions[0].id > 14 {
        Some(Error::errRFC8285OneByteHeaderIDRange)
    } else if extensions[0].payload.len() > 16 {
        Some(Error::errRFC8285OneByteHeaderSize)
    } else {
        one_byte_fault(extensions.skip(1))
    }
}

/// The first fault among the extensions of a header in the two-byte form:
/// an id 0, or a payload of more than 255 bytes.
pub open spec fn two_byte_fault(extensions: Seq<ExtensionView>) -> Option<Error>
    decreases extensions.len(),
{
    if extensions.len() == 0 {
        None
    } else if extensions[0].id < 1 {
        Some(Error::errRFC8285TwoByteHeaderIDRange)
    } else if extensions[0].payload.len() > 255 {
        Some(Error::errRFC8285TwoByteHeaderSize)
    } else {
        two_byte_fault(extensions.skip(1))
    }
}

/// The fault of the extensions of a header with a generic profile: there
/// must be exactly one, with id 0 and a payload of whole 32-bit words.
pub open spec fn generic_fault(extensions: Seq<ExtensionView>) -> Option<Error> {
    if extensions.len() != 1 || extensions[0].id != 0 {
        Some(Error::errRFC3550HeaderIDRange)
    } else if extensions[0].payload.len() % 4 != 0 {
        Some(Error::HeaderExtensionPayloadNot32BitWords)
    } else {
        None
    }
}

/// The error for which a header is refused before any byte is written, if
/// there is one. A header whose extension flag is not set has none.
pub open spec fn header_fault(h: HeaderView) -> Option<Error> {
    if !h.extension {
        None
    } else if h.extension_profile == EXTENSION_PROFILE_ONE_BYTE {
        one_byte_fault(h.extensions)
    } else if h.extension_profile == EXTENSION_PROFILE_TWO_BYTE {
        two_byte_fault(h.extensions)
    } else {
        generic_fault(h.extensions)
    }
}

/// What marshalling a header gives: its bytes, or the error for which it is
/// refused.
pub open spec fn marshal_header(h: HeaderView) -> Result<Seq<u8>, Error> {
    match header_fault(h) {
        Some(e) => Err(e),
        None => Ok(header_bytes(h)),
    }
}

/// The bytes of two lists of extensions, one behind the other, are the bytes
/// of the first list followed by those of the second.
pub proof fn lemma_body_concat(profile: u16, a: Seq<ExtensionView>, b: Seq<ExtensionView>)
    ensures
        body_bytes(profile, a + b) == body_bytes(profile, a) + body_bytes(profile, b),
    decreases a.len(),
{
    if a.len() == 0 {
        assert(a + b =~= b);
        assert(body_bytes(profile, a) + body_bytes(profile, b) =~= body_bytes(profile, b));
    } else {
        assert((a + b).skip(1) =~= a.skip(1) + b);
        lemma_body_concat(profile, a.skip(1), b);
        assert(entry_bytes(profile, a[0]) + (body_bytes(profile, a.skip(1)) + body_bytes(profile, b))
            =~= (entry_bytes(profile, a[0]) + body_bytes(profile, a.skip(1))) + body_bytes(
            profile,
            b,
        ));
    }
}

/// The bytes of the first `i + 1` extensions are those of the first `i`
/// followed by those of the next one; and no more than those of all.
pub proof fn lemma_body_step(profile: u16, s: Seq<ExtensionView>, i: int)
    requires
        0 <= i < s.len(),
    ensures
        body_bytes(profile, s.take(i + 1)) == body_bytes(profile, s.take(i)) + entry_bytes(
            profile,
            s[i],
        ),
        body_bytes(profile, s.take(i + 1)).len() <= body_bytes(profile, s).len(),
{
    let one = seq![s[i]];
    assert(s.take(i + 1) =~= s.take(i) + one);
    lemma_body_concat(profile, s.take(i), one);
    assert(one.skip(1).len() == 0);
    assert(body_bytes(profile, one.skip(1)) =~= Seq::<u8>::empty());
    assert(one[0] == s[i]);
    assert(body_bytes(profile, one) =~= entry_bytes(profile, s[i]));
    assert(s =~= s.take(i + 1) + s.skip(i + 1));
    lemma_body_concat(profile, s.take(i + 1), s.skip(i + 1));
}

/// The bytes of the first `i + 1` CSRC ids are those of the first `i`
/// followed by the four bytes of the next one.
pub proof fn lemma_csrc_step(csrc: Seq<u32>, i: int)
    requires
        0 <= i < csrc.len(),
    ensures
        csrc_bytes(csrc.take(i + 1)) == csrc_bytes(csrc.take(i)) + be32_bytes(csrc[i]),
{
    let a = csrc_bytes(csrc.take(i + 1));
    let b = csrc_bytes(csrc.take(i)) + be32_bytes(csrc[i]);
    assert(a.len() == b.len());
    assert forall|k: int| 0 <= k < a.len() implies a[k] == b[k] by {
        if k < 4 * i {
            assert(csrc.take(i + 1)[k / 4] == csrc.take(i)[k / 4]);
        } else {
            assert(k / 4 == i);
            assert(k % 4 == k - 4 * i);
        }
    }
    assert(a =~= b);
}

} // verus!
