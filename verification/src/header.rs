//! The RTP header: its fields, its extensions, and its codec.

use crate::error::Error;
use crate::wire::{
    be16, be16_bytes, be32, be32_bytes, blank_header, body_bytes, csrc_at, csrc_bytes, encodable,
    entry_bytes, extension_block, first_byte, fixed_bytes, header_bytes, header_fault, header_size,
    lemma_body_step, lemma_csrc_step, marshal_header, one_byte_fault, parse_extensions,
    parse_header, parse_one_byte, parse_two_byte, prepend, second_byte, two_byte_fault, words_for,
    zeros, ExtensionView, HeaderView, EXTENSION_PROFILE_ONE_BYTE, EXTENSION_PROFILE_TWO_BYTE,
};
use vstd::prelude::*;
use vstd::slice::{slice_subrange, slice_to_vec};

verus! {

/// One header extension: an id and the bytes it carries.
#[derive(Debug, Clone, PartialEq, Eq, Default)]
pub struct Extension {
    pub id: u8,
    pub payload: Vec<u8>,
}

/// An RTP header.
#[derive(Debug, Clone, PartialEq, Eq)]
pub struct Header {
    pub version: u8,
    pub padding: bool,
    pub extension: bool,
    pub marker: bool,
    pub payload_type: u8,
    pub sequence_number: u16,
    pub timestamp: u32,
    pub ssrc: u32,
    pub csrc: Vec<u32>,
    pub extension_profile: u16,
    pub extensions: Vec<Extension>,
}

impl View for Extension {
    type V = ExtensionView;

    open spec fn view(&self) -> ExtensionView {
        ExtensionView { id: self.id, payload: self.payload@ }
    }
}

/// The extensions of a list, each as a mathematical value.
pub open spec fn extension_views(extensions: Seq<Extension>) -> Seq<ExtensionView> {
    Seq::new(extensions.len(), |i: int| extensions[i]@)
}

impl View for Header {
    type V = HeaderView;

    open spec fn view(&self) -> HeaderView {
        HeaderView {
            version: self.version,
            padding: self.padding,
            extension: self.extension,
            marker: self.marker,
            payload_type: self.payload_type,
            sequence_number: self.sequence_number,
            timestamp: self.timestamp,
            ssrc: self.ssrc,
            csrc: self.csrc@,
            extension_profile: self.extension_profile,
            extensions: extension_views(self.extensions@),
        }
    }
}

impl Default for Header {
    /// The header whose every field is zero, false or empty.
    fn default() -> (h: Header)
        ensures
            h@ == blank_header(),
    {
        let h = Header {
            version: 0,
            padding: false,
            extension: false,
            marker: false,
            payload_type: 0,
            sequence_number: 0,
            timestamp: 0,
            ssrc: 0,
            csrc: Vec::new(),
            extension_profile: 0,
            extensions: Vec::new(),
        };
        assert(h@.extensions =~= Seq::empty());
        h
    }
}

/// What `r` holds, with the extensions as mathematical values.
pub open spec fn extensions_result(r: Result<Vec<Extension>, Error>) -> Result<
    Seq<ExtensionView>,
    Error,
> {
    match r {
        Ok(v) => Ok(extension_views(v@)),
        Err(e) => Err(e),
    }
}

fn read_be16(raw: &[u8], at: usize) -> (v: u16)
    requires
        at + 2 <= raw@.len(),
    ensures
        v == be16(raw@[at as int], raw@[at + 1]),
{
    (raw[at] as u16) * 256 + (raw[at + 1] as u16)
}

fn read_be32(raw: &[u8], at: usize) -> (v: u32)
    requires
        at + 4 <= raw@.len(),
    ensures
        v == be32(raw@[at as int], raw@[at + 1], raw@[at + 2], raw@[at + 3]),
{
    (((raw[at] as u32) * 256 + (raw[at + 1] as u32)) * 256 + (raw[at + 2] as u32)) * 256 + (raw[at
        + 3] as u32)
}

/// Reads the extensions of a region in the one-byte form.
fn read_one_byte(region: &[u8]) -> (r: Result<Vec<Extension>, Error>)
    ensures
        extensions_result(r) == parse_one_byte(region@),
{
    let mut out: Vec<Extension> = Vec::new();
    let n: usize = region.len();
    let mut pos: usize = 0;
    assert(region@.skip(0) =~= region@);
    assert(extension_views(out@) + parse_one_byte(region@)->Ok_0 =~= parse_one_byte(region@)->Ok_0);
    while pos < n
        invariant
            pos <= n,
            n == region@.len(),
            parse_one_byte(region@) == prepend(
                extension_views(out@),
                parse_one_byte(region@.skip(pos as int)),
            ),
        decreases n - pos,
    {
        let ghost s = region@.skip(pos as int);
        let ghost before = extension_views(out@);
        let b: u8 = region[pos];
        assert(s[0] == b);
        if b == 0 {
            assert(s.skip(1) =~= region@.skip(pos + 1));
            pos = pos + 1;
        } else if b / 16 == 15 {
            assert(region@.skip(n as int).len() == 0);
            pos = n;
        } else {
            let len: usize = (b % 16) as usize + 1;
            if n - pos < 1 + len {
                return Err(Error::errTooSmall);
            }
            let payload = slice_to_vec(slice_subrange(region, pos + 1, pos + 1 + len));
            assert(payload@ =~= s.subrange(1, 1 + len));
            assert(s.skip(1 + len) =~= region@.skip(pos + 1 + len));
            let e = Extension { id: b / 16, payload };
            out.push(e);
            proof {
                let rest = parse_one_byte(region@.skip(pos + 1 + len));
                assert(extension_views(out@) =~= before + seq![e@]);
                if let Ok(tail) = rest {
                    assert(before + (seq![e@] + tail) =~= (before + seq![e@]) + tail);
                }
            }
            pos = pos + 1 + len;
        }
    }
    assert(extension_views(out@) + Seq::<ExtensionView>::empty() =~= extension_views(out@));
    Ok(out)
}

/// Reads the extensions of a region in the two-byte form.
fn read_two_byte(region: &[u8]) -> (r: Result<Vec<Extension>, Error>)
    ensures
        extensions_result(r) == parse_two_byte(region@),
{
    let mut out: Vec<Extension> = Vec::new();
    let n: usize = region.len();
    let mut pos: usize = 0;
    assert(region@.skip(0) =~= region@);
    assert(extension_views(out@) + parse_two_byte(region@)->Ok_0 =~= parse_two_byte(region@)->Ok_0);
    while pos < n
        invariant
            pos <= n,
            n == region@.len(),
            parse_two_byte(region@) == prepend(
                extension_views(out@),
                parse_two_byte(region@.skip(pos as int)),
            ),
        decreases n - pos,
    {
        let ghost s = region@.skip(pos as int);
        let ghost before = extension_views(out@);
        let id: u8 = region[pos];
        assert(s[0] == id);
        if id == 0 {
            assert(s.skip(1) =~= region@.skip(pos + 1));
            pos = pos + 1;
        } else {
            if n - pos < 2 {
                return Err(Error::errTooSmall);
            }
            let len: usize = region[pos + 1] as usize;
            assert(s[1] == len);
            if n - pos < 2 + len {
                return Err(Error::errTooSmall);
            }
            let payload = slice_to_vec(slice_subrange(region, pos + 2, pos + 2 + len));
            assert(payload@ =~= s.subrange(2, 2 + len));
            assert(s.skip(2 + len) =~= region@.skip(pos + 2 + len));
            let e = Extension { id, payload };
            out.push(e);
            proof {
                let rest = parse_two_byte(region@.skip(pos + 2 + len));
                assert(extension_views(out@) =~= before + seq![e@]);
                if let Ok(tail) = rest {
                    assert(before + (seq![e@] + tail) =~= (before + seq![e@]) + tail);
                }
            }
            pos = pos + 2 + len;
        }
    }
    assert(extension_views(out@) + Seq::<ExtensionView>::empty() =~= extension_views(out@));
    Ok(out)
}

/// Reads the extensions of an extension region under `profile`.
fn read_extensions(profile: u16, region: &[u8]) -> (r: Result<Vec<Extension>, Error>)
    ensures
        extensions_result(r) == parse_extensions(profile, region@),
{
    if profile == EXTENSION_PROFILE_ONE_BYTE {
        read_one_byte(region)
    } else if profile == EXTENSION_PROFILE_TWO_BYTE {
        read_two_byte(region)
    } else {
        let mut out: Vec<Extension> = Vec::new();
        let e = Extension { id: 0, payload: slice_to_vec(region) };
        out.push(e);
        assert(extension_views(out@) =~= seq![e@]);
        Ok(out)
    }
}

/// What `r` holds, with the header as a mathematical value.
pub open spec fn prefix_result(r: Result<(Header, usize), Error>) -> Result<(HeaderView, nat), Error> {
    match r {
        Ok((h, n)) => Ok((h@, n as nat)),
        Err(e) => Err(e),
    }
}

/// What `r` holds, with the header as a mathematical value.
pub open spec fn header_result(r: Result<Header, Error>) -> Result<HeaderView, Error> {
    match r {
        Ok(h) => Ok(h@),
        Err(e) => Err(e),
    }
}

/// The header of a parse, without the number of bytes taken.
pub open spec fn parsed_header(r: Result<(HeaderView, nat), Error>) -> Result<HeaderView, Error> {
    match r {
        Ok((h, n)) => Ok(h),
        Err(e) => Err(e),
    }
}

impl Header {
    /// Reads a header from the front of `raw`. Returns it with the number of
    /// bytes that it takes up in `raw`; what follows them is not looked at.
    pub fn unmarshal_prefix(raw: &[u8]) -> (r: Result<(Header, usize), Error>)
        ensures
            prefix_result(r) == parse_header(raw@),
            r matches Ok((h, n)) ==> n <= raw@.len(),
    {
        let total: usize = raw.len();
        if total < 12 {
            return Err(Error::errHeaderSizeInsufficient);
        }
        let b0: u8 = raw[0];
        let b1: u8 = raw[1];
        let count: usize = (b0 % 16) as usize;
        let fixed_end: usize = 12 + 4 * count;
        if total < fixed_end {
            return Err(Error::errHeaderSizeInsufficient);
        }
        let sequence_number = read_be16(raw, 2);
        let timestamp = read_be32(raw, 4);
        let ssrc = read_be32(raw, 8);
        let mut csrc: Vec<u32> = Vec::new();
        let mut i: usize = 0;
        while i < count
            invariant
                i <= count,
                fixed_end == 12 + 4 * count,
                fixed_end <= raw@.len(),
                csrc@ == csrc_at(raw@, i as nat),
            decreases count - i,
        {
            let id = read_be32(raw, 12 + 4 * i);
            csrc.push(id);
            assert(csrc@ =~= csrc_at(raw@, (i + 1) as nat));
            i = i + 1;
        }
        let extension: bool = b0 / 16 % 2 == 1;
        let mut header = Header {
            version: b0 / 64,
            padding: b0 / 32 % 2 == 1,
            extension,
            marker: b1 / 128 == 1,
            payload_type: b1 % 128,
            sequence_number,
            timestamp,
            ssrc,
            csrc,
            extension_profile: 0,
            extensions: Vec::new(),
        };
        assert(header@.extensions =~= Seq::empty());
        if !extension {
            return Ok((header, fixed_end));
        }
        if total - fixed_end < 4 {
            return Err(Error::errHeaderSizeInsufficientForExtension);
        }
        let profile = read_be16(raw, fixed_end);
        let words: usize = read_be16(raw, fixed_end + 2) as usize;
        if (total - fixed_end - 4) / 4 < words {
            return Err(Error::errHeaderSizeInsufficientForExtension);
        }
        let end: usize = fixed_end + 4 + 4 * words;
        match read_extensions(profile, slice_subrange(raw, fixed_end + 4, end)) {
            Ok(extensions) => {
                header.extension_profile = profile;
                header.extensions = extensions;
                Ok((header, end))
            },
            Err(e) => Err(e),
        }
    }

    /// Reads a header from the front of `raw`; what follows it is not looked at.
    pub fn unmarshal(raw: &[u8]) -> (r: Result<Header, Error>)
        ensures
            header_result(r) == parsed_header(parse_header(raw@)),
    {
        match Header::unmarshal_prefix(raw) {
            Ok((header, _)) => Ok(header),
            Err(e) => Err(e),
        }
    }
}

/// Appends the bytes of `src` to `buf`.
fn append(buf: &mut Vec<u8>, src: &[u8])
    ensures
        final(buf)@ == old(buf)@ + src@,
{
    buf.extend_from_slice(src);
    assert(buf@ =~= old(buf)@ + src@);
}

fn write_be16(buf: &mut Vec<u8>, v: u16)
    ensures
        final(buf)@ == old(buf)@ + be16_bytes(v),
{
    buf.push((v / 256) as u8);
    buf.push((v % 256) as u8);
    assert(buf@ =~= old(buf)@ + be16_bytes(v));
}

fn write_be32(buf: &mut Vec<u8>, v: u32)
    ensures
        final(buf)@ == old(buf)@ + be32_bytes(v),
{
    buf.push((v / 0x100_0000) as u8);
    buf.push((v / 0x1_0000 % 256) as u8);
    buf.push((v / 256 % 256) as u8);
    buf.push((v % 256) as u8);
    assert(buf@ =~= old(buf)@ + be32_bytes(v));
}

impl Header {
    /// Whether the header's values fit the fields that carry their sizes:
    /// at most 15 CSRC ids and, where the extension flag is set, at most
    /// 0xFFFF words of extensions.
    pub open spec fn encodable(&self) -> bool {
        encodable(self@)
    }

    /// Whether the header's values fit the fields that carry their sizes, so
    /// that it can be handed to `marshal_size`, `marshal_to` and `marshal`.
    pub fn is_encodable(&self) -> (b: bool)
        ensures
            b == self.encodable(),
    {
        if self.csrc.len() > 15 {
            return false;
        }
        if !self.extension {
            return true;
        }
        let ghost exts = self@.extensions;
        let profile = self.extension_profile;
        let overhead: usize = if profile == EXTENSION_PROFILE_ONE_BYTE {
            1
        } else if profile == EXTENSION_PROFILE_TWO_BYTE {
            2
        } else {
            0
        };
        let limit: usize = 4 * 0xFFFF;
        let count: usize = self.extensions.len();
        let mut n: usize = 0;
        let mut i: usize = 0;
        assert(exts.take(0).len() == 0);
        while i < count
            invariant
                i <= count,
                count == self.extensions@.len(),
                exts == self@.extensions,
                profile == self.extension_profile,
                overhead == if profile == EXTENSION_PROFILE_ONE_BYTE {
                    1int
                } else if profile == EXTENSION_PROFILE_TWO_BYTE {
                    2int
                } else {
                    0int
                },
                limit == 4 * 0xFFFF,
                n <= limit,
                n == body_bytes(profile, exts.take(i as int)).len(),
                self.extension,
                self.csrc@.len() <= 15,
            decreases count - i,
        {
            proof {
                lemma_body_step(profile, exts, i as int);
            }
            let len: usize = self.extensions[i].payload.len();
            if len > limit - n || overhead > limit - n - len {
                return false;
            }
            n = n + overhead + len;
            i = i + 1;
        }
        assert(exts.take(count as int) =~= exts);
        true
    }

    /// The number of bytes that the extensions take up, before padding.
    fn body_len(&self) -> (n: usize)
        requires
            words_for(body_bytes(self.extension_profile, self@.extensions).len()) <= 0xFFFF,
        ensures
            n == body_bytes(self.extension_profile, self@.extensions).len(),
    {
        let ghost exts = self@.extensions;
        let profile = self.extension_profile;
        let overhead: usize = if profile == EXTENSION_PROFILE_ONE_BYTE {
            1
        } else if profile == EXTENSION_PROFILE_TWO_BYTE {
            2
        } else {
            0
        };
        let count: usize = self.extensions.len();
        let mut n: usize = 0;
        let mut i: usize = 0;
        assert(exts.take(0).len() == 0);
        while i < count
            invariant
                i <= count,
                count == self.extensions@.len(),
                exts == self@.extensions,
                profile == self.extension_profile,
                overhead == if profile == EXTENSION_PROFILE_ONE_BYTE {
                    1int
                } else if profile == EXTENSION_PROFILE_TWO_BYTE {
                    2int
                } else {
                    0int
                },
                words_for(body_bytes(profile, exts).len()) <= 0xFFFF,
                n == body_bytes(profile, exts.take(i as int)).len(),
            decreases count - i,
        {
            proof {
                lemma_body_step(profile, exts, i as int);
            }
            n = n + overhead + self.extensions[i].payload.len();
            i = i + 1;
        }
        assert(exts.take(count as int) =~= exts);
        n
    }

    /// The number of bytes that `marshal_to` writes for this header.
    pub fn marshal_size(&self) -> (n: usize)
        requires
            self.encodable(),
        ensures
            n == header_size(self@),
    {
        let mut n: usize = 12 + 4 * self.csrc.len();
        if self.extension {
            let body = self.body_len();
            n = n + 4 + 4 * ((body + 3) / 4);
        }
        n
    }

    /// The error for which the header is refused before any byte is written.
    fn fault(&self) -> (r: Option<Error>)
        ensures
            r == header_fault(self@),
    {
        if !self.extension {
            return None;
        }
        let ghost exts = self@.extensions;
        let count: usize = self.extensions.len();
        if self.extension_profile == EXTENSION_PROFILE_ONE_BYTE {
            let mut i: usize = 0;
            assert(exts.skip(0) =~= exts);
            while i < count
                invariant
                    i <= count,
                    count == self.extensions@.len(),
                    exts == self@.extensions,
                    self.extension,
                    self.extension_profile == EXTENSION_PROFILE_ONE_BYTE,
                    one_byte_fault(exts) == one_byte_fault(exts.skip(i as int)),
                decreases count - i,
            {
                assert(exts.skip(i as int).skip(1) =~= exts.skip(i + 1));
                let e = &self.extensions[i];
                assert(exts.skip(i as int)[0] == e@);
                if e.id < 1 || e.id > 14 {
                    return Some(Error::errRFC8285OneByteHeaderIDRange);
                }
                if e.payload.len() > 16 {
                    return Some(Error::errRFC8285OneByteHeaderSize);
                }
                i = i + 1;
            }
            None
        } else if self.extension_profile == EXTENSION_PROFILE_TWO_BYTE {
            let mut i: usize = 0;
            assert(exts.skip(0) =~= exts);
            while i < count
                invariant
                    i <= count,
                    count == self.extensions@.len(),
                    exts == self@.extensions,
                    self.extension,
                    self.extension_profile == EXTENSION_PROFILE_TWO_BYTE,
                    two_byte_fault(exts) == two_byte_fault(exts.skip(i as int)),
                decreases count - i,
            {
                assert(exts.skip(i as int).skip(1) =~= exts.skip(i + 1));
                let e = &self.extensions[i];
                assert(exts.skip(i as int)[0] == e@);
                if e.id < 1 {
                    return Some(Error::errRFC8285TwoByteHeaderIDRange);
                }
                if e.payload.len() > 255 {
                    return Some(Error::errRFC8285TwoByteHeaderSize);
                }
                i = i + 1;
            }
            None
        } else {
            if count != 1 || self.extensions[0].id != 0 {
                return Some(Error::errRFC3550HeaderIDRange);
            }
            if self.extensions[0].payload.len() % 4 != 0 {
                return Some(Error::HeaderExtensionPayloadNot32BitWords);
            }
            None
        }
    }

    /// Appends the extensions, one behind the other, without padding.
    fn write_body(&self, buf: &mut Vec<u8>)
        requires
            header_fault(self@) is None,
            self.extension,
        ensures
            final(buf)@ == old(buf)@ + body_bytes(self.extension_profile, self@.extensions),
    {
        let ghost exts = self@.extensions;
        let profile = self.extension_profile;
        let count: usize = self.extensions.len();
        let mut i: usize = 0;
        assert(exts.take(0).len() == 0);
        assert(buf@ =~= old(buf)@ + body_bytes(profile, exts.take(0)));
        assert(exts.skip(0) =~= exts);
        while i < count
            invariant
                i <= count,
                count == self.extensions@.len(),
                exts == self@.extensions,
                profile == self.extension_profile,
                profile == EXTENSION_PROFILE_ONE_BYTE ==> one_byte_fault(exts.skip(i as int))
                    is None,
                profile == EXTENSION_PROFILE_TWO_BYTE ==> two_byte_fault(exts.skip(i as int))
                    is None,
                buf@ == old(buf)@ + body_bytes(profile, exts.take(i as int)),
            decreases count - i,
        {
            let ghost before = buf@;
            let e = &self.extensions[i];
            proof {
                lemma_body_step(profile, exts, i as int);
                assert(exts.skip(i as int).skip(1) =~= exts.skip(i + 1));
                assert(exts.skip(i as int)[0] == e@);
            }
            if profile == EXTENSION_PROFILE_ONE_BYTE {
                let low: usize = (e.payload.len() + 15) % 16;
                buf.push(e.id * 16 + low as u8);
            } else if profile == EXTENSION_PROFILE_TWO_BYTE {
                buf.push(e.id);
                buf.push(e.payload.len() as u8);
            }
            append(buf, e.payload.as_slice());
            assert(buf@ =~= before + entry_bytes(profile, e@));
            assert(buf@ =~= old(buf)@ + body_bytes(profile, exts.take(i + 1)));
            i = i + 1;
        }
        assert(exts.take(count as int) =~= exts);
    }

    /// Appends the twelve bytes of the fixed part.
    fn write_fixed(&self, buf: &mut Vec<u8>)
        requires
            self.csrc@.len() <= 15,
        ensures
            final(buf)@ == old(buf)@ + fixed_bytes(self@),
    {
        let count: usize = self.csrc.len();
        let mut b0: u8 = (self.version % 4) * 64 + count as u8;
        if self.padding {
            b0 = b0 + 32;
        }
        if self.extension {
            b0 = b0 + 16;
        }
        let mut b1: u8 = self.payload_type % 128;
        if self.marker {
            b1 = b1 + 128;
        }
        assert(b0 == first_byte(self@));
        assert(b1 == second_byte(self@));
        buf.push(b0);
        buf.push(b1);
        write_be16(buf, self.sequence_number);
        write_be32(buf, self.timestamp);
        write_be32(buf, self.ssrc);
        assert(buf@ =~= old(buf)@ + fixed_bytes(self@));
    }

    /// Appends the CSRC ids, four bytes each.
    fn write_csrc(&self, buf: &mut Vec<u8>)
        ensures
            final(buf)@ == old(buf)@ + csrc_bytes(self@.csrc),
    {
        let ghost csrc = self.csrc@;
        let count: usize = self.csrc.len();
        let mut i: usize = 0;
        assert(buf@ =~= old(buf)@ + csrc_bytes(csrc.take(0)));
        while i < count
            invariant
                i <= count,
                count == self.csrc@.len(),
                csrc == self.csrc@,
                buf@ == old(buf)@ + csrc_bytes(csrc.take(i as int)),
            decreases count - i,
        {
            let ghost before = buf@;
            write_be32(buf, self.csrc[i]);
            proof {
                lemma_csrc_step(csrc, i as int);
                assert(buf@ =~= old(buf)@ + csrc_bytes(csrc.take(i + 1)));
            }
            i = i + 1;
        }
        assert(csrc.take(count as int) =~= csrc);
    }

    /// Appends the extension block: profile, length in words, the
    /// extensions, and zero bytes up to the next whole word.
    fn write_block(&self, buf: &mut Vec<u8>)
        requires
            header_fault(self@) is None,
            self.extension,
            self.encodable(),
        ensures
            final(buf)@ == old(buf)@ + extension_block(self@),
    {
        let body = self.body_len();
        let words: usize = (body + 3) / 4;
        write_be16(buf, self.extension_profile);
        write_be16(buf, words as u16);
        self.write_body(buf);
        let ghost unpadded = buf@;
        let fill: usize = 4 * words - body;
        let mut k: usize = 0;
        assert(buf@ =~= unpadded + zeros(0));
        while k < fill
            invariant
                k <= fill,
                buf@ == unpadded + zeros(k as nat),
            decreases fill - k,
        {
            buf.push(0);
            assert(buf@ =~= unpadded + zeros((k + 1) as nat));
            k = k + 1;
        }
        assert(buf@ =~= old(buf)@ + extension_block(self@));
    }

    /// Appends the header's bytes to `buf` and returns their number. A
    /// header whose extensions break the rules of its profile is refused
    /// before any byte is written.
    pub fn marshal_to(&self, buf: &mut Vec<u8>) -> (r: Result<usize, Error>)
        requires
            self.encodable(),
        ensures
            match marshal_header(self@) {
                Ok(bytes) => r == Ok::<usize, Error>(bytes.len() as usize) && final(buf)@ == old(
                    buf,
                )@ + bytes,
                Err(e) => r == Err::<usize, Error>(e) && final(buf)@ == old(buf)@,
            },
            r is Ok ==> r->Ok_0 == header_size(self@),
    {
        if let Some(e) = self.fault() {
            return Err(e);
        }
        let written = self.marshal_size();
        self.write_fixed(buf);
        self.write_csrc(buf);
        if self.extension {
            self.write_block(buf);
        }
        assert(buf@ =~= old(buf)@ + header_bytes(self@));
        assert(header_bytes(self@).len() == written);
        Ok(written)
    }

    /// The header's bytes on the wire, or the error for which it is refused.
    pub fn marshal(&self) -> (r: Result<Vec<u8>, Error>)
        requires
            self.encodable(),
        ensures
            match marshal_header(self@) {
                Ok(bytes) => r is Ok && r->Ok_0@ == bytes,
                Err(e) => r == Err::<Vec<u8>, Error>(e),
            },
    {
        let mut buf: Vec<u8> = Vec::new();
        match self.marshal_to(&mut buf) {
            Ok(_) => {
                assert(buf@ =~= marshal_header(self@)->Ok_0);
                Ok(buf)
            },
            Err(e) => Err(e),
        }
    }
}

/// Whether `i` is the place of the first extension with id `id`.
pub open spec fn is_first_with_id(extensions: Seq<ExtensionView>, id: u8, i: int) -> bool {
    &&& 0 <= i < extensions.len()
    &&& extensions[i].id == id
    &&& forall|j: int| 0 <= j < i ==> (#[trigger] extensions[j]).id != id
}

/// Whether some extension has id `id`.
pub open spec fn has_id(extensions: Seq<ExtensionView>, id: u8) -> bool {
    exists|i: int| 0 <= i < extensions.len() && (#[trigger] extensions[i]).id == id
}

/// The error for which an extension with this id and a payload of `len`
/// bytes is refused by a header that already has its extension flag set and
/// this profile.
pub open spec fn entry_fault(profile: u16, id: u8, len: nat) -> Option<Error> {
    if profile == EXTENSION_PROFILE_ONE_BYTE {
        if id < 1 || id > 14 {
            Some(Error::errRFC8285OneByteHeaderIDRange)
        } else if len > 16 {
            Some(Error::errRFC8285OneByteHeaderSize)
        } else {
            None
        }
    } else if profile == EXTENSION_PROFILE_TWO_BYTE {
        if id < 1 {
            Some(Error::errRFC8285TwoByteHeaderIDRange)
        } else if len > 255 {
            Some(Error::errRFC8285TwoByteHeaderSize)
        } else {
            None
        }
    } else if id != 0 {
        Some(Error::errRFC3550HeaderIDRange)
    } else {
        None
    }
}

/// The profile that a header without extensions takes on with its first
/// extension: the one-byte form for a payload of up to 16 bytes, the
/// two-byte form for up to 255 bytes, else the profile it has.
pub open spec fn first_profile(current: u16, len: nat) -> u16 {
    if len <= 16 {
        EXTENSION_PROFILE_ONE_BYTE
    } else if len < 256 {
        EXTENSION_PROFILE_TWO_BYTE
    } else {
        current
    }
}

/// The header that `set_extension` leaves behind where it returns no error.
pub open spec fn with_extension(h: HeaderView, id: u8, payload: Seq<u8>) -> HeaderView {
    let entry = ExtensionView { id, payload };
    if !h.extension {
        HeaderView {
            extension: true,
            extension_profile: first_profile(h.extension_profile, payload.len()),
            extensions: h.extensions.push(entry),
            ..h
        }
    } else if has_id(h.extensions, id) {
        let i = choose|i: int| is_first_with_id(h.extensions, id, i);
        HeaderView { extensions: h.extensions.update(i, entry), ..h }
    } else {
        HeaderView { extensions: h.extensions.push(entry), ..h }
    }
}

impl Header {
    /// The place of the first extension with id `id`, if there is one.
    fn position(&self, id: u8) -> (r: Option<usize>)
        ensures
            match r {
                Some(i) => is_first_with_id(self@.extensions, id, i as int),
                None => !has_id(self@.extensions, id),
            },
    {
        let count: usize = self.extensions.len();
        let mut i: usize = 0;
        while i < count
            invariant
                i <= count,
                count == self.extensions@.len(),
                forall|j: int| 0 <= j < i ==> (#[trigger] self@.extensions[j]).id != id,
            decreases count - i,
        {
            if self.extensions[i].id == id {
                assert(self@.extensions[i as int].id == id);
                return Some(i);
            }
            assert(self@.extensions[i as int].id != id);
            i = i + 1;
        }
        None
    }

    /// Sets the extension with id `id` to `payload`. A header without the
    /// extension flag gets the flag, a profile that fits the payload, and
    /// the extension. A header with the flag refuses an id or a payload
    /// that its profile does not allow; else the first extension with this
    /// id gets the payload, or the extension is added behind the others.
    pub fn set_extension(&mut self, id: u8, payload: Vec<u8>) -> (r: Result<(), Error>)
        ensures
            match r {
                Ok(_) => final(self)@ == with_extension(old(self)@, id, payload@) && (old(
                    self,
                ).extension ==> entry_fault(old(self).extension_profile, id, payload@.len())
                    is None),
                Err(e) => *final(self) == *old(self) && old(self).extension && entry_fault(
                    old(self).extension_profile,
                    id,
                    payload@.len(),
                ) == Some(e),
            },
    {
        let ghost before = self@;
        let len: usize = payload.len();
        if !self.extension {
            self.extension = true;
            if len <= 16 {
                self.extension_profile = EXTENSION_PROFILE_ONE_BYTE;
            } else if len < 256 {
                self.extension_profile = EXTENSION_PROFILE_TWO_BYTE;
            }
            let e = Extension { id, payload };
            self.extensions.push(e);
            assert(self@.extensions =~= before.extensions.push(e@));
            return Ok(());
        }
        if self.extension_profile == EXTENSION_PROFILE_ONE_BYTE {
            if id < 1 || id > 14 {
                return Err(Error::errRFC8285OneByteHeaderIDRange);
            }
            if len > 16 {
                return Err(Error::errRFC8285OneByteHeaderSize);
            }
        } else if self.extension_profile == EXTENSION_PROFILE_TWO_BYTE {
            if id < 1 {
                return Err(Error::errRFC8285TwoByteHeaderIDRange);
            }
            if len > 255 {
                return Err(Error::errRFC8285TwoByteHeaderSize);
            }
        } else if id != 0 {
            return Err(Error::errRFC3550HeaderIDRange);
        }
        let e = Extension { id, payload };
        match self.position(id) {
            Some(i) => {
                proof {
                    let c = choose|c: int| is_first_with_id(before.extensions, id, c);
                    assert(is_first_with_id(before.extensions, id, i as int));
                    assert(has_id(before.extensions, id));
                    assert(c == i) by {
                        if c < i {
                            assert(before.extensions[c].id != id);
                        } else if i < c {
                            assert(before.extensions[i as int].id != id);
                        }
                    }
                }
                self.extensions.set(i, e);
                assert(self@.extensions =~= before.extensions.update(i as int, e@));
            },
            None => {
                self.extensions.push(e);
                assert(self@.extensions =~= before.extensions.push(e@));
            },
        }
        Ok(())
    }

    /// The payload of the first extension with id `id`; `None` where the
    /// extension flag is not set or no extension has this id.
    pub fn get_extension(&self, id: u8) -> (r: Option<&Vec<u8>>)
        ensures
            match r {
                Some(payload) => self.extension && exists|i: int|
                    is_first_with_id(self@.extensions, id, i) && payload@
                        == self@.extensions[i].payload,
                None => !self.extension || !has_id(self@.extensions, id),
            },
    {
        if !self.extension {
            return None;
        }
        match self.position(id) {
            Some(i) => {
                assert(self@.extensions[i as int].payload == self.extensions[i as int].payload@);
                Some(&self.extensions[i].payload)
            },
            None => None,
        }
    }

    /// The ids of the extensions, in order; none where the extension flag is
    /// not set.
    pub fn get_extension_ids(&self) -> (ids: Vec<u8>)
        ensures
            ids@ == if self.extension {
                Seq::new(self@.extensions.len(), |i: int| self@.extensions[i].id)
            } else {
                Seq::empty()
            },
    {
        let mut ids: Vec<u8> = Vec::new();
        if !self.extension {
            return ids;
        }
        let count: usize = self.extensions.len();
        let mut i: usize = 0;
        while i < count
            invariant
                i <= count,
                count == self.extensions@.len(),
                ids@ == Seq::new(i as nat, |k: int| self@.extensions[k].id),
            decreases count - i,
        {
            ids.push(self.extensions[i].id);
            assert(ids@ =~= Seq::new((i + 1) as nat, |k: int| self@.extensions[k].id));
            i = i + 1;
        }
        ids
    }

    /// Removes the first extension with id `id`. Refused where the
    /// extension flag is not set, and where no extension has this id.
    pub fn del_extension(&mut self, id: u8) -> (r: Result<(), Error>)
        ensures
            match r {
                Ok(_) => old(self).extension && exists|i: int|
                    is_first_with_id(old(self)@.extensions, id, i) && final(self)@ == (HeaderView {
                        extensions: old(self)@.extensions.remove(i),
                        ..old(self)@
                    }),
                Err(e) => *final(self) == *old(self) && if !old(self).extension {
                    e == Error::errHeaderExtensionsNotEnabled
                } else {
                    !has_id(old(self)@.extensions, id) && e == Error::errHeaderExtensionNotFound
                },
            },
    {
        if !self.extension {
            return Err(Error::errHeaderExtensionsNotEnabled);
        }
        let ghost before = self@;
        match self.position(id) {
            Some(i) => {
                self.extensions.remove(i);
                assert(self@.extensions =~= before.extensions.remove(i as int));
                Ok(())
            },
            None => Err(Error::errHeaderExtensionNotFound),
        }
    }
}

/// The limits of the two RFC 8285 forms, for a header that has its
/// extension flag set: the one-byte form refuses the ids 0 and 15 (and all
/// above) whatever the payload, and a payload of 17 bytes or more under any
/// id it allows; the two-byte form refuses the id 0, and a payload of 256
/// bytes or more under any other id.
pub proof fn lemma_extension_limits(id: u8, len: nat)
    ensures
        id == 0 || id >= 15 ==> entry_fault(EXTENSION_PROFILE_ONE_BYTE, id, len) == Some(
            Error::errRFC8285OneByteHeaderIDRange,
        ),
        1 <= id <= 14 && len >= 17 ==> entry_fault(EXTENSION_PROFILE_ONE_BYTE, id, len) == Some(
            Error::errRFC8285OneByteHeaderSize,
        ),
        1 <= id <= 14 && len <= 16 ==> entry_fault(EXTENSION_PROFILE_ONE_BYTE, id, len) is None,
        id == 0 ==> entry_fault(EXTENSION_PROFILE_TWO_BYTE, id, len) == Some(
            Error::errRFC8285TwoByteHeaderIDRange,
        ),
        id >= 1 && len >= 256 ==> entry_fault(EXTENSION_PROFILE_TWO_BYTE, id, len) == Some(
            Error::errRFC8285TwoByteHeaderSize,
        ),
        id >= 1 && len <= 255 ==> entry_fault(EXTENSION_PROFILE_TWO_BYTE, id, len) is None,
{
}

/// A header with its extension flag set is refused by `marshal_to` for its
/// first extension that `set_extension` would refuse under its profile, and
/// is not refused where there is none, in the two RFC 8285 forms.
pub proof fn lemma_fault_is_first_entry_fault(h: HeaderView, i: int)
    requires
        h.extension,
        h.extension_profile == EXTENSION_PROFILE_ONE_BYTE || h.extension_profile
            == EXTENSION_PROFILE_TWO_BYTE,
        0 <= i <= h.extensions.len(),
        forall|j: int|
            0 <= j < i ==> entry_fault(
                h.extension_profile,
                (#[trigger] h.extensions[j]).id,
                h.extensions[j].payload.len(),
            ) is None,
        i < h.extensions.len() ==> entry_fault(
            h.extension_profile,
            h.extensions[i].id,
            h.extensions[i].payload.len(),
        ) is Some,
    ensures
        header_fault(h) == if i < h.extensions.len() {
            entry_fault(h.extension_profile, h.extensions[i].id, h.extensions[i].payload.len())
        } else {
            None
        },
    decreases i,
{
    let rest = HeaderView { extensions: h.extensions.skip(1), ..h };
    if i > 0 {
        assert(entry_fault(h.extension_profile, h.extensions[0].id, h.extensions[0].payload.len())
            is None);
        assert forall|j: int| 0 <= j < i - 1 implies entry_fault(
            h.extension_profile,
            (#[trigger] rest.extensions[j]).id,
            rest.extensions[j].payload.len(),
        ) is None by {
            assert(rest.extensions[j] == h.extensions[j + 1]);
        }
        if i < h.extensions.len() {
            assert(rest.extensions[i - 1] == h.extensions[i]);
        }
        lemma_fault_is_first_entry_fault(rest, i - 1);
    }
}

} // verus!
