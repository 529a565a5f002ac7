//! Reading back what was written: the laws that tie the two directions of
//! the header codec together.

use crate::error::Error;
use crate::wire::{
    be16, be16_bytes, be32, be32_bytes, body_bytes, csrc_at, csrc_bytes, encodable, entry_bytes,
    extension_block, first_byte, fixed_bytes, header_bytes, header_fault, header_size,
    marshal_header, one_byte_fault, parse_extensions, parse_header, parse_one_byte, parse_two_byte,
    second_byte, two_byte_fault, words_for, zeros, ExtensionView, HeaderView,
    EXTENSION_PROFILE_ONE_BYTE, EXTENSION_PROFILE_TWO_BYTE,
};
use vstd::prelude::*;

verus! {

/// Whether a header is one that reading can give: it can be written, its
/// version and payload type fit their fields, without the extension flag it
/// has no profile and no extensions, and in the one-byte form no payload is
/// empty (the form has no way to write a length of zero).
pub open spec fn canonical(h: HeaderView) -> bool {
    &&& encodable(h)
    &&& header_fault(h) is None
    &&& h.version < 4
    &&& h.payload_type < 128
    &&& !h.extension ==> h.extension_profile == 0 && h.extensions.len() == 0
    &&& h.extension && h.extension_profile == EXTENSION_PROFILE_ONE_BYTE ==> forall|i: int|
        0 <= i < h.extensions.len() ==> (#[trigger] h.extensions[i]).payload.len() >= 1
}

/// The bytes of a header are as many as its size says.
pub proof fn lemma_header_bytes_len(h: HeaderView)
    ensures
        header_bytes(h).len() == header_size(h),
        marshal_header(h) matches Ok(bytes) ==> bytes.len() == header_size(h),
{
}

/// A region of zero bytes in the one-byte form holds no extension.
pub proof fn lemma_one_byte_padding(n: nat)
    ensures
        parse_one_byte(zeros(n)) == Ok::<Seq<ExtensionView>, Error>(Seq::empty()),
    decreases n,
{
    if n > 0 {
        assert(zeros(n).skip(1) =~= zeros((n - 1) as nat));
        lemma_one_byte_padding((n - 1) as nat);
    }
}

/// A region of zero bytes in the two-byte form holds no extension.
pub proof fn lemma_two_byte_padding(n: nat)
    ensures
        parse_two_byte(zeros(n)) == Ok::<Seq<ExtensionView>, Error>(Seq::empty()),
    decreases n,
{
    if n > 0 {
        assert(zeros(n).skip(1) =~= zeros((n - 1) as nat));
        lemma_two_byte_padding((n - 1) as nat);
    }
}

/// In the one-byte form, reading the bytes of a list of extensions that
/// breaks no rule and has no empty payload, followed by any number of zero
/// bytes, gives the list again.
pub proof fn lemma_one_byte_roundtrip(extensions: Seq<ExtensionView>, fill: nat)
    requires
        one_byte_fault(extensions) is None,
        forall|i: int| 0 <= i < extensions.len() ==> (#[trigger] extensions[i]).payload.len() >= 1,
    ensures
        parse_one_byte(body_bytes(EXTENSION_PROFILE_ONE_BYTE, extensions) + zeros(fill)) == Ok::<
            Seq<ExtensionView>,
            Error,
        >(extensions),
    decreases extensions.len(),
{
    let profile = EXTENSION_PROFILE_ONE_BYTE;
    let s = body_bytes(profile, extensions) + zeros(fill);
    if extensions.len() == 0 {
        assert(s =~= zeros(fill));
        lemma_one_byte_padding(fill);
        assert(extensions =~= Seq::empty());
    } else {
        let e = extensions[0];
        let rest = extensions.skip(1);
        let len = e.payload.len();
        assert(1 <= e.id <= 14 && 1 <= len <= 16);
        assert forall|i: int| 0 <= i < rest.len() implies (#[trigger] rest[i]).payload.len()
            >= 1 by {
            assert(rest[i] == extensions[i + 1]);
        }
        lemma_one_byte_roundtrip(rest, fill);
        let entry = entry_bytes(profile, e);
        assert(s =~= entry + (body_bytes(profile, rest) + zeros(fill)));
        assert(s[0] == entry[0]);
        assert(s[0] == e.id * 16 + (len - 1));
        assert(s[0] / 16 == e.id);
        assert(s[0] % 16 + 1 == len);
        assert(s.subrange(1, 1 + len as int) =~= e.payload);
        assert(s.skip(1 + len as int) =~= body_bytes(profile, rest) + zeros(fill));
        assert(seq![e] + rest =~= extensions);
    }
}

/// In the two-byte form, reading the bytes of a list of extensions that
/// breaks no rule, followed by any number of zero bytes, gives the list
/// again.
pub proof fn lemma_two_byte_roundtrip(extensions: Seq<ExtensionView>, fill: nat)
    requires
        two_byte_fault(extensions) is None,
    ensures
        parse_two_byte(body_bytes(EXTENSION_PROFILE_TWO_BYTE, extensions) + zeros(fill)) == Ok::<
            Seq<ExtensionView>,
            Error,
        >(extensions),
    decreases extensions.len(),
{
    let profile = EXTENSION_PROFILE_TWO_BYTE;
    let s = body_bytes(profile, extensions) + zeros(fill);
    if extensions.len() == 0 {
        assert(s =~= zeros(fill));
        lemma_two_byte_padding(fill);
        assert(extensions =~= Seq::empty());
    } else {
        let e = extensions[0];
        let rest = extensions.skip(1);
        let len = e.payload.len();
        assert(1 <= e.id && len <= 255);
        lemma_two_byte_roundtrip(rest, fill);
        let entry = entry_bytes(profile, e);
        assert(s =~= entry + (body_bytes(profile, rest) + zeros(fill)));
        assert(s[0] == entry[0]);
        assert(s[1] == entry[1]);
        assert(s[0] == e.id);
        assert(s[1] == len);
        assert(s.subrange(2, 2 + len as int) =~= e.payload);
        assert(s.skip(2 + len as int) =~= body_bytes(profile, rest) + zeros(fill));
        assert(seq![e] + rest =~= extensions);
    }
}

/// Reading the padded bytes of the extensions of a canonical header under
/// its profile gives the extensions again.
pub proof fn lemma_extensions_roundtrip(h: HeaderView)
    requires
        canonical(h),
        h.extension,
    ensures
        ({
            let body = body_bytes(h.extension_profile, h.extensions);
            let fill = (4 * words_for(body.len()) - body.len()) as nat;
            parse_extensions(h.extension_profile, body + zeros(fill)) == Ok::<
                Seq<ExtensionView>,
                Error,
            >(h.extensions)
        }),
{
    let body = body_bytes(h.extension_profile, h.extensions);
    let fill = (4 * words_for(body.len()) - body.len()) as nat;
    if h.extension_profile == EXTENSION_PROFILE_ONE_BYTE {
        lemma_one_byte_roundtrip(h.extensions, fill);
    } else if h.extension_profile == EXTENSION_PROFILE_TWO_BYTE {
        lemma_two_byte_roundtrip(h.extensions, fill);
    } else {
        let e = h.extensions[0];
        assert(h.extensions.skip(1).len() == 0);
        assert(body_bytes(h.extension_profile, h.extensions.skip(1)) =~= Seq::<u8>::empty());
        assert(body =~= e.payload);
        assert(fill == 0);
        assert(body + zeros(fill) =~= e.payload);
        assert(h.extensions =~= seq![ExtensionView { id: 0, payload: e.payload }]);
    }
}

/// The two big-endian bytes of a number give the number again.
pub proof fn lemma_be16_roundtrip(v: u16)
    ensures
        be16_bytes(v).len() == 2,
        be16(be16_bytes(v)[0], be16_bytes(v)[1]) == v,
{
}

/// The four big-endian bytes of a number give the number again.
pub proof fn lemma_be32_roundtrip(v: u32)
    ensures
        be32_bytes(v).len() == 4,
        be32(be32_bytes(v)[0], be32_bytes(v)[1], be32_bytes(v)[2], be32_bytes(v)[3]) == v,
{
}

/// The CSRC ids read behind the fixed part of a written header are the
/// header's own.
proof fn lemma_csrc_roundtrip(h: HeaderView, raw: Seq<u8>)
    requires
        raw.len() >= 12 + 4 * h.csrc.len(),
        raw.subrange(0, 12 + 4 * (h.csrc.len() as int)) == fixed_bytes(h) + csrc_bytes(h.csrc),
    ensures
        csrc_at(raw, h.csrc.len()) == h.csrc,
{
    let front = fixed_bytes(h) + csrc_bytes(h.csrc);
    let got = csrc_at(raw, h.csrc.len());
    assert forall|i: int| 0 <= i < h.csrc.len() implies got[i] == h.csrc[i] by {
        lemma_be32_roundtrip(h.csrc[i]);
        let cb = csrc_bytes(h.csrc);
        assert(raw[12 + 4 * i] == front[12 + 4 * i]);
        assert(raw[12 + 4 * i + 1] == front[12 + 4 * i + 1]);
        assert(raw[12 + 4 * i + 2] == front[12 + 4 * i + 2]);
        assert(raw[12 + 4 * i + 3] == front[12 + 4 * i + 3]);
        assert(front[12 + 4 * i] == cb[4 * i]);
        assert(front[12 + 4 * i + 1] == cb[4 * i + 1]);
        assert(front[12 + 4 * i + 2] == cb[4 * i + 2]);
        assert(front[12 + 4 * i + 3] == cb[4 * i + 3]);
        assert((4 * i) / 4 == i && (4 * i) % 4 == 0);
        assert((4 * i + 1) / 4 == i && (4 * i + 1) % 4 == 1);
        assert((4 * i + 2) / 4 == i && (4 * i + 2) % 4 == 2);
        assert((4 * i + 3) / 4 == i && (4 * i + 3) % 4 == 3);
    }
    assert(got =~= h.csrc);
}

/// The fields read from the fixed part of a written header are the
/// header's own.
proof fn lemma_fixed_roundtrip(h: HeaderView, raw: Seq<u8>)
    requires
        h.version < 4,
        h.payload_type < 128,
        h.csrc.len() <= 15,
        raw.len() >= 12,
        raw.subrange(0, 12) == fixed_bytes(h),
    ensures
        raw[0] / 64 == h.version,
        (raw[0] / 32 % 2 == 1) == h.padding,
        (raw[0] / 16 % 2 == 1) == h.extension,
        raw[0] % 16 == h.csrc.len(),
        (raw[1] / 128 == 1) == h.marker,
        raw[1] % 128 == h.payload_type,
        be16(raw[2], raw[3]) == h.sequence_number,
        be32(raw[4], raw[5], raw[6], raw[7]) == h.timestamp,
        be32(raw[8], raw[9], raw[10], raw[11]) == h.ssrc,
{
    let f = fixed_bytes(h);
    assert forall|k: int| 0 <= k < 12 implies raw[k] == f[k] by {
        assert(raw.subrange(0, 12)[k] == raw[k]);
    }
    assert(f[0] == first_byte(h));
    assert(f[1] == second_byte(h));
    lemma_be16_roundtrip(h.sequence_number);
    lemma_be32_roundtrip(h.timestamp);
    lemma_be32_roundtrip(h.ssrc);
    assert(f[2] == be16_bytes(h.sequence_number)[0]);
    assert(f[3] == be16_bytes(h.sequence_number)[1]);
    assert(f[4] == be32_bytes(h.timestamp)[0]);
    assert(f[5] == be32_bytes(h.timestamp)[1]);
    assert(f[6] == be32_bytes(h.timestamp)[2]);
    assert(f[7] == be32_bytes(h.timestamp)[3]);
    assert(f[8] == be32_bytes(h.ssrc)[0]);
    assert(f[9] == be32_bytes(h.ssrc)[1]);
    assert(f[10] == be32_bytes(h.ssrc)[2]);
    assert(f[11] == be32_bytes(h.ssrc)[3]);
}

/// Reading a header from its own bytes, whatever follows them, gives the
/// header again and takes exactly the bytes that were written, where the
/// header is canonical.
pub proof fn lemma_header_roundtrip(h: HeaderView, tail: Seq<u8>)
    requires
        canonical(h),
    ensures
        marshal_header(h) == Ok::<Seq<u8>, Error>(header_bytes(h)),
        parse_header(header_bytes(h) + tail) == Ok::<(HeaderView, nat), Error>(
            (h, header_size(h)),
        ),
{
    let raw = header_bytes(h) + tail;
    let fixed_end: int = 12 + 4 * (h.csrc.len() as int);
    assert(raw.subrange(0, 12) =~= fixed_bytes(h));
    assert(raw.subrange(0, fixed_end) =~= fixed_bytes(h) + csrc_bytes(h.csrc));
    lemma_fixed_roundtrip(h, raw);
    lemma_csrc_roundtrip(h, raw);
    if h.extension {
        let body = body_bytes(h.extension_profile, h.extensions);
        let words = words_for(body.len());
        let fill = (4 * words - body.len()) as nat;
        let block = extension_block(h);
        lemma_be16_roundtrip(h.extension_profile);
        lemma_be16_roundtrip(words as u16);
        assert(block.len() == 4 + 4 * words);
        assert forall|k: int| 0 <= k < block.len() implies raw[fixed_end + k] == block[k] by {}
        assert(block[0] == be16_bytes(h.extension_profile)[0]);
        assert(block[1] == be16_bytes(h.extension_profile)[1]);
        assert(block[2] == be16_bytes(words as u16)[0]);
        assert(block[3] == be16_bytes(words as u16)[1]);
        assert(be16(raw[fixed_end], raw[fixed_end + 1]) == h.extension_profile);
        assert(be16(raw[fixed_end + 2], raw[fixed_end + 3]) == words);
        let end: int = fixed_end + 4 + 4 * words;
        assert(raw.subrange(fixed_end + 4, end) =~= body + zeros(fill));
        lemma_extensions_roundtrip(h);
    } else {
        assert(h.extensions =~= Seq::empty());
    }
}

} // verus!
