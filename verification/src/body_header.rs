use crate::error::ParseError;
use crate::primitive::{
    lemma_parse_lit_ok, lemma_seq_cat_subrange, lemma_subrange_cat, parse_matches, read_lit,
    read_u32, read_u64, spec_parse_lit, spec_parse_u32, spec_parse_u64, write_u32, write_u64,
    write_u8, zero_bytes,
};
use vstd::bytes::{
    lemma_auto_spec_u32_to_from_le_bytes, lemma_auto_spec_u64_to_from_le_bytes,
    spec_u32_from_le_bytes, spec_u32_to_le_bytes, spec_u64_from_le_bytes, spec_u64_to_le_bytes,
};
use vstd::prelude::*;

verus! {

/// The two defined versions of the body framing record.
#[derive(Debug, Clone, Copy, PartialEq, Eq, Structural)]
pub enum BodyHeaderVersion {
    V1,
    V2,
}

impl View for BodyHeaderVersion {
    type V = BodyHeaderVersion;

    open spec fn view(&self) -> BodyHeaderVersion {
        *self
    }
}

/// The 32-bit word that encodes each version on the wire.
pub open spec fn spec_version_word(v: BodyHeaderVersion) -> u32 {
    match v {
        BodyHeaderVersion::V1 => 0x00000000,
        BodyHeaderVersion::V2 => 0x22222222,
    }
}

/// The body framing magic, as it stands on disk.
pub open spec fn magic_bytes() -> Seq<u8> {
    seq![0xC1u8, 0x83u8, 0x2Au8, 0x9Eu8]
}

/// The chunk size cap the game declares in every framing record.
pub const MAX_CHUNK_SIZE: u32 = 131072;

/// The compression algorithm word observed in every framing record.
pub const COMPRESSION_ALGORITHM: u32 = 0x03000000;

/// The 49-byte record that frames the compressed body: magic, version,
/// declared chunk cap, a zero separator, an algorithm word, and the
/// compressed and uncompressed payload sizes, each written twice.
///
/// The chunk cap and algorithm word are carried through verbatim; only one
/// copy of each size is stored, since a parse succeeds only when the
/// duplicates agree and the writer always emits them equal.
#[derive(Debug, Clone, Copy, PartialEq, Eq, Structural)]
pub struct BodyHeader {
    pub header_version: BodyHeaderVersion,
    pub max_chunk_size: u32,
    pub compression_algorithm: u32,
    pub compressed_size: u64,
    pub uncompressed_size: u64,
}

impl View for BodyHeader {
    type V = BodyHeader;

    open spec fn view(&self) -> BodyHeader {
        *self
    }
}

impl BodyHeader {
    /// Builds a framing record with the declared chunk cap.
    pub fn new(
        header_version: BodyHeaderVersion,
        compression_algorithm: u32,
        compressed_size: u64,
        uncompressed_size: u64,
    ) -> (r: BodyHeader)
        ensures
            r == (BodyHeader {
                header_version,
                max_chunk_size: MAX_CHUNK_SIZE,
                compression_algorithm,
                compressed_size,
                uncompressed_size,
            }),
    {
        BodyHeader {
            header_version,
            max_chunk_size: MAX_CHUNK_SIZE,
            compression_algorithm,
            compressed_size,
            uncompressed_size,
        }
    }
}

/// The wire encoding of a framing record; 49 bytes, sizes duplicated.
pub open spec fn spec_ser_body_header(h: BodyHeader) -> Seq<u8> {
    magic_bytes() + spec_u32_to_le_bytes(spec_version_word(h.header_version))
        + spec_u32_to_le_bytes(h.max_chunk_size) + zero_bytes(1) + spec_u32_to_le_bytes(
        h.compression_algorithm,
    ) + spec_u64_to_le_bytes(h.compressed_size) + spec_u64_to_le_bytes(h.uncompressed_size)
        + spec_u64_to_le_bytes(h.compressed_size) + spec_u64_to_le_bytes(h.uncompressed_size)
}

/// What parsing the version word at `pos` yields.
pub open spec fn spec_parse_body_header_version(s: Seq<u8>, pos: int) -> Result<
    (BodyHeaderVersion, int),
    ParseError,
> {
    match spec_parse_u32(s, pos) {
        Err(e) => Err(e),
        Ok((w, n)) => if w == 0x00000000 {
            Ok((BodyHeaderVersion::V1, n))
        } else if w == 0x22222222 {
            Ok((BodyHeaderVersion::V2, n))
        } else {
            Err(ParseError::UnknownHeaderVersion { offset: pos as usize, value: w })
        },
    }
}

/// What parsing a framing record at `pos` yields: both duplicated sizes
/// must agree with their first occurrence.
pub open spec fn spec_parse_body_header(s: Seq<u8>, pos: int) -> Result<
    (BodyHeader, int),
    ParseError,
> {
    match spec_parse_lit(s, pos, magic_bytes()) {
        Err(e) => Err(e),
        Ok((_, p1)) => match spec_parse_body_header_version(s, p1) {
            Err(e) => Err(e),
            Ok((version, p2)) => match spec_parse_u32(s, p2) {
                Err(e) => Err(e),
                Ok((max_chunk, p3)) => match spec_parse_lit(s, p3, zero_bytes(1)) {
                    Err(e) => Err(e),
                    Ok((_, p4)) => match spec_parse_u32(s, p4) {
                        Err(e) => Err(e),
                        Ok((algo, p5)) => match spec_parse_u64(s, p5) {
                            Err(e) => Err(e),
                            Ok((c1, p6)) => match spec_parse_u64(s, p6) {
                                Err(e) => Err(e),
                                Ok((u1, p7)) => match spec_parse_u64(s, p7) {
                                    Err(e) => Err(e),
                                    Ok((c2, p8)) => match spec_parse_u64(s, p8) {
                                        Err(e) => Err(e),
                                        Ok((u2, p9)) => if c1 != c2 {
                                            Err(
                                                ParseError::CorruptFraming {
                                                    offset: p7 as usize,
                                                    expected: c1,
                                                    actual: c2,
                                                },
                                            )
                                        } else if u1 != u2 {
                                            Err(
                                                ParseError::CorruptFraming {
                                                    offset: p8 as usize,
                                                    expected: u1,
                                                    actual: u2,
                                                },
                                            )
                                        } else {
                                            Ok(
                                                (
                                                    BodyHeader {
                                                        header_version: version,
                                                        max_chunk_size: max_chunk,
                                                        compression_algorithm: algo,
                                                        compressed_size: c1,
                                                        uncompressed_size: u1,
                                                    },
                                                    p9,
                                                ),
                                            )
                                        },
                                    },
                                },
                            },
                        },
                    },
                },
            },
        },
    }
}

/// A successfully parsed framing record spans exactly 49 bytes and
/// re-serializes to them.
pub proof fn lemma_parse_body_header_ok(s: Seq<u8>, pos: int)
    requires
        0 <= pos <= s.len(),
        spec_parse_body_header(s, pos) is Ok,
    ensures
        ({
            let (h, n) = spec_parse_body_header(s, pos)->Ok_0;
            &&& n == pos + 49
            &&& n <= s.len()
            &&& spec_ser_body_header(h) == s.subrange(pos, n)
        }),
{
    let (h, n) = spec_parse_body_header(s, pos)->Ok_0;
    lemma_auto_spec_u32_to_from_le_bytes();
    lemma_auto_spec_u64_to_from_le_bytes();
    lemma_parse_lit_ok(s, pos, magic_bytes());
    lemma_parse_lit_ok(s, pos + 12, zero_bytes(1));
    let w = spec_u32_from_le_bytes(s.subrange(pos + 4, pos + 8));
    assert(spec_u32_to_le_bytes(spec_version_word(h.header_version)) == s.subrange(pos + 4, pos + 8));
    assert(spec_ser_body_header(h) =~= s.subrange(pos, n)) by {
        lemma_subrange_cat(s, pos, pos + 4, pos + 8);
        lemma_subrange_cat(s, pos, pos + 8, pos + 12);
        lemma_subrange_cat(s, pos, pos + 12, pos + 13);
        lemma_subrange_cat(s, pos, pos + 13, pos + 17);
        lemma_subrange_cat(s, pos, pos + 17, pos + 25);
        lemma_subrange_cat(s, pos, pos + 25, pos + 33);
        lemma_subrange_cat(s, pos, pos + 33, pos + 41);
        lemma_subrange_cat(s, pos, pos + 41, pos + 49);
    }
}

/// For every parsed framing record, the duplicated size fields in the
/// input agree: the two compressed sizes match, and the two uncompressed
/// sizes match.
pub proof fn lemma_framing_duplicates_equal(s: Seq<u8>, pos: int)
    requires
        0 <= pos <= s.len(),
        spec_parse_body_header(s, pos) is Ok,
    ensures
        pos + 49 <= s.len(),
        spec_u64_from_le_bytes(s.subrange(pos + 17, pos + 25)) == spec_u64_from_le_bytes(
            s.subrange(pos + 33, pos + 41),
        ),
        spec_u64_from_le_bytes(s.subrange(pos + 25, pos + 33)) == spec_u64_from_le_bytes(
            s.subrange(pos + 41, pos + 49),
        ),
{
    lemma_parse_lit_ok(s, pos, magic_bytes());
    lemma_parse_lit_ok(s, pos + 12, zero_bytes(1));
}

/// Serialized framing records parse back to themselves.
pub proof fn lemma_body_header_round_trip(s: Seq<u8>, pos: int, h: BodyHeader)
    requires
        0 <= pos,
        pos + 49 <= s.len(),
        s.subrange(pos, pos + 49) == spec_ser_body_header(h),
    ensures
        spec_parse_body_header(s, pos) == Ok::<(BodyHeader, int), ParseError>((h, pos + 49)),
{
    lemma_auto_spec_u32_to_from_le_bytes();
    lemma_auto_spec_u64_to_from_le_bytes();
    let ser = spec_ser_body_header(h);
    let a1 = magic_bytes();
    let a2 = spec_u32_to_le_bytes(spec_version_word(h.header_version));
    let a3 = spec_u32_to_le_bytes(h.max_chunk_size);
    let a4 = zero_bytes(1);
    let a5 = spec_u32_to_le_bytes(h.compression_algorithm);
    let a6 = spec_u64_to_le_bytes(h.compressed_size);
    let a7 = spec_u64_to_le_bytes(h.uncompressed_size);
    let a8 = spec_u64_to_le_bytes(h.compressed_size);
    let a9 = spec_u64_to_le_bytes(h.uncompressed_size);
    assert(ser == a1 + a2 + a3 + a4 + a5 + a6 + a7 + a8 + a9);
    assert(a1 + a2 + a3 + a4 + a5 + a6 + a7 + a8 + a9 =~= a1 + (a2 + (a3 + (a4 + (a5 + (a6 + (a7 + (
    a8 + a9))))))));
    lemma_seq_cat_subrange(s, pos, a1, a2 + (a3 + (a4 + (a5 + (a6 + (a7 + (a8 + a9)))))));
    lemma_seq_cat_subrange(s, pos + 4, a2, a3 + (a4 + (a5 + (a6 + (a7 + (a8 + a9))))));
    lemma_seq_cat_subrange(s, pos + 8, a3, a4 + (a5 + (a6 + (a7 + (a8 + a9)))));
    lemma_seq_cat_subrange(s, pos + 12, a4, a5 + (a6 + (a7 + (a8 + a9))));
    lemma_seq_cat_subrange(s, pos + 13, a5, a6 + (a7 + (a8 + a9)));
    lemma_seq_cat_subrange(s, pos + 17, a6, a7 + (a8 + a9));
    lemma_seq_cat_subrange(s, pos + 25, a7, a8 + a9);
    lemma_seq_cat_subrange(s, pos + 33, a8, a9);
    crate::primitive::lemma_lit_round_trip(s, pos, a1);
    crate::primitive::lemma_lit_round_trip(s, pos + 12, a4);
    let w = spec_version_word(h.header_version);
    assert(spec_u32_from_le_bytes(s.subrange(pos + 4, pos + 8)) == w);
    assert(spec_parse_body_header_version(s, pos + 4) == Ok::<(BodyHeaderVersion, int), ParseError>(
        (h.header_version, pos + 8),
    ));
}

/// Parses the version word at `pos`.
pub fn body_header_version(input: &[u8], pos: usize) -> (r: Result<
    (BodyHeaderVersion, usize),
    ParseError,
>)
    requires
        pos <= input@.len(),
    ensures
        parse_matches(r, spec_parse_body_header_version(input@, pos as int)),
{
    let (w, n) = match read_u32(input, pos) {
        Ok(v) => v,
        Err(e) => {
            return Err(e);
        },
    };
    if w == 0x00000000 {
        Ok((BodyHeaderVersion::V1, n))
    } else if w == 0x22222222 {
        Ok((BodyHeaderVersion::V2, n))
    } else {
        Err(ParseError::UnknownHeaderVersion { offset: pos, value: w })
    }
}

/// Parses a framing record at `pos`.
pub fn body_header(input: &[u8], pos: usize) -> (r: Result<(BodyHeader, usize), ParseError>)
    requires
        pos <= input@.len(),
    ensures
        parse_matches(r, spec_parse_body_header(input@, pos as int)),
        r matches Ok((h, n)) ==> {
            &&& n == pos + 49 <= input@.len()
            &&& spec_ser_body_header(h) == input@.subrange(pos as int, n as int)
        },
{
    let magic: [u8; 4] = [0xC1u8, 0x83u8, 0x2Au8, 0x9Eu8];
    assert(magic@ =~= magic_bytes());
    let p1 = match read_lit(input, pos, magic.as_slice()) {
        Ok(v) => v,
        Err(e) => {
            return Err(e);
        },
    };
    let (version, p2) = match body_header_version(input, p1) {
        Ok(v) => v,
        Err(e) => {
            return Err(e);
        },
    };
    let (max_chunk, p3) = match read_u32(input, p2) {
        Ok(v) => v,
        Err(e) => {
            return Err(e);
        },
    };
    let sep: [u8; 1] = [0u8];
    assert(sep@ =~= zero_bytes(1));
    let p4 = match read_lit(input, p3, sep.as_slice()) {
        Ok(v) => v,
        Err(e) => {
            return Err(e);
        },
    };
    let (algo, p5) = match read_u32(input, p4) {
        Ok(v) => v,
        Err(e) => {
            return Err(e);
        },
    };
    let (c1, p6) = match read_u64(input, p5) {
        Ok(v) => v,
        Err(e) => {
            return Err(e);
        },
    };
    let (u1, p7) = match read_u64(input, p6) {
        Ok(v) => v,
        Err(e) => {
            return Err(e);
        },
    };
    let (c2, p8) = match read_u64(input, p7) {
        Ok(v) => v,
        Err(e) => {
            return Err(e);
        },
    };
    let (u2, p9) = match read_u64(input, p8) {
        Ok(v) => v,
        Err(e) => {
            return Err(e);
        },
    };
    if c1 != c2 {
        return Err(ParseError::CorruptFraming { offset: p7, expected: c1, actual: c2 });
    }
    if u1 != u2 {
        return Err(ParseError::CorruptFraming { offset: p8, expected: u1, actual: u2 });
    }
    let h = BodyHeader {
        header_version: version,
        max_chunk_size: max_chunk,
        compression_algorithm: algo,
        compressed_size: c1,
        uncompressed_size: u1,
    };
    proof {
        lemma_parse_body_header_ok(input@, pos as int);
    }
    Ok((h, p9))
}

/// Writes a framing record; the duplicated sizes are emitted equal by
/// construction.
pub fn write_body_header(out: &mut Vec<u8>, h: &BodyHeader)
    ensures
        final(out)@ == old(out)@ + spec_ser_body_header(*h),
{
    let magic: [u8; 4] = [0xC1u8, 0x83u8, 0x2Au8, 0x9Eu8];
    let mut m = vstd::slice::slice_to_vec(magic.as_slice());
    out.append(&mut m);
    let word: u32 = match h.header_version {
        BodyHeaderVersion::V1 => 0x00000000,
        BodyHeaderVersion::V2 => 0x22222222,
    };
    write_u32(out, word);
    write_u32(out, h.max_chunk_size);
    write_u8(out, 0u8);
    write_u32(out, h.compression_algorithm);
    write_u64(out, h.compressed_size);
    write_u64(out, h.uncompressed_size);
    write_u64(out, h.compressed_size);
    write_u64(out, h.uncompressed_size);
    assert(out@ =~= old(out)@ + spec_ser_body_header(*h)) by {
        assert(magic@ =~= magic_bytes());
        assert(seq![0u8] =~= zero_bytes(1));
    }
}

} // verus!
