use crate::body::{
    blueprint_body, body_wf, spec_parse_body, spec_ser_body, write_blueprint_body, BlueprintBody,
    SpecBlueprintBody,
};
use crate::error::ParseError;
use crate::header::{
    header_with_sizes, header_wf, parse_header, spec_parse_header, spec_ser_header,
    write_header_with_sizes, Header, SpecHeader,
};
use crate::zlib::{zlib_compress, zlib_decompress, zlib_inflate};
use vstd::prelude::*;
use vstd::slice::slice_subrange;

verus! {

/// A whole blueprint: its clear-text header and its decoded body.
#[derive(Debug, PartialEq)]
pub struct Blueprint {
    pub header: Header,
    pub body: BlueprintBody,
}

/// The mathematical shape of a [`Blueprint`].
pub struct SpecBlueprint {
    pub header: SpecHeader,
    pub body: SpecBlueprintBody,
}

impl View for Blueprint {
    type V = SpecBlueprint;

    open spec fn view(&self) -> SpecBlueprint {
        SpecBlueprint { header: self.header@, body: self.body@ }
    }
}

/// Well-formed blueprint: a well-formed header and body.
pub open spec fn blueprint_wf(b: SpecBlueprint) -> bool {
    &&& header_wf(b.header)
    &&& body_wf(b.body)
}

/// What parsing a whole blueprint file yields: the header, then exactly
/// `compressed_size` bytes of zlib stream whose decompression has the
/// declared length and parses, in full, as the body. Offsets inside body
/// errors refer to the decompressed buffer.
pub open spec fn spec_parse_blueprint(s: Seq<u8>) -> Result<SpecBlueprint, ParseError> {
    match spec_parse_header(s, 0) {
        Err(e) => Err(e),
        Ok((h, p)) => {
            let csize = h.body_header.compressed_size;
            if p + csize > s.len() {
                Err(ParseError::UnexpectedEndOfInput { offset: p as usize })
            } else {
                match zlib_inflate(s.subrange(p, p + csize)) {
                    Option::None => Err(ParseError::CompressionError { offset: p as usize }),
                    Option::Some(body_bytes) => if body_bytes.len()
                        != h.body_header.uncompressed_size {
                        Err(
                            ParseError::CorruptFraming {
                                offset: p as usize,
                                expected: h.body_header.uncompressed_size,
                                actual: body_bytes.len() as u64,
                            },
                        )
                    } else if body_bytes.len() > u32::MAX {
                        Err(ParseError::CompressionError { offset: p as usize })
                    } else {
                        match spec_parse_body(body_bytes, 0) {
                            Err(e) => Err(e),
                            Ok((b, n)) => if n != body_bytes.len() {
                                Err(
                                    ParseError::CorruptFraming {
                                        offset: n as usize,
                                        expected: body_bytes.len() as u64,
                                        actual: n as u64,
                                    },
                                )
                            } else {
                                Ok(SpecBlueprint { header: h, body: b })
                            },
                        }
                    },
                }
            }
        },
    }
}

/// Parses a whole blueprint file.
pub fn parse_blueprint(input: &[u8]) -> (r: Result<Blueprint, ParseError>)
    ensures
        match r {
            Ok(v) => spec_parse_blueprint(input@) == Ok::<SpecBlueprint, ParseError>(v@)
                && blueprint_wf(v@),
            Err(e) => spec_parse_blueprint(input@) == Err::<SpecBlueprint, ParseError>(e),
        },
{
    let (h, p) = match parse_header(input, 0) {
        Ok(v) => v,
        Err(e) => {
            return Err(e);
        },
    };
    let csize = h.body_header.compressed_size;
    if csize > (input.len() - p) as u64 {
        return Err(ParseError::UnexpectedEndOfInput { offset: p });
    }
    let comp = slice_subrange(input, p, p + (csize as usize));
    let body_bytes = match zlib_decompress(comp) {
        Option::Some(v) => v,
        Option::None => {
            return Err(ParseError::CompressionError { offset: p });
        },
    };
    if (body_bytes.len() as u64) != h.body_header.uncompressed_size {
        return Err(
            ParseError::CorruptFraming {
                offset: p,
                expected: h.body_header.uncompressed_size,
                actual: body_bytes.len() as u64,
            },
        );
    }
    if body_bytes.len() > u32::MAX as usize {
        return Err(ParseError::CompressionError { offset: p });
    }
    let (b, n) = match blueprint_body(body_bytes.as_slice(), 0) {
        Ok(v) => v,
        Err(e) => {
            return Err(e);
        },
    };
    if n != body_bytes.len() {
        return Err(
            ParseError::CorruptFraming {
                offset: n,
                expected: body_bytes.len() as u64,
                actual: n as u64,
            },
        );
    }
    Ok(Blueprint { header: h, body: b })
}

impl Blueprint {
    /// Parses a whole blueprint file.
    pub fn new(data: &[u8]) -> (r: Result<Blueprint, ParseError>)
        ensures
            match r {
                Ok(v) => spec_parse_blueprint(data@) == Ok::<SpecBlueprint, ParseError>(v@)
                    && blueprint_wf(v@),
                Err(e) => spec_parse_blueprint(data@) == Err::<SpecBlueprint, ParseError>(e),
            },
    {
        parse_blueprint(data)
    }
}

/// Serializes a whole blueprint: the body is serialized, compressed, and
/// framed by the header with the sizes both steps produced.
pub fn serialize_blueprint(bp: &Blueprint) -> (r: Vec<u8>)
    requires
        blueprint_wf(bp@),
    ensures
        exists|c: Seq<u8>|
            {
                &&& r@ == spec_ser_header(
                    header_with_sizes(
                        bp@.header,
                        c.len() as u64,
                        spec_ser_body(bp@.body).len() as u64,
                    ),
                ) + c
                &&& #[trigger] zlib_inflate(c) == Some(spec_ser_body(bp@.body))
            },
{
    let mut body_buf: Vec<u8> = Vec::new();
    write_blueprint_body(&mut body_buf, &bp.body);
    let comp = zlib_compress(body_buf.as_slice());
    let mut out: Vec<u8> = Vec::new();
    write_header_with_sizes(
        &mut out,
        &bp.header,
        comp.len() as u64,
        body_buf.len() as u64,
    );
    let ghost cbytes = comp@;
    let mut tail = comp;
    out.append(&mut tail);
    proof {
        assert(zlib_inflate(cbytes) == Some(spec_ser_body(bp@.body)));
        assert(out@ == spec_ser_header(
            header_with_sizes(bp@.header, cbytes.len() as u64, spec_ser_body(bp@.body).len() as u64),
        ) + cbytes);
    }
    out
}

/// Parsing inverts serialization at the blueprint level: a serialized
/// well-formed blueprint, framed by any zlib stream that decompresses to
/// its body bytes, parses back to the same tree (with the framing sizes
/// the writer computed). The mod list must read back unambiguously, as in
/// every real file.
#[verifier::rlimit(80)]
#[verifier::spinoff_prover]
pub proof fn lemma_blueprint_round_trip(bp: SpecBlueprint, c: Seq<u8>)
    requires
        blueprint_wf(bp),
        crate::requirements::mod_list_unambiguous(bp.header.requirements),
        zlib_inflate(c) == Some(spec_ser_body(bp.body)),
        c.len() <= u64::MAX,
    ensures
        ({
            let h2 = header_with_sizes(bp.header, c.len() as u64, spec_ser_body(bp.body).len() as u64);
            spec_parse_blueprint(spec_ser_header(h2) + c) == Ok::<SpecBlueprint, ParseError>(
                SpecBlueprint { header: h2, body: bp.body },
            )
        }),
{
    let bb = spec_ser_body(bp.body);
    let h2 = header_with_sizes(bp.header, c.len() as u64, bb.len() as u64);
    let hs = spec_ser_header(h2);
    let s = hs + c;
    let p = hs.len() as int;
    assert(header_wf(h2));
    assert(spec_parse_header(s, 0) == Ok::<(SpecHeader, int), ParseError>((h2, p))) by {
        assert(s.subrange(0, p) =~= hs);
        crate::header::lemma_header_round_trip(s, 0, h2);
    }
    assert(s.subrange(p, p + c.len()) =~= c);
    assert(bb.len() <= u32::MAX) by {
        vstd::bytes::lemma_auto_spec_u32_to_from_le_bytes();
    }
    assert(spec_parse_body(bb, 0) == Ok::<(SpecBlueprintBody, int), ParseError>(
        (bp.body, bb.len() as int),
    )) by {
        assert(bb.subrange(0, bb.len() as int) =~= bb);
        crate::body::lemma_body_round_trip(bb, 0, bp.body);
    }
    assert(h2.body_header.compressed_size == c.len());
    assert(h2.body_header.uncompressed_size == bb.len());
}

} // verus!
