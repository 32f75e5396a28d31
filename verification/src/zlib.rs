use vstd::prelude::*;

verus! {

/// What decompressing the zlib stream at the front of `c` yields: its
/// decompressed bytes, or nothing when `c` holds no well-formed stream.
/// Decompression is a pure function of the compressed bytes (RFC 1950
/// fixes the decoding), so the result depends on `c` alone.
pub uninterp spec fn zlib_inflate(c: Seq<u8>) -> Option<Seq<u8>>;

/// Relies on flate2's `read::ZlibDecoder`: reading it to the end yields
/// the decompression of the zlib stream in `data`, and fails exactly when
/// `data` holds no well-formed stream.
#[verifier::external_body]
pub fn zlib_decompress(data: &[u8]) -> (r: Option<Vec<u8>>)
    ensures
        match r {
            Some(v) => zlib_inflate(data@) == Some(v@),
            None => zlib_inflate(data@) is None,
        },
{
    let mut out = Vec::new();
    let mut dec = flate2::read::ZlibDecoder::new(data);
    match std::io::Read::read_to_end(&mut dec, &mut out) {
        Ok(_) => Some(out),
        Err(_) => None,
    }
}

/// Relies on flate2's `write::ZlibEncoder` at the default level: its
/// output is a well-formed zlib stream that decompresses back to `data`.
/// With a `Vec` as the sink, writing and finishing cannot fail.
#[verifier::external_body]
pub fn zlib_compress(data: &[u8]) -> (r: Vec<u8>)
    ensures
        zlib_inflate(r@) == Some(data@),
{
    let mut enc = flate2::write::ZlibEncoder::new(Vec::new(), flate2::Compression::default());
    std::io::Write::write_all(&mut enc, data).expect("a Vec sink cannot fail");
    enc.finish().expect("a Vec sink cannot fail")
}

} // verus!
