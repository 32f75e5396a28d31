use crate::error::ParseError;
use crate::primitive::{parse_matches, read_u32, spec_parse_u32, write_u32};
use crate::utf8::{is_utf8, utf8_check};
use vstd::bytes::{
    lemma_auto_spec_u32_to_from_le_bytes, spec_u32_from_le_bytes, spec_u32_to_le_bytes,
};
use vstd::prelude::*;
use vstd::slice::{slice_index_get, slice_subrange, slice_to_vec};

verus! {

/// A factory string: UTF-8 content that, unless empty, carries its own
/// trailing NUL byte. On the wire it is a little-endian `u32` length
/// followed by exactly that many content bytes, the NUL included in both.
#[derive(Debug, Clone, PartialEq, Eq)]
pub struct FStr {
    pub content: Vec<u8>,
}

impl View for FStr {
    type V = Seq<u8>;

    open spec fn view(&self) -> Seq<u8> {
        self.content@
    }
}

/// Well-formed factory string content: the length fits its `u32` field,
/// a non-empty string ends in NUL, and the bytes are UTF-8.
pub open spec fn fstr_wf(c: Seq<u8>) -> bool {
    &&& c.len() <= u32::MAX
    &&& c.len() > 0 ==> c.last() == 0
    &&& is_utf8(c)
}

/// The wire encoding of factory string content: its length, then the bytes.
pub open spec fn spec_ser_fstring(c: Seq<u8>) -> Seq<u8> {
    spec_u32_to_le_bytes(c.len() as u32) + c
}

/// What parsing a factory string at `pos` yields.
pub open spec fn spec_parse_fstring(s: Seq<u8>, pos: int) -> Result<(Seq<u8>, int), ParseError> {
    match spec_parse_u32(s, pos) {
        Err(e) => Err(e),
        Ok((len, p1)) => if p1 + len > s.len() {
            Err(ParseError::UnexpectedEndOfInput { offset: p1 as usize })
        } else {
            let c = s.subrange(p1, p1 + len);
            if len > 0 && c.last() != 0 {
                Err(
                    ParseError::TagMismatch {
                        offset: (p1 + len - 1) as usize,
                        expected: 0,
                        actual: c.last(),
                    },
                )
            } else if !is_utf8(c) {
                Err(ParseError::InvalidUtf8 { start: p1 as usize, end: (p1 + len) as usize })
            } else {
                Ok((c, p1 + len))
            }
        },
    }
}

/// A successful factory-string parse yields well-formed content whose
/// declared length is exactly the bytes consumed for it, and those bytes
/// re-serialize to the consumed input.
pub proof fn lemma_parse_fstring_ok(s: Seq<u8>, pos: int)
    requires
        0 <= pos <= s.len(),
        spec_parse_fstring(s, pos) is Ok,
    ensures
        ({
            let (c, n) = spec_parse_fstring(s, pos)->Ok_0;
            &&& pos + 4 <= n <= s.len()
            &&& n == pos + 4 + c.len()
            &&& fstr_wf(c)
            &&& spec_ser_fstring(c) == s.subrange(pos, n)
        }),
{
    let (c, n) = spec_parse_fstring(s, pos)->Ok_0;
    let len = spec_u32_from_le_bytes(s.subrange(pos, pos + 4));
    lemma_auto_spec_u32_to_from_le_bytes();
    assert(spec_u32_to_le_bytes(c.len() as u32) == s.subrange(pos, pos + 4));
    assert(spec_ser_fstring(c) =~= s.subrange(pos, n));
}

/// Serialized well-formed content parses back to itself, wherever it stands
/// in a longer input.
pub proof fn lemma_fstring_round_trip(s: Seq<u8>, pos: int, c: Seq<u8>)
    requires
        fstr_wf(c),
        0 <= pos,
        pos + 4 + c.len() <= s.len(),
        s.subrange(pos, pos + 4 + c.len()) == spec_ser_fstring(c),
    ensures
        spec_parse_fstring(s, pos) == Ok::<(Seq<u8>, int), ParseError>((c, pos + 4 + c.len())),
{
    lemma_auto_spec_u32_to_from_le_bytes();
    let ser = spec_ser_fstring(c);
    assert(s.subrange(pos, pos + 4) =~= ser.subrange(0, 4)) by {
        assert forall|i: int| 0 <= i < 4 implies s.subrange(pos, pos + 4)[i] == ser.subrange(
            0,
            4,
        )[i] by {
            assert(s.subrange(pos, pos + 4 + c.len())[i] == s[pos + i]);
        }
    }
    assert(ser.subrange(0, 4) =~= spec_u32_to_le_bytes(c.len() as u32));
    let len = spec_u32_from_le_bytes(s.subrange(pos, pos + 4)) as int;
    assert(len == c.len());
    assert(s.subrange(pos + 4, pos + 4 + len) =~= c) by {
        assert forall|i: int| 0 <= i < c.len() implies s.subrange(pos + 4, pos + 4 + c.len())[i]
            == c[i] by {
            assert(s.subrange(pos, pos + 4 + c.len())[i + 4] == s[pos + 4 + i]);
            assert(ser[i + 4] == c[i]);
        }
    }
}

impl FStr {
    /// Wraps already-encoded factory string content.
    pub fn new(content: Vec<u8>) -> (r: FStr)
        ensures
            r@ == content@,
    {
        FStr { content }
    }

    /// The content length in bytes, trailing NUL included.
    pub fn len(&self) -> (r: usize)
        ensures
            r == self@.len(),
    {
        self.content.len()
    }

    /// The number of bytes this string occupies on the wire.
    pub fn size(&self) -> (r: u32)
        requires
            self@.len() + 4 <= u32::MAX,
        ensures
            r == self@.len() + 4,
    {
        (self.content.len() as u32) + 4
    }
}

/// Sizing of values that serialize as a factory string.
pub trait FStringExt {
    /// The content as it stands on the wire, length prefix excluded.
    spec fn fstr_content(&self) -> Seq<u8>;

    /// The number of bytes the value occupies on the wire.
    fn size(&self) -> (r: u32)
        requires
            self.fstr_content().len() + 4 <= u32::MAX,
        ensures
            r == self.fstr_content().len() + 4,
    ;
}

impl FStringExt for FStr {
    open spec fn fstr_content(&self) -> Seq<u8> {
        self@
    }

    fn size(&self) -> (r: u32) {
        (self.content.len() as u32) + 4
    }
}

/// Parses a factory string at `pos`.
pub fn fstring(input: &[u8], pos: usize) -> (r: Result<(FStr, usize), ParseError>)
    requires
        pos <= input@.len(),
    ensures
        parse_matches(r, spec_parse_fstring(input@, pos as int)),
        r matches Ok((v, n)) ==> {
            &&& pos + 4 <= n <= input@.len()
            &&& fstr_wf(v@)
            &&& spec_ser_fstring(v@) == input@.subrange(pos as int, n as int)
        },
{
    let (len32, p1) = match read_u32(input, pos) {
        Ok(v) => v,
        Err(e) => {
            return Err(e);
        },
    };
    let len = len32 as usize;
    if len > input.len() - p1 {
        return Err(ParseError::UnexpectedEndOfInput { offset: p1 });
    }
    let sub = slice_subrange(input, p1, p1 + len);
    if len > 0 {
        let last = *slice_index_get(sub, len - 1);
        if last != 0 {
            assert(sub@.last() == input@.subrange(p1 as int, p1 + len)[len - 1]);
            return Err(
                ParseError::TagMismatch { offset: p1 + len - 1, expected: 0, actual: last },
            );
        }
    }
    if !utf8_check(sub) {
        return Err(ParseError::InvalidUtf8 { start: p1, end: p1 + len });
    }
    let content = slice_to_vec(sub);
    proof {
        lemma_parse_fstring_ok(input@, pos as int);
    }
    Ok((FStr { content }, p1 + len))
}

/// Serializes raw factory string content: its length, then its bytes.
pub fn write_fstring_bytes(out: &mut Vec<u8>, b: &[u8])
    requires
        b@.len() <= u32::MAX,
    ensures
        final(out)@ == old(out)@ + spec_ser_fstring(b@),
{
    write_u32(out, b.len() as u32);
    let mut tmp = slice_to_vec(b);
    out.append(&mut tmp);
    assert(out@ =~= old(out)@ + spec_ser_fstring(b@));
}

/// Serializes a factory string: its length, then its bytes.
pub fn write_fstring(out: &mut Vec<u8>, v: &FStr)
    requires
        v@.len() <= u32::MAX,
    ensures
        final(out)@ == old(out)@ + spec_ser_fstring(v@),
{
    write_u32(out, v.content.len() as u32);
    let mut c = v.content.clone();
    out.append(&mut c);
    assert(out@ =~= old(out)@ + spec_ser_fstring(v@));
}

} // verus!
