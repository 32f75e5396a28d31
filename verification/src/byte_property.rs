use crate::error::ParseError;
use crate::fstring::{fstr_wf, fstring, spec_parse_fstring, spec_ser_fstring, write_fstring, FStr};
use crate::primitive::{
    lemma_parse_lit_ok, lemma_seq_cat_subrange, lemma_subrange_cat, parse_matches, read_lit,
    read_u32, read_u8, spec_parse_lit, spec_parse_u32, spec_parse_u8, write_u32, write_u8,
    zero_bytes,
};
use vstd::bytes::{
    lemma_auto_spec_u32_to_from_le_bytes, spec_u32_from_le_bytes, spec_u32_to_le_bytes,
};
use vstd::prelude::*;

verus! {

/// The bytes of the literal string `"None\0"`, which names the sentinel
/// property and discriminates the byte-valued case of a byte property.
pub open spec fn none_tag() -> Seq<u8> {
    seq![0x4Eu8, 0x6Fu8, 0x6Eu8, 0x65u8, 0x00u8]
}

/// The sentinel string is ASCII, NUL-terminated, and well-formed.
pub proof fn lemma_none_tag_wf()
    ensures
        fstr_wf(none_tag()),
        none_tag().len() == 5,
{
    crate::utf8::lemma_ascii_is_utf8(none_tag());
}

/// Decides whether the string holds exactly `"None\0"`.
pub fn is_none_tag(fs: &FStr) -> (r: bool)
    ensures
        r == (fs@ == none_tag()),
{
    let t: [u8; 5] = [0x4Eu8, 0x6Fu8, 0x6Eu8, 0x65u8, 0x00u8];
    assert(t@ =~= none_tag());
    crate::primitive::bytes_eq(fs.content.as_slice(), t.as_slice())
}

/// The value a byte property carries: a single raw byte, or (reserved and
/// unobserved in sample data) a string.
#[derive(Debug, Clone, PartialEq, Eq)]
pub enum ByteType {
    Byte(u8),
    FString(FStr),
}

/// The mathematical shape of a [`ByteType`].
pub enum SpecByteType {
    Byte(u8),
    FString(Seq<u8>),
}

impl View for ByteType {
    type V = SpecByteType;

    open spec fn view(&self) -> SpecByteType {
        match self {
            ByteType::Byte(b) => SpecByteType::Byte(*b),
            ByteType::FString(s) => SpecByteType::FString(s@),
        }
    }
}

/// A byte property body: its index and its discriminated value.
#[derive(Debug, Clone, PartialEq, Eq)]
pub struct ByteProperty {
    pub index: u32,
    pub value: ByteType,
}

/// The mathematical shape of a [`ByteProperty`].
pub struct SpecByteProperty {
    pub index: u32,
    pub value: SpecByteType,
}

impl View for ByteProperty {
    type V = SpecByteProperty;

    open spec fn view(&self) -> SpecByteProperty {
        SpecByteProperty { index: self.index, value: self.value@ }
    }
}

/// Well-formed byte property: a string value must be a well-formed factory
/// string other than `"None\0"` (which would read back as the byte case),
/// and its declared size must fit its field.
pub open spec fn byte_property_wf(p: SpecByteProperty) -> bool {
    match p.value {
        SpecByteType::Byte(_) => true,
        SpecByteType::FString(c) => {
            &&& fstr_wf(c)
            &&& c != none_tag()
            &&& c.len() + 4 <= u32::MAX
        },
    }
}

/// The declared size of a byte property: the raw byte alone, or the string
/// with its length prefix.
pub open spec fn spec_byte_property_declared_size(p: SpecByteProperty) -> int {
    match p.value {
        SpecByteType::Byte(_) => 1int,
        SpecByteType::FString(c) => 4 + c.len() as int,
    }
}

/// The wire encoding of a byte property body.
pub open spec fn spec_ser_byte_property(p: SpecByteProperty) -> Seq<u8> {
    match p.value {
        SpecByteType::Byte(b) => spec_u32_to_le_bytes(1) + spec_u32_to_le_bytes(p.index)
            + spec_ser_fstring(none_tag()) + zero_bytes(1) + seq![b],
        SpecByteType::FString(c) => spec_u32_to_le_bytes((4 + c.len()) as u32)
            + spec_u32_to_le_bytes(p.index) + spec_ser_fstring(c),
    }
}

/// What parsing a byte property body at `pos` yields. The declared size
/// must match the bytes its value occupies.
pub open spec fn spec_parse_byte_property(s: Seq<u8>, pos: int) -> Result<
    (SpecByteProperty, int),
    ParseError,
> {
    match spec_parse_u32(s, pos) {
        Err(e) => Err(e),
        Ok((size, p1)) => match spec_parse_u32(s, p1) {
            Err(e) => Err(e),
            Ok((index, p2)) => match spec_parse_fstring(s, p2) {
                Err(e) => Err(e),
                Ok((c, p3)) => if c == none_tag() {
                    match spec_parse_lit(s, p3, zero_bytes(1)) {
                        Err(e) => Err(e),
                        Ok((_, p4)) => match spec_parse_u8(s, p4) {
                            Err(e) => Err(e),
                            Ok((b, p5)) => if size != 1 {
                                Err(
                                    ParseError::PropertySizeMismatch {
                                        name_start: 0,
                                        name_end: 0,
                                        expected: size,
                                        actual: 1,
                                    },
                                )
                            } else {
                                Ok(
                                    (
                                        SpecByteProperty {
                                            index,
                                            value: SpecByteType::Byte(b),
                                        },
                                        p5,
                                    ),
                                )
                            },
                        },
                    }
                } else {
                    if size != 4 + c.len() {
                        Err(
                            ParseError::PropertySizeMismatch {
                                name_start: 0,
                                name_end: 0,
                                expected: size,
                                actual: (4 + c.len()) as u32,
                            },
                        )
                    } else {
                        Ok((SpecByteProperty { index, value: SpecByteType::FString(c) }, p3))
                    }
                },
            },
        },
    }
}

/// A successfully parsed byte property body is well-formed and
/// re-serializes to the bytes consumed.
pub proof fn lemma_parse_byte_property_ok(s: Seq<u8>, pos: int)
    requires
        0 <= pos <= s.len(),
        spec_parse_byte_property(s, pos) is Ok,
    ensures
        ({
            let (p, n) = spec_parse_byte_property(s, pos)->Ok_0;
            &&& pos + 8 < n <= s.len()
            &&& n == pos + 8 + spec_byte_property_declared_size(p) + (match p.value {
                SpecByteType::Byte(_) => 10int,
                SpecByteType::FString(_) => 0int,
            })
            &&& byte_property_wf(p)
            &&& spec_ser_byte_property(p) == s.subrange(pos, n)
        }),
{
    let (p, n) = spec_parse_byte_property(s, pos)->Ok_0;
    lemma_auto_spec_u32_to_from_le_bytes();
    let p2 = pos + 8;
    let (c, p3) = spec_parse_fstring(s, p2)->Ok_0;
    crate::fstring::lemma_parse_fstring_ok(s, p2);
    lemma_none_tag_wf();
    let size = spec_u32_from_le_bytes(s.subrange(pos, pos + 4));
    let index = spec_u32_from_le_bytes(s.subrange(pos + 4, p2));
    assert(s.subrange(pos + 4, p2) =~= s.subrange(pos + 4, pos + 8));
    assert(p.index == index);
    assert(spec_u32_to_le_bytes(index) == s.subrange(pos + 4, p2));
    if c == none_tag() {
        lemma_parse_lit_ok(s, p3, zero_bytes(1));
        lemma_subrange_cat(s, pos, pos + 4, p2);
        lemma_subrange_cat(s, pos, p2, p3);
        lemma_subrange_cat(s, pos, p3, p3 + 1);
        lemma_subrange_cat(s, pos, p3 + 1, n);
        assert(size == 1);
        assert(spec_u32_to_le_bytes(1) == s.subrange(pos, pos + 4));
        assert(spec_ser_fstring(none_tag()) == s.subrange(p2, p3));
        assert(s.subrange(p3, p3 + 1) =~= zero_bytes(1));
        assert(s.subrange(p3 + 1, n) =~= seq![s[p3 + 1]]);
        assert(s.subrange(pos, n) == s.subrange(pos, pos + 4) + s.subrange(pos + 4, p2)
            + s.subrange(p2, p3) + s.subrange(p3, p3 + 1) + s.subrange(p3 + 1, n)) by {
            assert(s.subrange(pos, pos + 4) + s.subrange(pos + 4, p2) + s.subrange(p2, p3)
                + s.subrange(p3, p3 + 1) + s.subrange(p3 + 1, n) =~= s.subrange(pos, p3 + 1)
                + s.subrange(p3 + 1, n));
        }
        assert(spec_ser_byte_property(p) == s.subrange(pos, n));
    } else {
        lemma_subrange_cat(s, pos, pos + 4, p2);
        lemma_subrange_cat(s, pos, p2, n);
        assert(size == 4 + c.len());
        assert((4 + c.len()) as u32 == size);
        assert(spec_u32_to_le_bytes((4 + c.len()) as u32) == s.subrange(pos, pos + 4));
        assert(spec_ser_fstring(c) == s.subrange(p2, n));
        assert(s.subrange(pos, n) == s.subrange(pos, pos + 4) + s.subrange(pos + 4, p2)
            + s.subrange(p2, n)) by {
            assert(s.subrange(pos, pos + 4) + s.subrange(pos + 4, p2) + s.subrange(p2, n)
                =~= s.subrange(pos, p2) + s.subrange(p2, n));
        }
        assert(spec_ser_byte_property(p) == s.subrange(pos, n));
    }
}

/// Serialized well-formed byte property bodies parse back to themselves.
pub proof fn lemma_byte_property_round_trip(s: Seq<u8>, pos: int, p: SpecByteProperty)
    requires
        byte_property_wf(p),
        0 <= pos,
        pos + spec_ser_byte_property(p).len() <= s.len(),
        s.subrange(pos, pos + spec_ser_byte_property(p).len()) == spec_ser_byte_property(p),
    ensures
        spec_parse_byte_property(s, pos) == Ok::<(SpecByteProperty, int), ParseError>(
            (p, pos + spec_ser_byte_property(p).len()),
        ),
{
    lemma_auto_spec_u32_to_from_le_bytes();
    lemma_none_tag_wf();
    match p.value {
        SpecByteType::Byte(b) => {
            let a1 = spec_u32_to_le_bytes(1);
            let a2 = spec_u32_to_le_bytes(p.index);
            let a3 = spec_ser_fstring(none_tag());
            let a4 = zero_bytes(1);
            let a5 = seq![b];
            assert(spec_ser_byte_property(p) == a1 + a2 + a3 + a4 + a5);
            assert(a1 + a2 + a3 + a4 + a5 =~= a1 + (a2 + (a3 + (a4 + a5))));
            lemma_seq_cat_subrange(s, pos, a1, a2 + (a3 + (a4 + a5)));
            lemma_seq_cat_subrange(s, pos + 4, a2, a3 + (a4 + a5));
            lemma_seq_cat_subrange(s, pos + 8, a3, a4 + a5);
            lemma_seq_cat_subrange(s, pos + 8 + a3.len(), a4, a5);
            crate::fstring::lemma_fstring_round_trip(s, pos + 8, none_tag());
            crate::primitive::lemma_lit_round_trip(s, pos + 17, a4);
            assert(s[pos + 18] == b) by {
                assert(s.subrange(pos + 18, pos + 19)[0] == s[pos + 18]);
            }
        },
        SpecByteType::FString(c) => {
            let a1 = spec_u32_to_le_bytes((4 + c.len()) as u32);
            let a2 = spec_u32_to_le_bytes(p.index);
            let a3 = spec_ser_fstring(c);
            assert(spec_ser_byte_property(p) == a1 + a2 + a3);
            assert(a1 + a2 + a3 =~= a1 + (a2 + a3));
            lemma_seq_cat_subrange(s, pos, a1, a2 + a3);
            lemma_seq_cat_subrange(s, pos + 4, a2, a3);
            crate::fstring::lemma_fstring_round_trip(s, pos + 8, c);
            assert(spec_u32_from_le_bytes(s.subrange(pos, pos + 4)) == (4 + c.len()) as u32);
        },
    }
}

impl ByteProperty {
    /// The number of bytes the whole byte property record occupies on the
    /// wire, its size and index fields included.
    pub fn size(&self) -> (r: u32)
        requires
            self@.value matches SpecByteType::FString(c) ==> c.len() + 12 <= u32::MAX,
        ensures
            r == spec_ser_byte_property(self@).len(),
    {
        proof {
            vstd::bytes::lemma_auto_spec_u32_to_from_le_bytes();
            lemma_none_tag_wf();
        }
        match &self.value {
            ByteType::Byte(_) => 19,
            ByteType::FString(c) => 12 + (c.content.len() as u32),
        }
    }
}

/// Parses a byte property body at `pos`.
pub fn byte_property(input: &[u8], pos: usize) -> (r: Result<(ByteProperty, usize), ParseError>)
    requires
        pos <= input@.len(),
    ensures
        parse_matches(r, spec_parse_byte_property(input@, pos as int)),
        r matches Ok((v, n)) ==> {
            &&& pos + 8 < n <= input@.len()
            &&& byte_property_wf(v@)
            &&& spec_ser_byte_property(v@) == input@.subrange(pos as int, n as int)
        },
{
    let (size, p1) = match read_u32(input, pos) {
        Ok(v) => v,
        Err(e) => {
            return Err(e);
        },
    };
    let (index, p2) = match read_u32(input, p1) {
        Ok(v) => v,
        Err(e) => {
            return Err(e);
        },
    };
    let (c, p3) = match fstring(input, p2) {
        Ok(v) => v,
        Err(e) => {
            return Err(e);
        },
    };
    if is_none_tag(&c) {
        let sep: [u8; 1] = [0u8];
        assert(sep@ =~= zero_bytes(1));
        let p4 = match read_lit(input, p3, sep.as_slice()) {
            Ok(v) => v,
            Err(e) => {
                return Err(e);
            },
        };
        let (b, p5) = match read_u8(input, p4) {
            Ok(v) => v,
            Err(e) => {
                return Err(e);
            },
        };
        if size != 1 {
            return Err(
                ParseError::PropertySizeMismatch {
                    name_start: 0,
                    name_end: 0,
                    expected: size,
                    actual: 1,
                },
            );
        }
        let p = ByteProperty { index, value: ByteType::Byte(b) };
        proof {
            lemma_parse_byte_property_ok(input@, pos as int);
        }
        Ok((p, p5))
    } else {
        let clen = c.content.len();
        assert(clen + 4 <= input@.len());
        if (size as u64) != (clen as u64) + 4 {
            let actual = #[verifier::truncate] (((clen as u64) + 4) as u32);
            assert(actual == (4 + c@.len()) as u32);
            return Err(
                ParseError::PropertySizeMismatch {
                    name_start: 0,
                    name_end: 0,
                    expected: size,
                    actual,
                },
            );
        }
        let p = ByteProperty { index, value: ByteType::FString(c) };
        proof {
            lemma_parse_byte_property_ok(input@, pos as int);
        }
        Ok((p, p3))
    }
}

/// Writes a byte property body.
pub fn write_byte_property(out: &mut Vec<u8>, p: &ByteProperty)
    requires
        byte_property_wf(p@),
    ensures
        final(out)@ == old(out)@ + spec_ser_byte_property(p@),
{
    proof {
        lemma_none_tag_wf();
    }
    match &p.value {
        ByteType::Byte(b) => {
            write_u32(out, 1);
            write_u32(out, p.index);
            let t: [u8; 5] = [0x4Eu8, 0x6Fu8, 0x6Eu8, 0x65u8, 0x00u8];
            let none = FStr { content: vstd::slice::slice_to_vec(t.as_slice()) };
            assert(none@ =~= none_tag());
            write_fstring(out, &none);
            write_u8(out, 0u8);
            write_u8(out, *b);
            assert(out@ =~= old(out)@ + spec_ser_byte_property(p@)) by {
                assert(seq![0u8] =~= zero_bytes(1));
            }
        },
        ByteType::FString(c) => {
            write_u32(out, (c.content.len() + 4) as u32);
            write_u32(out, p.index);
            write_fstring(out, c);
            assert(out@ =~= old(out)@ + spec_ser_byte_property(p@));
        },
    }
}

} // verus!
