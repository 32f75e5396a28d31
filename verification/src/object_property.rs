use crate::error::ParseError;
use crate::fstring::{fstr_wf, fstring, spec_parse_fstring, spec_ser_fstring, write_fstring, FStr};
use crate::primitive::{
    lemma_parse_lit_ok, lemma_seq_cat_subrange, lemma_subrange_cat, parse_matches, read_lit,
    read_u32, spec_parse_lit, spec_parse_u32, write_u32, write_zeros, zero_bytes,
};
use vstd::bytes::{lemma_auto_spec_u32_to_from_le_bytes, spec_u32_to_le_bytes};
use vstd::prelude::*;

verus! {

/// An object property body: its index and a string reference to another
/// object, the reference keeping its trailing NUL.
#[derive(Debug, Clone, PartialEq, Eq)]
pub struct ObjectProperty {
    pub index: u32,
    pub reference: FStr,
}

/// The mathematical shape of an [`ObjectProperty`].
pub struct SpecObjectProperty {
    pub index: u32,
    pub reference: Seq<u8>,
}

impl View for ObjectProperty {
    type V = SpecObjectProperty;

    open spec fn view(&self) -> SpecObjectProperty {
        SpecObjectProperty { index: self.index, reference: self.reference@ }
    }
}

/// Well-formed object property: a well-formed reference whose declared
/// size fits its field.
pub open spec fn object_property_wf(p: SpecObjectProperty) -> bool {
    &&& fstr_wf(p.reference)
    &&& p.reference.len() + 8 <= u32::MAX
}

/// The wire encoding of an object property body: its size (the reference
/// with its length prefix, plus four), the index, five zero bytes, then
/// the reference.
pub open spec fn spec_ser_object_property(p: SpecObjectProperty) -> Seq<u8> {
    spec_u32_to_le_bytes((8 + p.reference.len()) as u32) + spec_u32_to_le_bytes(p.index)
        + zero_bytes(5) + spec_ser_fstring(p.reference)
}

/// What parsing an object property body at `pos` yields. The declared
/// size must match the reference's wire length plus four.
pub open spec fn spec_parse_object_property(s: Seq<u8>, pos: int) -> Result<
    (SpecObjectProperty, int),
    ParseError,
> {
    match spec_parse_u32(s, pos) {
        Err(e) => Err(e),
        Ok((size, p1)) => match spec_parse_u32(s, p1) {
            Err(e) => Err(e),
            Ok((index, p2)) => match spec_parse_lit(s, p2, zero_bytes(5)) {
                Err(e) => Err(e),
                Ok((_, p3)) => match spec_parse_fstring(s, p3) {
                    Err(e) => Err(e),
                    Ok((c, p4)) => if size != 8 + c.len() {
                        Err(
                            ParseError::PropertySizeMismatch {
                                name_start: 0,
                                name_end: 0,
                                expected: size,
                                actual: (8 + c.len()) as u32,
                            },
                        )
                    } else {
                        Ok((SpecObjectProperty { index, reference: c }, p4))
                    },
                },
            },
        },
    }
}

/// A successfully parsed object property body is well-formed and
/// re-serializes to the bytes consumed.
pub proof fn lemma_parse_object_property_ok(s: Seq<u8>, pos: int)
    requires
        0 <= pos <= s.len(),
        spec_parse_object_property(s, pos) is Ok,
    ensures
        ({
            let (p, n) = spec_parse_object_property(s, pos)->Ok_0;
            &&& pos + 13 <= n <= s.len()
            &&& n == pos + 17 + p.reference.len()
            &&& object_property_wf(p)
            &&& spec_ser_object_property(p) == s.subrange(pos, n)
        }),
{
    let (p, n) = spec_parse_object_property(s, pos)->Ok_0;
    lemma_auto_spec_u32_to_from_le_bytes();
    lemma_parse_lit_ok(s, pos + 8, zero_bytes(5));
    let p3 = pos + 13;
    crate::fstring::lemma_parse_fstring_ok(s, p3);
    assert(spec_ser_object_property(p) == s.subrange(pos, n)) by {
        lemma_subrange_cat(s, pos, pos + 4, pos + 8);
        lemma_subrange_cat(s, pos, pos + 8, p3);
        lemma_subrange_cat(s, pos, p3, n);
        assert(s.subrange(pos, pos + 8) + s.subrange(pos + 8, p3) =~= s.subrange(pos, p3));
        assert(spec_u32_to_le_bytes((8 + p.reference.len()) as u32) + spec_u32_to_le_bytes(p.index)
            + zero_bytes(5) + spec_ser_fstring(p.reference) =~= (spec_u32_to_le_bytes(
            (8 + p.reference.len()) as u32,
        ) + spec_u32_to_le_bytes(p.index)) + (zero_bytes(5) + spec_ser_fstring(p.reference)));
        assert(s.subrange(pos, pos + 4) + s.subrange(pos + 4, pos + 8) =~= s.subrange(pos, pos + 8));
    }
}

/// Serialized well-formed object property bodies parse back to themselves.
pub proof fn lemma_object_property_round_trip(s: Seq<u8>, pos: int, p: SpecObjectProperty)
    requires
        object_property_wf(p),
        0 <= pos,
        pos + 17 + p.reference.len() <= s.len(),
        s.subrange(pos, pos + 17 + p.reference.len()) == spec_ser_object_property(p),
    ensures
        spec_parse_object_property(s, pos) == Ok::<(SpecObjectProperty, int), ParseError>(
            (p, pos + 17 + p.reference.len()),
        ),
{
    lemma_auto_spec_u32_to_from_le_bytes();
    let a1 = spec_u32_to_le_bytes((8 + p.reference.len()) as u32);
    let a2 = spec_u32_to_le_bytes(p.index);
    let a3 = zero_bytes(5);
    let a4 = spec_ser_fstring(p.reference);
    assert(spec_ser_object_property(p) == a1 + a2 + a3 + a4);
    assert(a1 + a2 + a3 + a4 =~= a1 + (a2 + (a3 + a4)));
    lemma_seq_cat_subrange(s, pos, a1, a2 + (a3 + a4));
    lemma_seq_cat_subrange(s, pos + 4, a2, a3 + a4);
    lemma_seq_cat_subrange(s, pos + 8, a3, a4);
    crate::primitive::lemma_lit_round_trip(s, pos + 8, a3);
    crate::fstring::lemma_fstring_round_trip(s, pos + 13, p.reference);
}

impl ObjectProperty {
    /// The number of bytes the whole object property record occupies on
    /// the wire, its size and index fields included.
    pub fn size(&self) -> (r: u32)
        requires
            self@.reference.len() + 17 <= u32::MAX,
        ensures
            r == spec_ser_object_property(self@).len(),
    {
        proof {
            lemma_auto_spec_u32_to_from_le_bytes();
        }
        (self.reference.len() as u32) + 17
    }
}

/// Parses an object property body at `pos`.
pub fn object_property(input: &[u8], pos: usize) -> (r: Result<(ObjectProperty, usize), ParseError>)
    requires
        pos <= input@.len(),
    ensures
        parse_matches(r, spec_parse_object_property(input@, pos as int)),
        r matches Ok((v, n)) ==> {
            &&& pos + 13 <= n <= input@.len()
            &&& object_property_wf(v@)
            &&& spec_ser_object_property(v@) == input@.subrange(pos as int, n as int)
        },
{
    let (size, p1) = match read_u32(input, pos) {
        Ok(v) => v,
        Err(e) => {
            return Err(e);
        },
    };
    let (index, p2) = match read_u32(input, p1) {
        Ok(v) => v,
        Err(e) => {
            return Err(e);
        },
    };
    let sep: [u8; 5] = [0u8, 0u8, 0u8, 0u8, 0u8];
    assert(sep@ =~= zero_bytes(5));
    let p3 = match read_lit(input, p2, sep.as_slice()) {
        Ok(v) => v,
        Err(e) => {
            return Err(e);
        },
    };
    let (c, p4) = match fstring(input, p3) {
        Ok(v) => v,
        Err(e) => {
            return Err(e);
        },
    };
    let clen = c.content.len();
    assert(clen + 8 <= input@.len());
    if (size as u64) != (clen as u64) + 8 {
        let actual = #[verifier::truncate] (((clen as u64) + 8) as u32);
        assert(actual == (8 + c@.len()) as u32);
        return Err(
            ParseError::PropertySizeMismatch {
                name_start: 0,
                name_end: 0,
                expected: size,
                actual,
            },
        );
    }
    let p = ObjectProperty { index, reference: c };
    proof {
        lemma_parse_object_property_ok(input@, pos as int);
    }
    Ok((p, p4))
}

/// Writes an object property body.
pub fn write_object_property(out: &mut Vec<u8>, p: &ObjectProperty)
    requires
        object_property_wf(p@),
    ensures
        final(out)@ == old(out)@ + spec_ser_object_property(p@),
{
    write_u32(out, (p.reference.content.len() as u32) + 8);
    write_u32(out, p.index);
    write_zeros(out, 5);
    write_fstring(out, &p.reference);
    assert(out@ =~= old(out)@ + spec_ser_object_property(p@));
}

} // verus!
