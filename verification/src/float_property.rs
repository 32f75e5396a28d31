use crate::error::ParseError;
use crate::primitive::{
    lemma_parse_lit_ok, lemma_seq_cat_subrange, lemma_subrange_cat, parse_matches, read_lit,
    read_u32, spec_parse_lit, spec_parse_u32, write_u32, write_u8, zero_bytes,
};
use vstd::bytes::{lemma_auto_spec_u32_to_from_le_bytes, spec_u32_to_le_bytes};
use vstd::prelude::*;

verus! {

/// A float property body: its index and the value's IEEE 754 bit pattern.
/// The bits are carried verbatim, which keeps round-trips byte-exact.
#[derive(Debug, Clone, Copy, PartialEq, Eq, Structural)]
pub struct FloatProperty {
    pub index: u32,
    pub value: u32,
}

impl View for FloatProperty {
    type V = FloatProperty;

    open spec fn view(&self) -> FloatProperty {
        *self
    }
}

/// The wire encoding of a float property body: a size of four, the index,
/// a zero separator, then the value bits.
pub open spec fn spec_ser_float_property(p: FloatProperty) -> Seq<u8> {
    spec_u32_to_le_bytes(4) + spec_u32_to_le_bytes(p.index) + zero_bytes(1) + spec_u32_to_le_bytes(
        p.value,
    )
}

/// What parsing a float property body at `pos` yields. The declared size
/// must be the four bytes a float occupies.
pub open spec fn spec_parse_float_property(s: Seq<u8>, pos: int) -> Result<
    (FloatProperty, int),
    ParseError,
> {
    match spec_parse_u32(s, pos) {
        Err(e) => Err(e),
        Ok((size, p1)) => match spec_parse_u32(s, p1) {
            Err(e) => Err(e),
            Ok((index, p2)) => match spec_parse_lit(s, p2, zero_bytes(1)) {
                Err(e) => Err(e),
                Ok((_, p3)) => match spec_parse_u32(s, p3) {
                    Err(e) => Err(e),
                    Ok((value, p4)) => if size != 4 {
                        Err(
                            ParseError::PropertySizeMismatch {
                                name_start: 0,
                                name_end: 0,
                                expected: size,
                                actual: 4,
                            },
                        )
                    } else {
                        Ok((FloatProperty { index, value }, p4))
                    },
                },
            },
        },
    }
}

/// A successfully parsed float property body spans 13 bytes and
/// re-serializes to them.
pub proof fn lemma_parse_float_property_ok(s: Seq<u8>, pos: int)
    requires
        0 <= pos <= s.len(),
        spec_parse_float_property(s, pos) is Ok,
    ensures
        ({
            let (p, n) = spec_parse_float_property(s, pos)->Ok_0;
            &&& n == pos + 13
            &&& n <= s.len()
            &&& spec_ser_float_property(p) == s.subrange(pos, n)
        }),
{
    let (p, n) = spec_parse_float_property(s, pos)->Ok_0;
    lemma_auto_spec_u32_to_from_le_bytes();
    lemma_parse_lit_ok(s, pos + 8, zero_bytes(1));
    assert(s.subrange(pos + 8, pos + 9) =~= zero_bytes(1));
    assert(spec_ser_float_property(p) =~= s.subrange(pos, n)) by {
        lemma_subrange_cat(s, pos, pos + 4, pos + 8);
        lemma_subrange_cat(s, pos, pos + 8, pos + 9);
        lemma_subrange_cat(s, pos, pos + 9, pos + 13);
    }
}

/// Serialized float property bodies parse back to themselves.
pub proof fn lemma_float_property_round_trip(s: Seq<u8>, pos: int, p: FloatProperty)
    requires
        0 <= pos,
        pos + 13 <= s.len(),
        s.subrange(pos, pos + 13) == spec_ser_float_property(p),
    ensures
        spec_parse_float_property(s, pos) == Ok::<(FloatProperty, int), ParseError>((p, pos + 13)),
{
    lemma_auto_spec_u32_to_from_le_bytes();
    let a1 = spec_u32_to_le_bytes(4);
    let a2 = spec_u32_to_le_bytes(p.index);
    let a3 = zero_bytes(1);
    let a4 = spec_u32_to_le_bytes(p.value);
    assert(spec_ser_float_property(p) == a1 + a2 + a3 + a4);
    assert(a1 + a2 + a3 + a4 =~= a1 + (a2 + (a3 + a4)));
    lemma_seq_cat_subrange(s, pos, a1, a2 + (a3 + a4));
    lemma_seq_cat_subrange(s, pos + 4, a2, a3 + a4);
    lemma_seq_cat_subrange(s, pos + 8, a3, a4);
    crate::primitive::lemma_lit_round_trip(s, pos + 8, a3);
}

/// Parses a float property body at `pos`.
pub fn float_property(input: &[u8], pos: usize) -> (r: Result<(FloatProperty, usize), ParseError>)
    requires
        pos <= input@.len(),
    ensures
        parse_matches(r, spec_parse_float_property(input@, pos as int)),
        r matches Ok((v, n)) ==> {
            &&& n == pos + 13 <= input@.len()
            &&& spec_ser_float_property(v@) == input@.subrange(pos as int, n as int)
        },
{
    let (size, p1) = match read_u32(input, pos) {
        Ok(v) => v,
        Err(e) => {
            return Err(e);
        },
    };
    let (index, p2) = match read_u32(input, p1) {
        Ok(v) => v,
        Err(e) => {
            return Err(e);
        },
    };
    let sep: [u8; 1] = [0u8];
    assert(sep@ =~= zero_bytes(1));
    let p3 = match read_lit(input, p2, sep.as_slice()) {
        Ok(v) => v,
        Err(e) => {
            return Err(e);
        },
    };
    let (value, p4) = match read_u32(input, p3) {
        Ok(v) => v,
        Err(e) => {
            return Err(e);
        },
    };
    if size != 4 {
        return Err(
            ParseError::PropertySizeMismatch { name_start: 0, name_end: 0, expected: size, actual: 4 },
        );
    }
    let p = FloatProperty { index, value };
    proof {
        lemma_parse_float_property_ok(input@, pos as int);
    }
    Ok((p, p4))
}

/// Writes a float property body.
pub fn write_float_property(out: &mut Vec<u8>, p: &FloatProperty)
    ensures
        final(out)@ == old(out)@ + spec_ser_float_property(*p),
{
    write_u32(out, 4);
    write_u32(out, p.index);
    write_u8(out, 0u8);
    write_u32(out, p.value);
    assert(out@ =~= old(out)@ + spec_ser_float_property(*p)) by {
        assert(seq![0u8] =~= zero_bytes(1));
    }
}

} // verus!
