use crate::byte_property::{
    byte_property, byte_property_wf, is_none_tag, none_tag, spec_parse_byte_property,
    spec_ser_byte_property, write_byte_property, ByteProperty, SpecByteProperty,
};
use crate::error::ParseError;
use crate::float_property::{
    float_property, spec_parse_float_property, spec_ser_float_property, write_float_property,
    FloatProperty,
};
use crate::fstring::{fstr_wf, fstring, spec_parse_fstring, spec_ser_fstring, write_fstring, FStr};
use crate::object_property::{
    object_property, object_property_wf, spec_parse_object_property, spec_ser_object_property,
    write_object_property, ObjectProperty, SpecObjectProperty,
};
use crate::primitive::{
    lemma_parse_lit_ok, lemma_seq_cat_subrange, lemma_subrange_cat, parse_matches, read_lit,
    read_u32, spec_parse_lit, spec_parse_u32, write_u32, write_zeros, zero_bytes,
};
use vstd::bytes::{
    lemma_auto_spec_u32_to_from_le_bytes, spec_u32_from_le_bytes, spec_u32_to_le_bytes,
};
use vstd::prelude::*;

verus! {

/// The bytes of the literal tag `"ByteProperty\0"`.
pub open spec fn byte_tag() -> Seq<u8> {
    seq![
        0x42u8,
        0x79u8,
        0x74u8,
        0x65u8,
        0x50u8,
        0x72u8,
        0x6Fu8,
        0x70u8,
        0x65u8,
        0x72u8,
        0x74u8,
        0x79u8,
        0x00u8,
    ]
}

/// The bytes of the literal tag `"FloatProperty\0"`.
pub open spec fn float_tag() -> Seq<u8> {
    seq![
        0x46u8,
        0x6Cu8,
        0x6Fu8,
        0x61u8,
        0x74u8,
        0x50u8,
        0x72u8,
        0x6Fu8,
        0x70u8,
        0x65u8,
        0x72u8,
        0x74u8,
        0x79u8,
        0x00u8,
    ]
}

/// The bytes of the literal tag `"ObjectProperty\0"`.
pub open spec fn object_tag() -> Seq<u8> {
    seq![
        0x4Fu8,
        0x62u8,
        0x6Au8,
        0x65u8,
        0x63u8,
        0x74u8,
        0x50u8,
        0x72u8,
        0x6Fu8,
        0x70u8,
        0x65u8,
        0x72u8,
        0x74u8,
        0x79u8,
        0x00u8,
    ]
}

/// The bytes of the literal tag `"StructProperty\0"`.
pub open spec fn struct_tag() -> Seq<u8> {
    seq![
        0x53u8,
        0x74u8,
        0x72u8,
        0x75u8,
        0x63u8,
        0x74u8,
        0x50u8,
        0x72u8,
        0x6Fu8,
        0x70u8,
        0x65u8,
        0x72u8,
        0x74u8,
        0x79u8,
        0x00u8,
    ]
}

/// The bytes of the literal struct type tag `"LinearColor\0"`.
pub open spec fn lc_tag() -> Seq<u8> {
    seq![
        0x4Cu8,
        0x69u8,
        0x6Eu8,
        0x65u8,
        0x61u8,
        0x72u8,
        0x43u8,
        0x6Fu8,
        0x6Cu8,
        0x6Fu8,
        0x72u8,
        0x00u8,
    ]
}

/// All five literal tags are well-formed factory strings.
pub proof fn lemma_tags_wf()
    ensures
        fstr_wf(byte_tag()) && byte_tag().len() == 13,
        fstr_wf(float_tag()) && float_tag().len() == 14,
        fstr_wf(object_tag()) && object_tag().len() == 15,
        fstr_wf(struct_tag()) && struct_tag().len() == 15,
        fstr_wf(lc_tag()) && lc_tag().len() == 12,
{
    crate::utf8::lemma_ascii_is_utf8(byte_tag());
    crate::utf8::lemma_ascii_is_utf8(float_tag());
    crate::utf8::lemma_ascii_is_utf8(object_tag());
    crate::utf8::lemma_ascii_is_utf8(struct_tag());
    crate::utf8::lemma_ascii_is_utf8(lc_tag());
}

/// An RGBA color carried as four IEEE 754 bit patterns, kept verbatim.
#[derive(Debug, Clone, Copy, PartialEq, Eq, Structural)]
pub struct LinearColor {
    pub r: u32,
    pub g: u32,
    pub b: u32,
    pub a: u32,
}

impl View for LinearColor {
    type V = LinearColor;

    open spec fn view(&self) -> LinearColor {
        *self
    }
}

/// The wire encoding of a linear color: the four components in order.
pub open spec fn spec_ser_linear_color(lc: LinearColor) -> Seq<u8> {
    spec_u32_to_le_bytes(lc.r) + spec_u32_to_le_bytes(lc.g) + spec_u32_to_le_bytes(lc.b)
        + spec_u32_to_le_bytes(lc.a)
}

/// What parsing a linear color at `pos` yields.
pub open spec fn spec_parse_linear_color(s: Seq<u8>, pos: int) -> Result<
    (LinearColor, int),
    ParseError,
> {
    match spec_parse_u32(s, pos) {
        Err(e) => Err(e),
        Ok((r, p1)) => match spec_parse_u32(s, p1) {
            Err(e) => Err(e),
            Ok((g, p2)) => match spec_parse_u32(s, p2) {
                Err(e) => Err(e),
                Ok((b, p3)) => match spec_parse_u32(s, p3) {
                    Err(e) => Err(e),
                    Ok((a, p4)) => Ok((LinearColor { r, g, b, a }, p4)),
                },
            },
        },
    }
}

/// A successfully parsed linear color spans 16 bytes and re-serializes to
/// them.
pub proof fn lemma_parse_linear_color_ok(s: Seq<u8>, pos: int)
    requires
        0 <= pos <= s.len(),
        spec_parse_linear_color(s, pos) is Ok,
    ensures
        ({
            let (lc, n) = spec_parse_linear_color(s, pos)->Ok_0;
            &&& n == pos + 16
            &&& n <= s.len()
            &&& spec_ser_linear_color(lc) == s.subrange(pos, n)
        }),
{
    lemma_auto_spec_u32_to_from_le_bytes();
    let (lc, n) = spec_parse_linear_color(s, pos)->Ok_0;
    assert(spec_ser_linear_color(lc) =~= s.subrange(pos, n)) by {
        lemma_subrange_cat(s, pos, pos + 4, pos + 8);
        lemma_subrange_cat(s, pos, pos + 8, pos + 12);
        lemma_subrange_cat(s, pos, pos + 12, pos + 16);
    }
}

/// Serialized linear colors parse back to themselves.
pub proof fn lemma_linear_color_round_trip(s: Seq<u8>, pos: int, lc: LinearColor)
    requires
        0 <= pos,
        pos + 16 <= s.len(),
        s.subrange(pos, pos + 16) == spec_ser_linear_color(lc),
    ensures
        spec_parse_linear_color(s, pos) == Ok::<(LinearColor, int), ParseError>((lc, pos + 16)),
{
    lemma_auto_spec_u32_to_from_le_bytes();
    let a1 = spec_u32_to_le_bytes(lc.r);
    let a2 = spec_u32_to_le_bytes(lc.g);
    let a3 = spec_u32_to_le_bytes(lc.b);
    let a4 = spec_u32_to_le_bytes(lc.a);
    assert(a1 + a2 + a3 + a4 =~= a1 + (a2 + (a3 + a4)));
    lemma_seq_cat_subrange(s, pos, a1, a2 + (a3 + a4));
    lemma_seq_cat_subrange(s, pos + 4, a2, a3 + a4);
    lemma_seq_cat_subrange(s, pos + 8, a3, a4);
}

/// Parses a linear color at `pos`.
pub fn linear_color(input: &[u8], pos: usize) -> (r: Result<(LinearColor, usize), ParseError>)
    requires
        pos <= input@.len(),
    ensures
        parse_matches(r, spec_parse_linear_color(input@, pos as int)),
        r matches Ok((v, n)) ==> n == pos + 16 <= input@.len() && spec_ser_linear_color(v)
            == input@.subrange(pos as int, n as int),
{
    let (cr, p1) = match read_u32(input, pos) {
        Ok(v) => v,
        Err(e) => {
            return Err(e);
        },
    };
    let (cg, p2) = match read_u32(input, p1) {
        Ok(v) => v,
        Err(e) => {
            return Err(e);
        },
    };
    let (cb, p3) = match read_u32(input, p2) {
        Ok(v) => v,
        Err(e) => {
            return Err(e);
        },
    };
    let (ca, p4) = match read_u32(input, p3) {
        Ok(v) => v,
        Err(e) => {
            return Err(e);
        },
    };
    let lc = LinearColor { r: cr, g: cg, b: cb, a: ca };
    proof {
        lemma_parse_linear_color_ok(input@, pos as int);
    }
    Ok((lc, p4))
}

/// Writes a linear color.
pub fn write_linear_color(out: &mut Vec<u8>, lc: &LinearColor)
    ensures
        final(out)@ == old(out)@ + spec_ser_linear_color(*lc),
{
    write_u32(out, lc.r);
    write_u32(out, lc.g);
    write_u32(out, lc.b);
    write_u32(out, lc.a);
    assert(out@ =~= old(out)@ + spec_ser_linear_color(*lc));
}

/// The payload of a struct property: a known linear color, or any other
/// struct type carried as its wire name and a nested property list.
#[derive(Debug, PartialEq)]
pub enum StructDataType {
    LinearColor(LinearColor),
    Other { name: FStr, list: PropertyList },
}

/// A struct property body: its index and its payload.
#[derive(Debug, PartialEq)]
pub struct StructProperty {
    pub index: u32,
    pub data: StructDataType,
}

/// A property's typed body, discriminated on the wire by a tag string.
/// `Sentinel` is the `"None"`-named record that terminates every property
/// list.
#[derive(Debug, PartialEq)]
pub enum PropertyType {
    ByteProperty(ByteProperty),
    FloatProperty(FloatProperty),
    ObjectProperty(ObjectProperty),
    StructProperty(StructProperty),
    Sentinel,
}

/// A named property record.
#[derive(Debug, PartialEq)]
pub struct Property {
    pub name: FStr,
    pub property: PropertyType,
}

/// An ordered run of properties; the last one is always the sentinel.
#[derive(Debug, PartialEq)]
pub struct PropertyList(pub Vec<Property>);

/// The mathematical shape of a [`StructDataType`].
pub enum SpecStructDataType {
    LinearColor(LinearColor),
    Other { name: Seq<u8>, list: Seq<SpecProperty> },
}

/// The mathematical shape of a [`StructProperty`].
pub struct SpecStructProperty {
    pub index: u32,
    pub data: SpecStructDataType,
}

/// The mathematical shape of a [`PropertyType`].
pub enum SpecPropertyType {
    ByteProperty(SpecByteProperty),
    FloatProperty(FloatProperty),
    ObjectProperty(SpecObjectProperty),
    StructProperty(SpecStructProperty),
    Sentinel,
}

/// The mathematical shape of a [`Property`].
pub struct SpecProperty {
    pub name: Seq<u8>,
    pub property: SpecPropertyType,
}

/// The view of a struct payload.
pub open spec fn view_struct_data(d: StructDataType) -> SpecStructDataType
    decreases d,
{
    match d {
        StructDataType::LinearColor(lc) => SpecStructDataType::LinearColor(lc),
        StructDataType::Other { name, list } => SpecStructDataType::Other {
            name: name@,
            list: view_props(list.0@),
        },
    }
}

/// The view of a property body.
pub open spec fn view_prop_type(t: PropertyType) -> SpecPropertyType
    decreases t,
{
    match t {
        PropertyType::ByteProperty(bp) => SpecPropertyType::ByteProperty(bp@),
        PropertyType::FloatProperty(fp) => SpecPropertyType::FloatProperty(fp),
        PropertyType::ObjectProperty(op) => SpecPropertyType::ObjectProperty(op@),
        PropertyType::StructProperty(sp) => SpecPropertyType::StructProperty(
            SpecStructProperty { index: sp.index, data: view_struct_data(sp.data) },
        ),
        PropertyType::Sentinel => SpecPropertyType::Sentinel,
    }
}

/// The view of a run of properties.
pub open spec fn view_props(ps: Seq<Property>) -> Seq<SpecProperty>
    decreases ps,
{
    if ps.len() == 0 {
        Seq::empty()
    } else {
        seq![SpecProperty { name: ps[0].name@, property: view_prop_type(ps[0].property) }]
            + view_props(ps.skip(1))
    }
}

impl View for StructProperty {
    type V = SpecStructProperty;

    open spec fn view(&self) -> SpecStructProperty {
        SpecStructProperty { index: self.index, data: view_struct_data(self.data) }
    }
}

impl View for Property {
    type V = SpecProperty;

    open spec fn view(&self) -> SpecProperty {
        SpecProperty { name: self.name@, property: view_prop_type(self.property) }
    }
}

impl View for PropertyList {
    type V = Seq<SpecProperty>;

    open spec fn view(&self) -> Seq<SpecProperty> {
        view_props(self.0@)
    }
}

impl PropertyList {
    /// The properties as a slice, sentinel included.
    pub fn as_ref(&self) -> (r: &[Property])
        ensures
            r@ == self.0@,
    {
        self.0.as_slice()
    }
}

/// The sentinel record that ends every property list.
pub open spec fn sentinel_property() -> SpecProperty {
    SpecProperty { name: none_tag(), property: SpecPropertyType::Sentinel }
}

/// The wire encoding of a struct payload: its type tag string and its
/// payload bytes.
pub open spec fn spec_ser_struct_data(d: SpecStructDataType) -> (Seq<u8>, Seq<u8>)
    decreases d,
{
    match d {
        SpecStructDataType::LinearColor(lc) => (lc_tag(), spec_ser_linear_color(lc)),
        SpecStructDataType::Other { name, list } => (name, spec_ser_props(list)),
    }
}

/// The wire encoding of a struct property body: the payload size, the
/// index, the type tag, seventeen zero bytes, then the payload. The size
/// counts the payload alone.
pub open spec fn spec_ser_struct_property(sp: SpecStructProperty) -> Seq<u8>
    decreases sp,
{
    let (nm, payload) = spec_ser_struct_data(sp.data);
    spec_u32_to_le_bytes(payload.len() as u32) + spec_u32_to_le_bytes(sp.index) + spec_ser_fstring(
        nm,
    ) + zero_bytes(17) + payload
}

/// The wire encoding of a property body with its discriminating tag; the
/// sentinel has no body at all.
pub open spec fn spec_ser_prop_type(t: SpecPropertyType) -> Seq<u8>
    decreases t,
{
    match t {
        SpecPropertyType::ByteProperty(bp) => spec_ser_fstring(byte_tag()) + spec_ser_byte_property(
            bp,
        ),
        SpecPropertyType::FloatProperty(fp) => spec_ser_fstring(float_tag())
            + spec_ser_float_property(fp),
        SpecPropertyType::ObjectProperty(op) => spec_ser_fstring(object_tag())
            + spec_ser_object_property(op),
        SpecPropertyType::StructProperty(sp) => spec_ser_fstring(struct_tag())
            + spec_ser_struct_property(sp),
        SpecPropertyType::Sentinel => Seq::empty(),
    }
}

/// The wire encoding of one property: its name, then its tagged body.
pub open spec fn spec_ser_prop(p: SpecProperty) -> Seq<u8>
    decreases p,
{
    spec_ser_fstring(p.name) + spec_ser_prop_type(p.property)
}

/// The wire encoding of a run of properties, record after record.
pub open spec fn spec_ser_props(ps: Seq<SpecProperty>) -> Seq<u8>
    decreases ps,
{
    if ps.len() == 0 {
        Seq::empty()
    } else {
        spec_ser_prop(ps[0]) + spec_ser_props(ps.skip(1))
    }
}

/// Well-formed struct payload: an other-typed struct carries a well-formed
/// tag that is not `"LinearColor\0"`, a well-formed nested list, and a
/// payload small enough for its size field.
pub open spec fn struct_data_wf(d: SpecStructDataType) -> bool
    decreases d,
{
    match d {
        SpecStructDataType::LinearColor(_) => true,
        SpecStructDataType::Other { name, list } => {
            &&& fstr_wf(name)
            &&& name != lc_tag()
            &&& wf_props(list)
            &&& spec_ser_props(list).len() <= u32::MAX
        },
    }
}

/// Well-formed struct property body.
pub open spec fn struct_property_wf(sp: SpecStructProperty) -> bool
    decreases sp,
{
    struct_data_wf(sp.data)
}

/// Well-formed property body; a bare sentinel body under a non-sentinel
/// name is ill-formed.
pub open spec fn prop_type_wf(t: SpecPropertyType) -> bool
    decreases t,
{
    match t {
        SpecPropertyType::ByteProperty(bp) => byte_property_wf(bp),
        SpecPropertyType::FloatProperty(_) => true,
        SpecPropertyType::ObjectProperty(op) => object_property_wf(op),
        SpecPropertyType::StructProperty(sp) => struct_property_wf(sp),
        SpecPropertyType::Sentinel => false,
    }
}

/// Well-formed non-sentinel property: a well-formed name other than
/// `"None\0"` and a well-formed body.
pub open spec fn prop_item_wf(p: SpecProperty) -> bool
    decreases p,
{
    &&& fstr_wf(p.name)
    &&& p.name != none_tag()
    &&& prop_type_wf(p.property)
}

/// Well-formed property run: one or more records, every one before the
/// last a well-formed non-sentinel property, the last the sentinel.
pub open spec fn wf_props(ps: Seq<SpecProperty>) -> bool
    decreases ps,
{
    if ps.len() == 0 {
        false
    } else if ps.len() == 1 {
        ps[0] == sentinel_property()
    } else {
        prop_item_wf(ps[0]) && wf_props(ps.skip(1))
    }
}

/// In a well-formed property run the last record is the sentinel and no
/// earlier record is one.
pub proof fn lemma_wf_props_shape(ps: Seq<SpecProperty>)
    requires
        wf_props(ps),
    ensures
        ps.len() >= 1,
        ps.last() == sentinel_property(),
        forall|i: int|
            0 <= i < ps.len() - 1 ==> prop_item_wf(#[trigger] ps[i]) && ps[i].name != none_tag()
                && !(ps[i].property is Sentinel),
    decreases ps.len(),
{
    if ps.len() > 1 {
        lemma_wf_props_shape(ps.skip(1));
        assert(ps.skip(1).last() == ps.last());
        assert forall|i: int| 0 <= i < ps.len() - 1 implies prop_item_wf(#[trigger] ps[i])
            && ps[i].name != none_tag() && !(ps[i].property is Sentinel) by {
            if i > 0 {
                assert(ps.skip(1)[i - 1] == ps[i]);
            } else {
                assert(prop_item_wf(ps[0]));
                if ps[0].property is Sentinel {
                    assert(!prop_type_wf(ps[0].property));
                }
            }
        }
    }
}

/// Rewrites a size-mismatch error to carry the span of the property name
/// it belongs to; other errors pass through unchanged.
pub open spec fn patch_name(e: ParseError, start: int, end: int) -> ParseError {
    match e {
        ParseError::PropertySizeMismatch { name_start: _, name_end: _, expected, actual } => {
            ParseError::PropertySizeMismatch {
                name_start: start as usize,
                name_end: end as usize,
                expected,
                actual,
            }
        },
        _ => e,
    }
}

/// What parsing one property at `pos` yields: its name, then, unless the
/// name is the sentinel's, a tag-dispatched body. An unrecognized tag is a
/// fatal error naming the tag's span.
pub open spec fn spec_parse_property(s: Seq<u8>, pos: int) -> Result<(SpecProperty, int), ParseError>
    decreases s.len() - pos, 0int,
{
    match spec_parse_fstring(s, pos) {
        Err(e) => Err(e),
        Ok((name, p1)) => if name == none_tag() {
            Ok((SpecProperty { name, property: SpecPropertyType::Sentinel }, p1))
        } else {
            match spec_parse_fstring(s, p1) {
                Err(e) => Err(e),
                Ok((tag, p2)) => {
                    let body: Result<(SpecPropertyType, int), ParseError> = if tag == byte_tag() {
                        match spec_parse_byte_property(s, p2) {
                            Err(e) => Err(e),
                            Ok((bp, p3)) => Ok((SpecPropertyType::ByteProperty(bp), p3)),
                        }
                    } else if tag == float_tag() {
                        match spec_parse_float_property(s, p2) {
                            Err(e) => Err(e),
                            Ok((fp, p3)) => Ok((SpecPropertyType::FloatProperty(fp), p3)),
                        }
                    } else if tag == object_tag() {
                        match spec_parse_object_property(s, p2) {
                            Err(e) => Err(e),
                            Ok((op, p3)) => Ok((SpecPropertyType::ObjectProperty(op), p3)),
                        }
                    } else if tag == struct_tag() {
                        match spec_parse_struct_property(s, p2) {
                            Err(e) => Err(e),
                            Ok((sp, p3)) => Ok((SpecPropertyType::StructProperty(sp), p3)),
                        }
                    } else {
                        Err(
                            ParseError::UnknownPropertyKind {
                                start: (p1 + 4) as usize,
                                end: p2 as usize,
                            },
                        )
                    };
                    match body {
                        Err(e) => Err(patch_name(e, pos + 4, p1)),
                        Ok((pt, p3)) => Ok((SpecProperty { name, property: pt }, p3)),
                    }
                },
            }
        },
    }
}

/// What parsing a struct property body at `pos` yields. The declared size
/// must match the payload bytes alone; the bounds test on the nested
/// list's start keeps the recursion inside the input and never fails on
/// positions the string and separator parsers produce.
pub open spec fn spec_parse_struct_property(s: Seq<u8>, pos: int) -> Result<
    (SpecStructProperty, int),
    ParseError,
>
    decreases s.len() - pos, 0int,
{
    match spec_parse_u32(s, pos) {
        Err(e) => Err(e),
        Ok((size, p1)) => match spec_parse_u32(s, p1) {
            Err(e) => Err(e),
            Ok((index, p2)) => match spec_parse_fstring(s, p2) {
                Err(e) => Err(e),
                Ok((tag, p3)) => match spec_parse_lit(s, p3, zero_bytes(17)) {
                    Err(e) => Err(e),
                    Ok((_, p4)) => if tag == lc_tag() {
                        match spec_parse_linear_color(s, p4) {
                            Err(e) => Err(e),
                            Ok((lc, p5)) => if size != 16 {
                                Err(
                                    ParseError::PropertySizeMismatch {
                                        name_start: 0,
                                        name_end: 0,
                                        expected: size,
                                        actual: 16,
                                    },
                                )
                            } else {
                                Ok(
                                    (
                                        SpecStructProperty {
                                            index,
                                            data: SpecStructDataType::LinearColor(lc),
                                        },
                                        p5,
                                    ),
                                )
                            },
                        }
                    } else if !(p3 < p4 && p4 <= s.len()) {
                        Err(ParseError::UnexpectedEndOfInput { offset: p3 as usize })
                    } else {
                        match spec_parse_props(s, p4) {
                            Err(e) => Err(e),
                            Ok((list, p5)) => if size != p5 - p4 {
                                Err(
                                    ParseError::PropertySizeMismatch {
                                        name_start: 0,
                                        name_end: 0,
                                        expected: size,
                                        actual: (p5 - p4) as u32,
                                    },
                                )
                            } else {
                                Ok(
                                    (
                                        SpecStructProperty {
                                            index,
                                            data: SpecStructDataType::Other { name: tag, list },
                                        },
                                        p5,
                                    ),
                                )
                            },
                        }
                    },
                },
            },
        },
    }
}

/// What parsing a property run at `pos` yields: records up to and
/// including the sentinel. The bounds test on each record's end keeps the
/// recursion inside the input and never fails on positions the record
/// parsers produce.
pub open spec fn spec_parse_props(s: Seq<u8>, pos: int) -> Result<
    (Seq<SpecProperty>, int),
    ParseError,
>
    decreases s.len() - pos, 1int,
{
    match spec_parse_property(s, pos) {
        Err(e) => Err(e),
        Ok((p, p1)) => if p.property is Sentinel {
            Ok((seq![p], p1))
        } else if !(pos < p1 && p1 <= s.len()) {
            Err(ParseError::UnexpectedEndOfInput { offset: pos as usize })
        } else {
            match spec_parse_props(s, p1) {
                Err(e) => Err(e),
                Ok((rest, n)) => Ok((seq![p] + rest, n)),
            }
        },
    }
}

/// A successfully parsed property is the sentinel or a well-formed
/// non-sentinel record, and re-serializes to the bytes consumed.
pub proof fn lemma_parse_property_ok(s: Seq<u8>, pos: int)
    requires
        0 <= pos <= s.len(),
        spec_parse_property(s, pos) is Ok,
    ensures
        ({
            let (p, n) = spec_parse_property(s, pos)->Ok_0;
            &&& pos < n <= s.len()
            &&& (p.property is Sentinel <==> p == sentinel_property())
            &&& p.property is Sentinel ==> n == pos + 9
            &&& (p == sentinel_property() || prop_item_wf(p))
            &&& spec_ser_prop(p) == s.subrange(pos, n)
        }),
    decreases s.len() - pos, 0int,
{
    let (p, n) = spec_parse_property(s, pos)->Ok_0;
    let (name, p1) = spec_parse_fstring(s, pos)->Ok_0;
    crate::fstring::lemma_parse_fstring_ok(s, pos);
    lemma_tags_wf();
    crate::byte_property::lemma_none_tag_wf();
    if name == none_tag() {
        assert(spec_ser_prop(p) =~= spec_ser_fstring(name));
    } else {
        let (tag, p2) = spec_parse_fstring(s, p1)->Ok_0;
        crate::fstring::lemma_parse_fstring_ok(s, p1);
        assert(!(p.property is Sentinel));
        if tag == byte_tag() {
            crate::byte_property::lemma_parse_byte_property_ok(s, p2);
        } else if tag == float_tag() {
            crate::float_property::lemma_parse_float_property_ok(s, p2);
        } else if tag == object_tag() {
            crate::object_property::lemma_parse_object_property_ok(s, p2);
        } else {
            lemma_parse_struct_property_ok(s, p2);
        }
        lemma_subrange_cat(s, pos, p1, p2);
        lemma_subrange_cat(s, pos, p2, n);
        assert(spec_ser_prop(p) =~= s.subrange(pos, n)) by {
            assert(s.subrange(pos, p1) + s.subrange(p1, p2) =~= s.subrange(pos, p2));
        }
    }
}

/// A successfully parsed struct property body is well-formed and
/// re-serializes to the bytes consumed.
pub proof fn lemma_parse_struct_property_ok(s: Seq<u8>, pos: int)
    requires
        0 <= pos <= s.len(),
        spec_parse_struct_property(s, pos) is Ok,
    ensures
        ({
            let (sp, n) = spec_parse_struct_property(s, pos)->Ok_0;
            &&& pos < n <= s.len()
            &&& struct_property_wf(sp)
            &&& spec_ser_struct_property(sp) == s.subrange(pos, n)
        }),
    decreases s.len() - pos, 0int,
{
    let (sp, n) = spec_parse_struct_property(s, pos)->Ok_0;
    lemma_auto_spec_u32_to_from_le_bytes();
    lemma_tags_wf();
    let size = spec_u32_from_le_bytes(s.subrange(pos, pos + 4));
    let (tag, p3) = spec_parse_fstring(s, pos + 8)->Ok_0;
    crate::fstring::lemma_parse_fstring_ok(s, pos + 8);
    lemma_parse_lit_ok(s, p3, zero_bytes(17));
    let p4 = p3 + 17;
    let (nm, payload) = spec_ser_struct_data(sp.data);
    if tag == lc_tag() {
        lemma_parse_linear_color_ok(s, p4);
        assert(payload.len() == 16);
    } else {
        lemma_parse_props_ok(s, p4);
        let (list, p5) = spec_parse_props(s, p4)->Ok_0;
        assert(payload == spec_ser_props(list));
        assert(payload.len() == p5 - p4);
        assert(payload.len() <= u32::MAX);
    }
    assert(spec_u32_to_le_bytes(payload.len() as u32) == s.subrange(pos, pos + 4));
    assert(spec_ser_struct_property(sp) =~= s.subrange(pos, n)) by {
        lemma_subrange_cat(s, pos, pos + 4, pos + 8);
        lemma_subrange_cat(s, pos, pos + 8, p3);
        lemma_subrange_cat(s, pos, p3, p4);
        lemma_subrange_cat(s, pos, p4, n);
    }
}

/// A successfully parsed property run is well-formed (sentinel last) and
/// re-serializes to the bytes consumed.
pub proof fn lemma_parse_props_ok(s: Seq<u8>, pos: int)
    requires
        0 <= pos <= s.len(),
        spec_parse_props(s, pos) is Ok,
    ensures
        ({
            let (ps, n) = spec_parse_props(s, pos)->Ok_0;
            &&& pos < n <= s.len()
            &&& wf_props(ps)
            &&& spec_ser_props(ps) == s.subrange(pos, n)
        }),
    decreases s.len() - pos, 1int,
{
    let (ps, n) = spec_parse_props(s, pos)->Ok_0;
    let (p, p1) = spec_parse_property(s, pos)->Ok_0;
    lemma_parse_property_ok(s, pos);
    if p.property is Sentinel {
        assert(ps == seq![p]);
        assert(ps[0] == sentinel_property());
        assert(spec_ser_props(Seq::<SpecProperty>::empty()) == Seq::<u8>::empty());
        assert(seq![p].skip(1) =~= Seq::<SpecProperty>::empty());
        assert(spec_ser_props(ps) =~= spec_ser_prop(p));
    } else {
        lemma_parse_props_ok(s, p1);
        let (rest, _) = spec_parse_props(s, p1)->Ok_0;
        assert(ps == seq![p] + rest);
        assert(ps[0] == p);
        assert(ps.skip(1) =~= rest);
        assert(ps.len() >= 2) by {
            assert(rest.len() >= 1);
        }
        lemma_subrange_cat(s, pos, p1, n);
        assert(spec_ser_props(ps) == s.subrange(pos, n));
        assert(!(p == sentinel_property()));
        assert(prop_item_wf(ps[0]));
        assert(wf_props(ps));
    }
}

/// Serialized properties (the sentinel, or well-formed records) parse back
/// to themselves.
pub proof fn lemma_property_round_trip(s: Seq<u8>, pos: int, p: SpecProperty)
    requires
        p == sentinel_property() || prop_item_wf(p),
        0 <= pos,
        pos + spec_ser_prop(p).len() <= s.len(),
        s.subrange(pos, pos + spec_ser_prop(p).len()) == spec_ser_prop(p),
    ensures
        spec_parse_property(s, pos) == Ok::<(SpecProperty, int), ParseError>(
            (p, pos + spec_ser_prop(p).len()),
        ),
    decreases spec_ser_prop(p).len(), 0int,
{
    lemma_auto_spec_u32_to_from_le_bytes();
    lemma_tags_wf();
    crate::byte_property::lemma_none_tag_wf();
    let a = spec_ser_fstring(p.name);
    let b = spec_ser_prop_type(p.property);
    assert(spec_ser_prop(p) == a + b);
    lemma_seq_cat_subrange(s, pos, a, b);
    crate::fstring::lemma_fstring_round_trip(s, pos, p.name);
    let p1 = pos + a.len();
    if p == sentinel_property() {
        assert(b =~= Seq::<u8>::empty());
        assert(pos + spec_ser_prop(p).len() == p1);
    } else {
        assert(p.name != none_tag());
        match p.property {
            SpecPropertyType::ByteProperty(bp) => {
                let t = spec_ser_fstring(byte_tag());
                let v = spec_ser_byte_property(bp);
                assert(b == t + v);
                lemma_seq_cat_subrange(s, p1, t, v);
                crate::fstring::lemma_fstring_round_trip(s, p1, byte_tag());
                crate::byte_property::lemma_byte_property_round_trip(s, p1 + t.len(), bp);
                assert(byte_tag() != none_tag());
            },
            SpecPropertyType::FloatProperty(fp) => {
                let t = spec_ser_fstring(float_tag());
                let v = spec_ser_float_property(fp);
                assert(b == t + v);
                lemma_seq_cat_subrange(s, p1, t, v);
                crate::fstring::lemma_fstring_round_trip(s, p1, float_tag());
                assert(v.len() == 13);
                crate::float_property::lemma_float_property_round_trip(s, p1 + t.len(), fp);
                assert(float_tag() != none_tag() && float_tag() != byte_tag());
            },
            SpecPropertyType::ObjectProperty(op) => {
                let t = spec_ser_fstring(object_tag());
                let v = spec_ser_object_property(op);
                assert(b == t + v);
                lemma_seq_cat_subrange(s, p1, t, v);
                crate::fstring::lemma_fstring_round_trip(s, p1, object_tag());
                assert(v.len() == 17 + op.reference.len());
                crate::object_property::lemma_object_property_round_trip(s, p1 + t.len(), op);
                assert(object_tag() != none_tag() && object_tag() != byte_tag() && object_tag()
                    != float_tag());
            },
            SpecPropertyType::StructProperty(sp) => {
                let t = spec_ser_fstring(struct_tag());
                let v = spec_ser_struct_property(sp);
                assert(b == t + v);
                lemma_seq_cat_subrange(s, p1, t, v);
                crate::fstring::lemma_fstring_round_trip(s, p1, struct_tag());
                assert(v.len() < spec_ser_prop(p).len());
                lemma_struct_property_round_trip(s, p1 + t.len(), sp);
                assert(struct_tag() != none_tag() && struct_tag() != byte_tag() && struct_tag()
                    != float_tag() && struct_tag() != object_tag());
            },
            SpecPropertyType::Sentinel => {
                assert(false);
            },
        }
    }
}

/// Serialized well-formed struct property bodies parse back to themselves.
pub proof fn lemma_struct_property_round_trip(s: Seq<u8>, pos: int, sp: SpecStructProperty)
    requires
        struct_property_wf(sp),
        0 <= pos,
        pos + spec_ser_struct_property(sp).len() <= s.len(),
        s.subrange(pos, pos + spec_ser_struct_property(sp).len()) == spec_ser_struct_property(sp),
    ensures
        spec_parse_struct_property(s, pos) == Ok::<(SpecStructProperty, int), ParseError>(
            (sp, pos + spec_ser_struct_property(sp).len()),
        ),
    decreases spec_ser_struct_property(sp).len(), 0int,
{
    lemma_auto_spec_u32_to_from_le_bytes();
    lemma_tags_wf();
    let (nm, payload) = spec_ser_struct_data(sp.data);
    let a1 = spec_u32_to_le_bytes(payload.len() as u32);
    let a2 = spec_u32_to_le_bytes(sp.index);
    let a3 = spec_ser_fstring(nm);
    let a4 = zero_bytes(17);
    assert(spec_ser_struct_property(sp) == a1 + a2 + a3 + a4 + payload);
    assert(a1 + a2 + a3 + a4 + payload =~= a1 + (a2 + (a3 + (a4 + payload))));
    lemma_seq_cat_subrange(s, pos, a1, a2 + (a3 + (a4 + payload)));
    lemma_seq_cat_subrange(s, pos + 4, a2, a3 + (a4 + payload));
    lemma_seq_cat_subrange(s, pos + 8, a3, a4 + payload);
    let p3 = pos + 8 + a3.len();
    lemma_seq_cat_subrange(s, p3, a4, payload);
    let p4 = p3 + 17;
    match sp.data {
        SpecStructDataType::LinearColor(lc) => {
            assert(fstr_wf(nm));
        },
        SpecStructDataType::Other { name, list } => {
            assert(fstr_wf(nm));
            assert(payload.len() <= u32::MAX);
        },
    }
    crate::fstring::lemma_fstring_round_trip(s, pos + 8, nm);
    crate::primitive::lemma_lit_round_trip(s, p3, a4);
    match sp.data {
        SpecStructDataType::LinearColor(lc) => {
            assert(nm == lc_tag());
            lemma_linear_color_round_trip(s, p4, lc);
        },
        SpecStructDataType::Other { name, list } => {
            assert(nm == name && name != lc_tag());
            assert(payload.len() > 0) by {
                lemma_ser_props_min_len(list);
            }
            lemma_props_round_trip(s, p4, list);
        },
    }
}

/// Serialized well-formed property runs parse back to themselves.
pub proof fn lemma_props_round_trip(s: Seq<u8>, pos: int, ps: Seq<SpecProperty>)
    requires
        wf_props(ps),
        0 <= pos,
        pos + spec_ser_props(ps).len() <= s.len(),
        s.subrange(pos, pos + spec_ser_props(ps).len()) == spec_ser_props(ps),
    ensures
        spec_parse_props(s, pos) == Ok::<(Seq<SpecProperty>, int), ParseError>(
            (ps, pos + spec_ser_props(ps).len()),
        ),
    decreases spec_ser_props(ps).len(), 1int,
{
    lemma_auto_spec_u32_to_from_le_bytes();
    crate::byte_property::lemma_none_tag_wf();
    let p = ps[0];
    let a = spec_ser_prop(p);
    let rest_ser = spec_ser_props(ps.skip(1));
    assert(spec_ser_props(ps) == a + rest_ser);
    lemma_seq_cat_subrange(s, pos, a, rest_ser);
    if ps.len() == 1 {
        assert(p == sentinel_property());
        assert(rest_ser =~= Seq::<u8>::empty());
        lemma_property_round_trip(s, pos, p);
        assert(seq![p] =~= ps);
        assert(pos + spec_ser_props(ps).len() == pos + a.len());
    } else {
        assert(prop_item_wf(p));
        assert(rest_ser.len() > 0) by {
            lemma_ser_props_min_len(ps.skip(1));
        }
        lemma_property_round_trip(s, pos, p);
        let p1 = pos + a.len();
        assert(!(p.property is Sentinel)) by {
            if p.property is Sentinel {
                assert(!prop_type_wf(p.property));
            }
        }
        assert(a.len() > 0) by {
            assert(spec_ser_fstring(p.name).len() == 4 + p.name.len());
        }
        lemma_props_round_trip(s, p1, ps.skip(1));
        assert(seq![p] + ps.skip(1) =~= ps);
    }
}

/// A well-formed property run serializes to at least the sentinel's nine
/// bytes.
pub proof fn lemma_ser_props_min_len(ps: Seq<SpecProperty>)
    requires
        wf_props(ps),
    ensures
        spec_ser_props(ps).len() >= 9,
    decreases ps.len(),
{
    lemma_auto_spec_u32_to_from_le_bytes();
    crate::byte_property::lemma_none_tag_wf();
    if ps.len() == 1 {
        assert(spec_ser_prop(ps[0]).len() >= 9) by {
            assert(spec_ser_fstring(ps[0].name).len() == 4 + ps[0].name.len());
        }
    } else {
        lemma_ser_props_min_len(ps.skip(1));
    }
}

/// The serialization of a property run splits at any index.
pub proof fn lemma_ser_props_split(ps: Seq<SpecProperty>, i: int)
    requires
        0 <= i <= ps.len(),
    ensures
        spec_ser_props(ps) == spec_ser_props(ps.take(i)) + spec_ser_props(ps.skip(i)),
    decreases i,
{
    if i == 0 {
        assert(ps.take(0) =~= Seq::<SpecProperty>::empty());
        assert(ps.skip(0) =~= ps);
        assert(spec_ser_props(ps.take(0)) + spec_ser_props(ps) =~= spec_ser_props(ps));
    } else {
        lemma_ser_props_split(ps.skip(1), i - 1);
        assert(ps.take(i)[0] == ps[0]);
        assert(ps.take(i).skip(1) =~= ps.skip(1).take(i - 1));
        assert(ps.skip(i) =~= ps.skip(1).skip(i - 1));
        assert(spec_ser_prop(ps[0]) + (spec_ser_props(ps.skip(1).take(i - 1)) + spec_ser_props(
            ps.skip(i),
        )) =~= (spec_ser_prop(ps[0]) + spec_ser_props(ps.skip(1).take(i - 1))) + spec_ser_props(
            ps.skip(i),
        ));
    }
}

/// The view of a run of exec properties indexes and measures like the run
/// itself.
pub proof fn lemma_view_props_index(ps: Seq<Property>)
    ensures
        view_props(ps).len() == ps.len(),
        forall|i: int| 0 <= i < ps.len() ==> view_props(ps)[i] == (#[trigger] ps[i])@,
    decreases ps.len(),
{
    if ps.len() > 0 {
        lemma_view_props_index(ps.skip(1));
        assert forall|i: int| 0 <= i < ps.len() implies view_props(ps)[i] == (#[trigger] ps[i])@ by {
            if i > 0 {
                assert(ps.skip(1)[i - 1] == ps[i]);
                assert(view_props(ps)[i] == view_props(ps.skip(1))[i - 1]);
            }
        }
    }
}

/// Appending one exec property appends its view.
pub proof fn lemma_view_props_push(ps: Seq<Property>, p: Property)
    ensures
        view_props(ps.push(p)) == view_props(ps) + seq![p@],
    decreases ps.len(),
{
    assert(view_props(Seq::<Property>::empty()) == Seq::<SpecProperty>::empty());
    if ps.len() == 0 {
        assert(ps.push(p)[0] == p);
        assert(ps.push(p).skip(1) =~= Seq::<Property>::empty());
        assert(ps =~= Seq::<Property>::empty());
        assert(view_props(ps.push(p)) =~= view_props(ps) + seq![p@]);
    } else {
        lemma_view_props_push(ps.skip(1), p);
        assert(ps.push(p)[0] == ps[0]);
        assert(ps.push(p).skip(1) =~= ps.skip(1).push(p));
        assert(view_props(ps.push(p)) =~= view_props(ps) + seq![p@]);
    }
}

/// Dropping the last record of a run drops its serialization.
pub proof fn lemma_ser_props_snoc(ps: Seq<SpecProperty>)
    requires
        ps.len() >= 1,
    ensures
        spec_ser_props(ps) == spec_ser_props(ps.drop_last()) + spec_ser_prop(ps.last()),
    decreases ps.len(),
{
    if ps.len() == 1 {
        assert(ps.drop_last() =~= Seq::<SpecProperty>::empty());
        assert(spec_ser_props(Seq::<SpecProperty>::empty()) == Seq::<u8>::empty());
        assert(ps.skip(1) =~= Seq::<SpecProperty>::empty());
        assert(spec_ser_props(ps.drop_last()) + spec_ser_prop(ps.last()) =~= spec_ser_props(ps));
    } else {
        lemma_ser_props_snoc(ps.skip(1));
        assert(ps.skip(1).drop_last() =~= ps.drop_last().skip(1));
        assert(ps.drop_last()[0] == ps[0]);
        assert(ps.skip(1).last() == ps.last());
        assert(spec_ser_props(ps.drop_last()) + spec_ser_prop(ps.last()) =~= spec_ser_prop(ps[0])
            + (spec_ser_props(ps.drop_last().skip(1)) + spec_ser_prop(ps.last())));
    }
}

/// Decides whether the string holds exactly `"ByteProperty\0"`.
fn is_byte_tag(fs: &FStr) -> (r: bool)
    ensures
        r == (fs@ == byte_tag()),
{
    let t: [u8; 13] = [
        0x42u8,
        0x79u8,
        0x74u8,
        0x65u8,
        0x50u8,
        0x72u8,
        0x6Fu8,
        0x70u8,
        0x65u8,
        0x72u8,
        0x74u8,
        0x79u8,
        0x00u8,
    ];
    assert(t@ =~= byte_tag());
    crate::primitive::bytes_eq(fs.content.as_slice(), t.as_slice())
}

/// Decides whether the string holds exactly `"FloatProperty\0"`.
fn is_float_tag(fs: &FStr) -> (r: bool)
    ensures
        r == (fs@ == float_tag()),
{
    let t: [u8; 14] = [
        0x46u8,
        0x6Cu8,
        0x6Fu8,
        0x61u8,
        0x74u8,
        0x50u8,
        0x72u8,
        0x6Fu8,
        0x70u8,
        0x65u8,
        0x72u8,
        0x74u8,
        0x79u8,
        0x00u8,
    ];
    assert(t@ =~= float_tag());
    crate::primitive::bytes_eq(fs.content.as_slice(), t.as_slice())
}

/// Decides whether the string holds exactly `"ObjectProperty\0"`.
fn is_object_tag(fs: &FStr) -> (r: bool)
    ensures
        r == (fs@ == object_tag()),
{
    let t: [u8; 15] = [
        0x4Fu8,
        0x62u8,
        0x6Au8,
        0x65u8,
        0x63u8,
        0x74u8,
        0x50u8,
        0x72u8,
        0x6Fu8,
        0x70u8,
        0x65u8,
        0x72u8,
        0x74u8,
        0x79u8,
        0x00u8,
    ];
    assert(t@ =~= object_tag());
    crate::primitive::bytes_eq(fs.content.as_slice(), t.as_slice())
}

/// Decides whether the string holds exactly `"StructProperty\0"`.
fn is_struct_tag(fs: &FStr) -> (r: bool)
    ensures
        r == (fs@ == struct_tag()),
{
    let t: [u8; 15] = [
        0x53u8,
        0x74u8,
        0x72u8,
        0x75u8,
        0x63u8,
        0x74u8,
        0x50u8,
        0x72u8,
        0x6Fu8,
        0x70u8,
        0x65u8,
        0x72u8,
        0x74u8,
        0x79u8,
        0x00u8,
    ];
    assert(t@ =~= struct_tag());
    crate::primitive::bytes_eq(fs.content.as_slice(), t.as_slice())
}

/// Decides whether the string holds exactly `"LinearColor\0"`.
fn is_lc_tag(fs: &FStr) -> (r: bool)
    ensures
        r == (fs@ == lc_tag()),
{
    let t: [u8; 12] = [
        0x4Cu8,
        0x69u8,
        0x6Eu8,
        0x65u8,
        0x61u8,
        0x72u8,
        0x43u8,
        0x6Fu8,
        0x6Cu8,
        0x6Fu8,
        0x72u8,
        0x00u8,
    ];
    assert(t@ =~= lc_tag());
    crate::primitive::bytes_eq(fs.content.as_slice(), t.as_slice())
}

/// Rewrites a size-mismatch error to carry its property name's span.
fn patch_name_err(e: ParseError, start: usize, end: usize) -> (r: ParseError)
    ensures
        r == patch_name(e, start as int, end as int),
{
    match e {
        ParseError::PropertySizeMismatch { expected, actual, .. } => {
            ParseError::PropertySizeMismatch { name_start: start, name_end: end, expected, actual }
        },
        _ => e,
    }
}

/// Parses one property at `pos`: the sentinel, or a named, tag-dispatched
/// record.
pub fn property(input: &[u8], pos: usize) -> (r: Result<(Property, usize), ParseError>)
    requires
        pos <= input@.len(),
    ensures
        parse_matches(r, spec_parse_property(input@, pos as int)),
        r matches Ok((v, n)) ==> {
            &&& pos < n <= input@.len()
            &&& (v@.property is Sentinel <==> v@ == sentinel_property())
            &&& (v@ == sentinel_property() || prop_item_wf(v@))
            &&& spec_ser_prop(v@) == input@.subrange(pos as int, n as int)
        },
    decreases input@.len() - pos, 0int,
{
    let (name, p1) = match fstring(input, pos) {
        Ok(v) => v,
        Err(e) => {
            return Err(e);
        },
    };
    if is_none_tag(&name) {
        let p = Property { name, property: PropertyType::Sentinel };
        proof {
            lemma_parse_property_ok(input@, pos as int);
        }
        return Ok((p, p1));
    }
    let (tag, p2) = match fstring(input, p1) {
        Ok(v) => v,
        Err(e) => {
            return Err(e);
        },
    };
    let body: Result<(PropertyType, usize), ParseError> = if is_byte_tag(&tag) {
        match byte_property(input, p2) {
            Ok((bp, p3)) => Ok((PropertyType::ByteProperty(bp), p3)),
            Err(e) => Err(e),
        }
    } else if is_float_tag(&tag) {
        match float_property(input, p2) {
            Ok((fp, p3)) => Ok((PropertyType::FloatProperty(fp), p3)),
            Err(e) => Err(e),
        }
    } else if is_object_tag(&tag) {
        match object_property(input, p2) {
            Ok((op, p3)) => Ok((PropertyType::ObjectProperty(op), p3)),
            Err(e) => Err(e),
        }
    } else if is_struct_tag(&tag) {
        match struct_property(input, p2) {
            Ok((sp, p3)) => Ok((PropertyType::StructProperty(sp), p3)),
            Err(e) => Err(e),
        }
    } else {
        Err(ParseError::UnknownPropertyKind { start: p1 + 4, end: p2 })
    };
    match body {
        Err(e) => Err(patch_name_err(e, pos + 4, p1)),
        Ok((pt, p3)) => {
            let p = Property { name, property: pt };
            proof {
                lemma_parse_property_ok(input@, pos as int);
            }
            Ok((p, p3))
        },
    }
}

/// Parses a struct property body at `pos`.
pub fn struct_property(input: &[u8], pos: usize) -> (r: Result<(StructProperty, usize), ParseError>)
    requires
        pos <= input@.len(),
    ensures
        parse_matches(r, spec_parse_struct_property(input@, pos as int)),
        r matches Ok((v, n)) ==> {
            &&& pos < n <= input@.len()
            &&& struct_property_wf(v@)
            &&& spec_ser_struct_property(v@) == input@.subrange(pos as int, n as int)
        },
    decreases input@.len() - pos, 0int,
{
    let (size, p1) = match read_u32(input, pos) {
        Ok(v) => v,
        Err(e) => {
            return Err(e);
        },
    };
    let (index, p2) = match read_u32(input, p1) {
        Ok(v) => v,
        Err(e) => {
            return Err(e);
        },
    };
    let (tag, p3) = match fstring(input, p2) {
        Ok(v) => v,
        Err(e) => {
            return Err(e);
        },
    };
    let sep: [u8; 17] = [0u8; 17];
    assert(sep@ =~= zero_bytes(17));
    let p4 = match read_lit(input, p3, sep.as_slice()) {
        Ok(v) => v,
        Err(e) => {
            return Err(e);
        },
    };
    if is_lc_tag(&tag) {
        let (lc, p5) = match linear_color(input, p4) {
            Ok(v) => v,
            Err(e) => {
                return Err(e);
            },
        };
        if size != 16 {
            return Err(
                ParseError::PropertySizeMismatch {
                    name_start: 0,
                    name_end: 0,
                    expected: size,
                    actual: 16,
                },
            );
        }
        let sp = StructProperty { index, data: StructDataType::LinearColor(lc) };
        proof {
            lemma_parse_struct_property_ok(input@, pos as int);
        }
        Ok((sp, p5))
    } else {
        let (list, p5) = match property_list(input, p4) {
            Ok(v) => v,
            Err(e) => {
                return Err(e);
            },
        };
        if (size as usize) != p5 - p4 {
            let actual = #[verifier::truncate] ((p5 - p4) as u32);
            assert(actual == ((p5 - p4) as int) as u32);
            return Err(
                ParseError::PropertySizeMismatch {
                    name_start: 0,
                    name_end: 0,
                    expected: size,
                    actual,
                },
            );
        }
        let sp = StructProperty { index, data: StructDataType::Other { name: tag, list } };
        proof {
            lemma_parse_struct_property_ok(input@, pos as int);
        }
        Ok((sp, p5))
    }
}

/// Parses a property run at `pos`: records up to and including the
/// sentinel that ends the list.
pub fn property_list(input: &[u8], pos: usize) -> (r: Result<(PropertyList, usize), ParseError>)
    requires
        pos <= input@.len(),
    ensures
        match r {
            Ok((v, n)) => {
                &&& spec_parse_props(input@, pos as int) == Ok::<
                    (Seq<SpecProperty>, int),
                    ParseError,
                >((v@, n as int))
                &&& pos < n <= input@.len()
                &&& wf_props(v@)
                &&& spec_ser_props(v@) == input@.subrange(pos as int, n as int)
            },
            Err(e) => spec_parse_props(input@, pos as int) == Err::<
                (Seq<SpecProperty>, int),
                ParseError,
            >(e),
        },
    decreases input@.len() - pos, 1int,
{
    let ghost s = input@;
    let mut acc: Vec<Property> = Vec::new();
    let mut cur = pos;
    proof {
        assert(view_props(acc@) =~= Seq::<SpecProperty>::empty());
        let full = spec_parse_props(s, pos as int);
        if full is Ok {
            let (rest, n) = full->Ok_0;
            assert(view_props(acc@) + rest =~= rest);
        }
    }
    loop
        invariant
            pos <= cur <= s.len(),
            s == input@,
            spec_parse_props(s, pos as int) == (match spec_parse_props(s, cur as int) {
                Ok((rest, n)) => Ok::<(Seq<SpecProperty>, int), ParseError>(
                    (view_props(acc@) + rest, n),
                ),
                Err(e) => Err::<(Seq<SpecProperty>, int), ParseError>(e),
            }),
        decreases s.len() - cur,
    {
        let ghost acc0 = acc@;
        let (p, n) = match property(input, cur) {
            Ok(v) => v,
            Err(e) => {
                return Err(e);
            },
        };
        let ghost pv = p@;
        let is_sent = match &p.property {
            PropertyType::Sentinel => true,
            _ => false,
        };
        assert(is_sent == (pv.property is Sentinel));
        proof {
            lemma_view_props_push(acc0, p);
        }
        acc.push(p);
        if is_sent {
            proof {
                assert(spec_parse_props(s, pos as int) == Ok::<
                    (Seq<SpecProperty>, int),
                    ParseError,
                >((view_props(acc0) + seq![pv], n as int)));
                assert(view_props(acc@) == view_props(acc0) + seq![pv]);
                lemma_parse_props_ok(s, pos as int);
            }
            return Ok((PropertyList(acc), n));
        }
        proof {
            if spec_parse_props(s, n as int) is Ok {
                let (rest, m) = spec_parse_props(s, n as int)->Ok_0;
                assert(view_props(acc0) + (seq![pv] + rest) =~= view_props(acc@) + rest);
            }
        }
        cur = n;
    }
}

impl Property {
    /// The number of bytes this record occupies on the wire, name and tag
    /// included.
    pub fn size(&self) -> (r: u32)
        requires
            self@ == sentinel_property() || prop_item_wf(self@),
            spec_ser_prop(self@).len() <= u32::MAX,
        ensures
            r == spec_ser_prop(self@).len(),
        decreases *self,
    {
        proof {
            lemma_auto_spec_u32_to_from_le_bytes();
            lemma_tags_wf();
            crate::byte_property::lemma_none_tag_wf();
        }
        let name64 = (self.name.content.len() as u64) + 4;
        let total64: u64 = match &self.property {
            PropertyType::Sentinel => name64,
            PropertyType::ByteProperty(bp) => {
                proof {
                    if bp@.value is FString {
                        assert(spec_ser_byte_property(bp@).len() == 12
                            + bp@.value->FString_0.len());
                    }
                }
                name64 + 17 + (bp.size() as u64)
            },
            PropertyType::FloatProperty(_) => name64 + 18 + 13,
            PropertyType::ObjectProperty(op) => name64 + 19 + (op.size() as u64),
            PropertyType::StructProperty(sp) => name64 + 19 + (sp.size() as u64),
        };
        assert(total64 == spec_ser_prop(self@).len());
        total64 as u32
    }
}

impl StructProperty {
    /// The number of bytes this struct property body occupies on the
    /// wire, its size and index fields included.
    pub fn size(&self) -> (r: u32)
        requires
            struct_property_wf(self@),
            spec_ser_struct_property(self@).len() <= u32::MAX,
        ensures
            r == spec_ser_struct_property(self@).len(),
        decreases *self,
    {
        proof {
            lemma_auto_spec_u32_to_from_le_bytes();
            lemma_tags_wf();
        }
        match &self.data {
            StructDataType::LinearColor(_) => 57,
            StructDataType::Other { name, list } => {
                let payload = list.size();
                let total64 = (name.content.len() as u64) + 4 + (payload as u64) + 25;
                assert(total64 == spec_ser_struct_property(self@).len());
                total64 as u32
            },
        }
    }
}

impl PropertyList {
    /// The number of bytes the whole run occupies on the wire, sentinel
    /// included.
    pub fn size(&self) -> (r: u32)
        requires
            wf_props(self@),
            spec_ser_props(self@).len() <= u32::MAX,
        ensures
            r == spec_ser_props(self@).len(),
        decreases *self,
    {
        let ghost v = self@;
        proof {
            lemma_view_props_index(self.0@);
            lemma_wf_props_shape(v);
            crate::byte_property::lemma_none_tag_wf();
        }
        let n = self.0.len();
        let mut acc: u32 = 0;
        let mut i: usize = 0;
        proof {
            assert(v.take(0) =~= Seq::<SpecProperty>::empty());
        }
        while i < n
            invariant
                0 <= i <= n,
                n == self.0@.len(),
                v == self@,
                acc == spec_ser_props(v.take(i as int)).len(),
            decreases n - i,
        {
            proof {
                lemma_ser_props_split(v, i as int);
                assert(v.skip(i as int)[0] == v[i as int]);
                assert(spec_ser_props(v.skip(i as int)) == spec_ser_prop(v[i as int])
                    + spec_ser_props(v.skip(i as int).skip(1)));
                assert(spec_ser_prop(v[i as int]).len() <= spec_ser_props(v).len());
                if i + 1 == n {
                    assert(v[i as int] == v.last());
                } else {
                    assert(prop_item_wf(v[i as int]));
                }
                let t1 = v.take(i + 1);
                assert(t1.drop_last() =~= v.take(i as int));
                assert(t1.last() == v[i as int]);
                lemma_ser_props_snoc(t1);
                assert(spec_ser_props(v.take(i + 1)).len() <= spec_ser_props(v).len()) by {
                    lemma_ser_props_split(v, i + 1);
                }
            }
            let psize = self.0[i].size();
            acc = acc + psize;
            i = i + 1;
        }
        proof {
            assert(v.take(n as int) =~= v);
        }
        acc
    }
}

/// Writes one property record: its name, then its tagged body.
pub fn write_property(out: &mut Vec<u8>, p: &Property)
    requires
        p@ == sentinel_property() || prop_item_wf(p@),
    ensures
        final(out)@ == old(out)@ + spec_ser_prop(p@),
    decreases *p,
{
    proof {
        lemma_tags_wf();
        crate::byte_property::lemma_none_tag_wf();
    }
    crate::fstring::write_fstring(out, &p.name);
    match &p.property {
        PropertyType::Sentinel => {
            assert(out@ =~= old(out)@ + spec_ser_prop(p@));
        },
        PropertyType::ByteProperty(bp) => {
            let t: [u8; 13] = [
                0x42u8,
                0x79u8,
                0x74u8,
                0x65u8,
                0x50u8,
                0x72u8,
                0x6Fu8,
                0x70u8,
                0x65u8,
                0x72u8,
                0x74u8,
                0x79u8,
                0x00u8,
            ];
            assert(t@ =~= byte_tag());
            crate::fstring::write_fstring_bytes(out, t.as_slice());
            write_byte_property(out, bp);
            assert(out@ =~= old(out)@ + spec_ser_prop(p@));
        },
        PropertyType::FloatProperty(fp) => {
            let t: [u8; 14] = [
                0x46u8,
                0x6Cu8,
                0x6Fu8,
                0x61u8,
                0x74u8,
                0x50u8,
                0x72u8,
                0x6Fu8,
                0x70u8,
                0x65u8,
                0x72u8,
                0x74u8,
                0x79u8,
                0x00u8,
            ];
            assert(t@ =~= float_tag());
            crate::fstring::write_fstring_bytes(out, t.as_slice());
            write_float_property(out, fp);
            assert(out@ =~= old(out)@ + spec_ser_prop(p@));
        },
        PropertyType::ObjectProperty(op) => {
            let t: [u8; 15] = [
                0x4Fu8,
                0x62u8,
                0x6Au8,
                0x65u8,
                0x63u8,
                0x74u8,
                0x50u8,
                0x72u8,
                0x6Fu8,
                0x70u8,
                0x65u8,
                0x72u8,
                0x74u8,
                0x79u8,
                0x00u8,
            ];
            assert(t@ =~= object_tag());
            crate::fstring::write_fstring_bytes(out, t.as_slice());
            write_object_property(out, op);
            assert(out@ =~= old(out)@ + spec_ser_prop(p@));
        },
        PropertyType::StructProperty(sp) => {
            let t: [u8; 15] = [
                0x53u8,
                0x74u8,
                0x72u8,
                0x75u8,
                0x63u8,
                0x74u8,
                0x50u8,
                0x72u8,
                0x6Fu8,
                0x70u8,
                0x65u8,
                0x72u8,
                0x74u8,
                0x79u8,
                0x00u8,
            ];
            assert(t@ =~= struct_tag());
            crate::fstring::write_fstring_bytes(out, t.as_slice());
            write_struct_property(out, sp);
            assert(out@ =~= old(out)@ + spec_ser_prop(p@));
        },
    }
}

/// Writes a struct property body; the size field is computed first, so
/// nothing is written twice.
pub fn write_struct_property(out: &mut Vec<u8>, sp: &StructProperty)
    requires
        struct_property_wf(sp@),
    ensures
        final(out)@ == old(out)@ + spec_ser_struct_property(sp@),
    decreases *sp,
{
    proof {
        lemma_auto_spec_u32_to_from_le_bytes();
        lemma_tags_wf();
    }
    match &sp.data {
        StructDataType::LinearColor(lc) => {
            write_u32(out, 16);
            write_u32(out, sp.index);
            let t: [u8; 12] = [
                0x4Cu8,
                0x69u8,
                0x6Eu8,
                0x65u8,
                0x61u8,
                0x72u8,
                0x43u8,
                0x6Fu8,
                0x6Cu8,
                0x6Fu8,
                0x72u8,
                0x00u8,
            ];
            assert(t@ =~= lc_tag());
            crate::fstring::write_fstring_bytes(out, t.as_slice());
            write_zeros(out, 17);
            write_linear_color(out, lc);
            assert(out@ =~= old(out)@ + spec_ser_struct_property(sp@));
        },
        StructDataType::Other { name, list } => {
            let payload_size = list.size();
            write_u32(out, payload_size);
            write_u32(out, sp.index);
            crate::fstring::write_fstring(out, name);
            write_zeros(out, 17);
            write_property_list(out, list);
            assert(out@ =~= old(out)@ + spec_ser_struct_property(sp@));
        },
    }
}

/// Writes a property run, record after record, the sentinel last.
pub fn write_property_list(out: &mut Vec<u8>, l: &PropertyList)
    requires
        wf_props(l@),
    ensures
        final(out)@ == old(out)@ + spec_ser_props(l@),
    decreases *l,
{
    let ghost v = l@;
    proof {
        lemma_view_props_index(l.0@);
        lemma_wf_props_shape(v);
        crate::byte_property::lemma_none_tag_wf();
        assert(v.take(0) =~= Seq::<SpecProperty>::empty());
        assert(old(out)@ + spec_ser_props(v.take(0)) =~= old(out)@);
    }
    let n = l.0.len();
    let mut i: usize = 0;
    while i < n
        invariant
            0 <= i <= n,
            n == l.0@.len(),
            v == l@,
            out@ == old(out)@ + spec_ser_props(v.take(i as int)),
        decreases n - i,
    {
        proof {
            if i + 1 == n {
                assert(v[i as int] == v.last());
            } else {
                assert(prop_item_wf(v[i as int]));
            }
        }
        write_property(out, &l.0[i]);
        proof {
            let t1 = v.take(i + 1);
            assert(t1.drop_last() =~= v.take(i as int));
            assert(t1.last() == v[i as int]);
            lemma_ser_props_snoc(t1);
            assert(out@ =~= old(out)@ + spec_ser_props(t1));
        }
        i = i + 1;
    }
    proof {
        assert(v.take(n as int) =~= v);
    }
}

} // verus!


