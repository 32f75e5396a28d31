use crate::error::ParseError;
use crate::fstring::{fstr_wf, fstring, spec_parse_fstring, spec_ser_fstring, write_fstring, FStr};
use crate::primitive::{
    lemma_parse_lit_ok, lemma_seq_cat_subrange, lemma_subrange_cat, parse_matches, read_lit,
    read_u32, spec_parse_lit, spec_parse_u32, write_u32, write_zeros, zero_bytes,
};
use vstd::bytes::{lemma_auto_spec_u32_to_from_le_bytes, spec_u32_to_le_bytes};
use vstd::prelude::*;

verus! {

/// A placed actor's header: its type path, root object, instance name, an
/// unknown word carried verbatim, and its rotation quaternion, position
/// and scale as IEEE 754 bit patterns, followed by a reserved zero word.
#[derive(Debug, Clone, PartialEq, Eq)]
pub struct ActorHeader {
    pub type_path: FStr,
    pub root_object: FStr,
    pub instance_name: FStr,
    pub unknown: u32,
    pub rotation_x: u32,
    pub rotation_y: u32,
    pub rotation_z: u32,
    pub rotation_w: u32,
    pub position_x: u32,
    pub position_y: u32,
    pub position_z: u32,
    pub scale_x: u32,
    pub scale_y: u32,
    pub scale_z: u32,
}

/// The mathematical shape of an [`ActorHeader`].
pub struct SpecActorHeader {
    pub type_path: Seq<u8>,
    pub root_object: Seq<u8>,
    pub instance_name: Seq<u8>,
    pub unknown: u32,
    pub rotation_x: u32,
    pub rotation_y: u32,
    pub rotation_z: u32,
    pub rotation_w: u32,
    pub position_x: u32,
    pub position_y: u32,
    pub position_z: u32,
    pub scale_x: u32,
    pub scale_y: u32,
    pub scale_z: u32,
}

impl View for ActorHeader {
    type V = SpecActorHeader;

    open spec fn view(&self) -> SpecActorHeader {
        SpecActorHeader {
            type_path: self.type_path@,
            root_object: self.root_object@,
            instance_name: self.instance_name@,
            unknown: self.unknown,
            rotation_x: self.rotation_x,
            rotation_y: self.rotation_y,
            rotation_z: self.rotation_z,
            rotation_w: self.rotation_w,
            position_x: self.position_x,
            position_y: self.position_y,
            position_z: self.position_z,
            scale_x: self.scale_x,
            scale_y: self.scale_y,
            scale_z: self.scale_z,
        }
    }
}

/// Well-formed actor header: three well-formed strings whose record fits
/// its `u32` wire size.
pub open spec fn actor_header_wf(h: SpecActorHeader) -> bool {
    &&& fstr_wf(h.type_path)
    &&& fstr_wf(h.root_object)
    &&& fstr_wf(h.instance_name)
    &&& h.type_path.len() + h.root_object.len() + h.instance_name.len() + 60 <= u32::MAX
}

/// The fixed words of an actor header, from the unknown word through the
/// reserved trailing zeros.
pub open spec fn spec_ser_actor_fixed(h: SpecActorHeader) -> Seq<u8> {
    spec_u32_to_le_bytes(h.unknown) + spec_u32_to_le_bytes(h.rotation_x) + spec_u32_to_le_bytes(
        h.rotation_y,
    ) + spec_u32_to_le_bytes(h.rotation_z) + spec_u32_to_le_bytes(h.rotation_w)
        + spec_u32_to_le_bytes(h.position_x) + spec_u32_to_le_bytes(h.position_y)
        + spec_u32_to_le_bytes(h.position_z) + spec_u32_to_le_bytes(h.scale_x)
        + spec_u32_to_le_bytes(h.scale_y) + spec_u32_to_le_bytes(h.scale_z) + zero_bytes(4)
}

/// The wire encoding of an actor header.
pub open spec fn spec_ser_actor_header(h: SpecActorHeader) -> Seq<u8> {
    spec_ser_fstring(h.type_path) + spec_ser_fstring(h.root_object) + spec_ser_fstring(
        h.instance_name,
    ) + spec_ser_actor_fixed(h)
}

/// What parsing the fixed words at `pos` yields, given the strings already
/// parsed.
pub open spec fn spec_parse_actor_fixed(
    s: Seq<u8>,
    pos: int,
    type_path: Seq<u8>,
    root_object: Seq<u8>,
    instance_name: Seq<u8>,
) -> Result<(SpecActorHeader, int), ParseError> {
    match spec_parse_u32(s, pos) {
        Err(e) => Err(e),
        Ok((unknown, q1)) => match spec_parse_u32(s, q1) {
            Err(e) => Err(e),
            Ok((rotation_x, q2)) => match spec_parse_u32(s, q2) {
                Err(e) => Err(e),
                Ok((rotation_y, q3)) => match spec_parse_u32(s, q3) {
                    Err(e) => Err(e),
                    Ok((rotation_z, q4)) => match spec_parse_u32(s, q4) {
                        Err(e) => Err(e),
                        Ok((rotation_w, q5)) => match spec_parse_u32(s, q5) {
                            Err(e) => Err(e),
                            Ok((position_x, q6)) => match spec_parse_u32(s, q6) {
                                Err(e) => Err(e),
                                Ok((position_y, q7)) => match spec_parse_u32(s, q7) {
                                    Err(e) => Err(e),
                                    Ok((position_z, q8)) => match spec_parse_u32(s, q8) {
                                        Err(e) => Err(e),
                                        Ok((scale_x, q9)) => match spec_parse_u32(s, q9) {
                                            Err(e) => Err(e),
                                            Ok((scale_y, q10)) => match spec_parse_u32(s, q10) {
                                                Err(e) => Err(e),
                                                Ok((scale_z, q11)) => match spec_parse_lit(
                                                    s,
                                                    q11,
                                                    zero_bytes(4),
                                                ) {
                                                    Err(e) => Err(e),
                                                    Ok((_, q12)) => Ok(
                                                        (
                                                            SpecActorHeader {
                                                                type_path,
                                                                root_object,
                                                                instance_name,
                                                                unknown,
                                                                rotation_x,
                                                                rotation_y,
                                                                rotation_z,
                                                                rotation_w,
                                                                position_x,
                                                                position_y,
                                                                position_z,
                                                                scale_x,
                                                                scale_y,
                                                                scale_z,
                                                            },
                                                            q12,
                                                        ),
                                                    ),
                                                },
                                            },
                                        },
                                    },
                                },
                            },
                        },
                    },
                },
            },
        },
    }
}

/// What parsing an actor header at `pos` yields.
pub open spec fn spec_parse_actor_header(s: Seq<u8>, pos: int) -> Result<
    (SpecActorHeader, int),
    ParseError,
> {
    match spec_parse_fstring(s, pos) {
        Err(e) => Err(e),
        Ok((type_path, p1)) => match spec_parse_fstring(s, p1) {
            Err(e) => Err(e),
            Ok((root_object, p2)) => match spec_parse_fstring(s, p2) {
                Err(e) => Err(e),
                Ok((instance_name, p3)) => spec_parse_actor_fixed(
                    s,
                    p3,
                    type_path,
                    root_object,
                    instance_name,
                ),
            },
        },
    }
}

/// A successfully parsed actor header is well-formed (whenever the input
/// fits a `u32`) and re-serializes to the bytes consumed.
pub proof fn lemma_parse_actor_header_ok(s: Seq<u8>, pos: int)
    requires
        0 <= pos <= s.len(),
        spec_parse_actor_header(s, pos) is Ok,
    ensures
        ({
            let (h, n) = spec_parse_actor_header(s, pos)->Ok_0;
            &&& pos + 60 <= n <= s.len()
            &&& n == pos + 60 + h.type_path.len() + h.root_object.len() + h.instance_name.len()
            &&& fstr_wf(h.type_path) && fstr_wf(h.root_object) && fstr_wf(h.instance_name)
            &&& s.len() <= u32::MAX ==> actor_header_wf(h)
            &&& spec_ser_actor_header(h) == s.subrange(pos, n)
        }),
{
    let (h, n) = spec_parse_actor_header(s, pos)->Ok_0;
    lemma_auto_spec_u32_to_from_le_bytes();
    let p1 = spec_parse_fstring(s, pos)->Ok_0.1;
    let p2 = spec_parse_fstring(s, p1)->Ok_0.1;
    let p3 = spec_parse_fstring(s, p2)->Ok_0.1;
    crate::fstring::lemma_parse_fstring_ok(s, pos);
    crate::fstring::lemma_parse_fstring_ok(s, p1);
    crate::fstring::lemma_parse_fstring_ok(s, p2);
    lemma_parse_lit_ok(s, p3 + 44, zero_bytes(4));
    assert(spec_ser_actor_fixed(h) =~= s.subrange(p3, n)) by {
        lemma_subrange_cat(s, p3, p3 + 4, p3 + 8);
        lemma_subrange_cat(s, p3, p3 + 8, p3 + 12);
        lemma_subrange_cat(s, p3, p3 + 12, p3 + 16);
        lemma_subrange_cat(s, p3, p3 + 16, p3 + 20);
        lemma_subrange_cat(s, p3, p3 + 20, p3 + 24);
        lemma_subrange_cat(s, p3, p3 + 24, p3 + 28);
        lemma_subrange_cat(s, p3, p3 + 28, p3 + 32);
        lemma_subrange_cat(s, p3, p3 + 32, p3 + 36);
        lemma_subrange_cat(s, p3, p3 + 36, p3 + 40);
        lemma_subrange_cat(s, p3, p3 + 40, p3 + 44);
        lemma_subrange_cat(s, p3, p3 + 44, p3 + 48);
    }
    assert(spec_ser_actor_header(h) =~= s.subrange(pos, n)) by {
        lemma_subrange_cat(s, pos, p1, p2);
        lemma_subrange_cat(s, pos, p2, p3);
        lemma_subrange_cat(s, pos, p3, n);
    }
}

/// Serialized well-formed actor headers parse back to themselves.
pub proof fn lemma_actor_header_round_trip(s: Seq<u8>, pos: int, h: SpecActorHeader)
    requires
        actor_header_wf(h),
        0 <= pos,
        pos + spec_ser_actor_header(h).len() <= s.len(),
        s.subrange(pos, pos + spec_ser_actor_header(h).len()) == spec_ser_actor_header(h),
    ensures
        spec_parse_actor_header(s, pos) == Ok::<(SpecActorHeader, int), ParseError>(
            (h, pos + spec_ser_actor_header(h).len()),
        ),
{
    lemma_auto_spec_u32_to_from_le_bytes();
    let a1 = spec_ser_fstring(h.type_path);
    let a2 = spec_ser_fstring(h.root_object);
    let a3 = spec_ser_fstring(h.instance_name);
    let fixed = spec_ser_actor_fixed(h);
    assert(spec_ser_actor_header(h) == a1 + a2 + a3 + fixed);
    assert(a1 + a2 + a3 + fixed =~= a1 + (a2 + (a3 + fixed)));
    lemma_seq_cat_subrange(s, pos, a1, a2 + (a3 + fixed));
    let p1 = pos + a1.len();
    lemma_seq_cat_subrange(s, p1, a2, a3 + fixed);
    let p2 = p1 + a2.len();
    lemma_seq_cat_subrange(s, p2, a3, fixed);
    let p3 = p2 + a3.len();
    crate::fstring::lemma_fstring_round_trip(s, pos, h.type_path);
    crate::fstring::lemma_fstring_round_trip(s, p1, h.root_object);
    crate::fstring::lemma_fstring_round_trip(s, p2, h.instance_name);
    let b1 = spec_u32_to_le_bytes(h.unknown);
    let b2 = spec_u32_to_le_bytes(h.rotation_x);
    let b3 = spec_u32_to_le_bytes(h.rotation_y);
    let b4 = spec_u32_to_le_bytes(h.rotation_z);
    let b5 = spec_u32_to_le_bytes(h.rotation_w);
    let b6 = spec_u32_to_le_bytes(h.position_x);
    let b7 = spec_u32_to_le_bytes(h.position_y);
    let b8 = spec_u32_to_le_bytes(h.position_z);
    let b9 = spec_u32_to_le_bytes(h.scale_x);
    let b10 = spec_u32_to_le_bytes(h.scale_y);
    let b11 = spec_u32_to_le_bytes(h.scale_z);
    let b12 = zero_bytes(4);
    assert(fixed == b1 + b2 + b3 + b4 + b5 + b6 + b7 + b8 + b9 + b10 + b11 + b12);
    assert(b1 + b2 + b3 + b4 + b5 + b6 + b7 + b8 + b9 + b10 + b11 + b12 =~= b1 + (b2 + (b3 + (b4 + (
    b5 + (b6 + (b7 + (b8 + (b9 + (b10 + (b11 + b12)))))))))));
    lemma_seq_cat_subrange(s, p3, b1, b2 + (b3 + (b4 + (b5 + (b6 + (b7 + (b8 + (b9 + (b10 + (b11
        + b12))))))))));
    lemma_seq_cat_subrange(s, p3 + 4, b2, b3 + (b4 + (b5 + (b6 + (b7 + (b8 + (b9 + (b10 + (b11
        + b12)))))))));
    lemma_seq_cat_subrange(s, p3 + 8, b3, b4 + (b5 + (b6 + (b7 + (b8 + (b9 + (b10 + (b11 + b12))))))));
    lemma_seq_cat_subrange(s, p3 + 12, b4, b5 + (b6 + (b7 + (b8 + (b9 + (b10 + (b11 + b12)))))));
    lemma_seq_cat_subrange(s, p3 + 16, b5, b6 + (b7 + (b8 + (b9 + (b10 + (b11 + b12))))));
    lemma_seq_cat_subrange(s, p3 + 20, b6, b7 + (b8 + (b9 + (b10 + (b11 + b12)))));
    lemma_seq_cat_subrange(s, p3 + 24, b7, b8 + (b9 + (b10 + (b11 + b12))));
    lemma_seq_cat_subrange(s, p3 + 28, b8, b9 + (b10 + (b11 + b12)));
    lemma_seq_cat_subrange(s, p3 + 32, b9, b10 + (b11 + b12));
    lemma_seq_cat_subrange(s, p3 + 36, b10, b11 + b12);
    lemma_seq_cat_subrange(s, p3 + 40, b11, b12);
    crate::primitive::lemma_lit_round_trip(s, p3 + 44, b12);
}

impl ActorHeader {
    /// The number of bytes this header occupies on the wire.
    pub fn size(&self) -> (r: u32)
        requires
            actor_header_wf(self@),
        ensures
            r == spec_ser_actor_header(self@).len(),
    {
        proof {
            lemma_auto_spec_u32_to_from_le_bytes();
        }
        (self.type_path.content.len() as u32) + (self.root_object.content.len() as u32)
            + (self.instance_name.content.len() as u32) + 60
    }
}

/// Parses an actor header at `pos`.
pub fn actor_header(input: &[u8], pos: usize) -> (r: Result<(ActorHeader, usize), ParseError>)
    requires
        pos <= input@.len(),
    ensures
        parse_matches(r, spec_parse_actor_header(input@, pos as int)),
        r matches Ok((v, n)) ==> {
            &&& pos + 60 <= n <= input@.len()
            &&& fstr_wf(v@.type_path) && fstr_wf(v@.root_object) && fstr_wf(v@.instance_name)
            &&& spec_ser_actor_header(v@) == input@.subrange(pos as int, n as int)
        },
{
    let (type_path, p1) = match fstring(input, pos) {
        Ok(v) => v,
        Err(e) => {
            return Err(e);
        },
    };
    let (root_object, p2) = match fstring(input, p1) {
        Ok(v) => v,
        Err(e) => {
            return Err(e);
        },
    };
    let (instance_name, p3) = match fstring(input, p2) {
        Ok(v) => v,
        Err(e) => {
            return Err(e);
        },
    };
    let (unknown, q1) = match read_u32(input, p3) {
        Ok(v) => v,
        Err(e) => {
            return Err(e);
        },
    };
    let (rotation_x, q2) = match read_u32(input, q1) {
        Ok(v) => v,
        Err(e) => {
            return Err(e);
        },
    };
    let (rotation_y, q3) = match read_u32(input, q2) {
        Ok(v) => v,
        Err(e) => {
            return Err(e);
        },
    };
    let (rotation_z, q4) = match read_u32(input, q3) {
        Ok(v) => v,
        Err(e) => {
            return Err(e);
        },
    };
    let (rotation_w, q5) = match read_u32(input, q4) {
        Ok(v) => v,
        Err(e) => {
            return Err(e);
        },
    };
    let (position_x, q6) = match read_u32(input, q5) {
        Ok(v) => v,
        Err(e) => {
            return Err(e);
        },
    };
    let (position_y, q7) = match read_u32(input, q6) {
        Ok(v) => v,
        Err(e) => {
            return Err(e);
        },
    };
    let (position_z, q8) = match read_u32(input, q7) {
        Ok(v) => v,
        Err(e) => {
            return Err(e);
        },
    };
    let (scale_x, q9) = match read_u32(input, q8) {
        Ok(v) => v,
        Err(e) => {
            return Err(e);
        },
    };
    let (scale_y, q10) = match read_u32(input, q9) {
        Ok(v) => v,
        Err(e) => {
            return Err(e);
        },
    };
    let (scale_z, q11) = match read_u32(input, q10) {
        Ok(v) => v,
        Err(e) => {
            return Err(e);
        },
    };
    let sep: [u8; 4] = [0u8; 4];
    assert(sep@ =~= zero_bytes(4));
    let q12 = match read_lit(input, q11, sep.as_slice()) {
        Ok(v) => v,
        Err(e) => {
            return Err(e);
        },
    };
    let h = ActorHeader {
        type_path,
        root_object,
        instance_name,
        unknown,
        rotation_x,
        rotation_y,
        rotation_z,
        rotation_w,
        position_x,
        position_y,
        position_z,
        scale_x,
        scale_y,
        scale_z,
    };
    proof {
        lemma_parse_actor_header_ok(input@, pos as int);
    }
    Ok((h, q12))
}

/// Writes an actor header.
pub fn write_actor_header(out: &mut Vec<u8>, h: &ActorHeader)
    requires
        h@.type_path.len() <= u32::MAX,
        h@.root_object.len() <= u32::MAX,
        h@.instance_name.len() <= u32::MAX,
    ensures
        final(out)@ == old(out)@ + spec_ser_actor_header(h@),
{
    write_fstring(out, &h.type_path);
    write_fstring(out, &h.root_object);
    write_fstring(out, &h.instance_name);
    write_u32(out, h.unknown);
    write_u32(out, h.rotation_x);
    write_u32(out, h.rotation_y);
    write_u32(out, h.rotation_z);
    write_u32(out, h.rotation_w);
    write_u32(out, h.position_x);
    write_u32(out, h.position_y);
    write_u32(out, h.position_z);
    write_u32(out, h.scale_x);
    write_u32(out, h.scale_y);
    write_u32(out, h.scale_z);
    write_zeros(out, 4);
    assert(out@ =~= old(out)@ + spec_ser_actor_header(h@));
}

/// The kinds of object header the body can carry; only the actor kind is
/// defined by the format's observed data.
#[derive(Debug, Clone, PartialEq, Eq)]
pub enum ObjectHeaderType {
    Actor(ActorHeader),
}

/// The mathematical shape of an [`ObjectHeaderType`].
pub enum SpecObjectHeaderType {
    Actor(SpecActorHeader),
}

impl View for ObjectHeaderType {
    type V = SpecObjectHeaderType;

    open spec fn view(&self) -> SpecObjectHeaderType {
        match self {
            ObjectHeaderType::Actor(h) => SpecObjectHeaderType::Actor(h@),
        }
    }
}

impl DeepView for ObjectHeaderType {
    type V = SpecObjectHeaderType;

    open spec fn deep_view(&self) -> SpecObjectHeaderType {
        self@
    }
}

/// Well-formed object header.
pub open spec fn object_header_wf(h: SpecObjectHeaderType) -> bool {
    match h {
        SpecObjectHeaderType::Actor(a) => actor_header_wf(a),
    }
}

/// The wire encoding of an object header.
pub open spec fn spec_ser_object_header(h: SpecObjectHeaderType) -> Seq<u8> {
    match h {
        SpecObjectHeaderType::Actor(a) => spec_ser_actor_header(a),
    }
}

/// What parsing an object header at `pos` yields.
pub open spec fn spec_parse_object_header(s: Seq<u8>, pos: int) -> Result<
    (SpecObjectHeaderType, int),
    ParseError,
> {
    match spec_parse_actor_header(s, pos) {
        Err(e) => Err(e),
        Ok((a, n)) => Ok((SpecObjectHeaderType::Actor(a), n)),
    }
}

/// Parses an object header at `pos`.
pub fn object_header_type(input: &[u8], pos: usize) -> (r: Result<
    (ObjectHeaderType, usize),
    ParseError,
>)
    requires
        pos <= input@.len(),
    ensures
        parse_matches(r, spec_parse_object_header(input@, pos as int)),
        r matches Ok((v, n)) ==> {
            &&& pos + 60 <= n <= input@.len()
            &&& spec_ser_object_header(v@) == input@.subrange(pos as int, n as int)
        },
{
    match actor_header(input, pos) {
        Ok((a, n)) => Ok((ObjectHeaderType::Actor(a), n)),
        Err(e) => Err(e),
    }
}

} // verus!
