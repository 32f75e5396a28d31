use crate::error::ParseError;
use crate::fstring::{fstr_wf, fstring, spec_parse_fstring, spec_ser_fstring, write_fstring, FStr};
use vstd::prelude::*;

verus! {

/// A reference to a placed object: the level it lives in and its full
/// path name within that level. Both strings keep their trailing NUL.
#[derive(Debug, Clone, PartialEq, Eq)]
pub struct ObjectRef {
    pub level_name: FStr,
    pub path_name: FStr,
}

/// The mathematical shape of an [`ObjectRef`].
pub struct SpecObjectRef {
    pub level_name: Seq<u8>,
    pub path_name: Seq<u8>,
}

impl View for ObjectRef {
    type V = SpecObjectRef;

    open spec fn view(&self) -> SpecObjectRef {
        SpecObjectRef { level_name: self.level_name@, path_name: self.path_name@ }
    }
}

/// Well-formed object reference: both strings are well-formed factory
/// strings and together stay within a `u32` wire size.
pub open spec fn object_ref_wf(r: SpecObjectRef) -> bool {
    &&& fstr_wf(r.level_name)
    &&& fstr_wf(r.path_name)
    &&& r.level_name.len() + r.path_name.len() + 8 <= u32::MAX
}

/// The wire encoding of an object reference: both strings back to back.
pub open spec fn spec_ser_object_ref(r: SpecObjectRef) -> Seq<u8> {
    spec_ser_fstring(r.level_name) + spec_ser_fstring(r.path_name)
}

/// What parsing an object reference at `pos` yields.
pub open spec fn spec_parse_object_ref(s: Seq<u8>, pos: int) -> Result<
    (SpecObjectRef, int),
    ParseError,
> {
    match spec_parse_fstring(s, pos) {
        Err(e) => Err(e),
        Ok((level_name, p1)) => match spec_parse_fstring(s, p1) {
            Err(e) => Err(e),
            Ok((path_name, p2)) => Ok((SpecObjectRef { level_name, path_name }, p2)),
        },
    }
}

/// A successfully parsed object reference re-serializes to the bytes it
/// was parsed from; its wire size fits a `u32` whenever the input does.
pub proof fn lemma_parse_object_ref_ok(s: Seq<u8>, pos: int)
    requires
        0 <= pos <= s.len(),
        spec_parse_object_ref(s, pos) is Ok,
    ensures
        ({
            let (r, n) = spec_parse_object_ref(s, pos)->Ok_0;
            &&& pos + 8 <= n <= s.len()
            &&& n == pos + 8 + r.level_name.len() + r.path_name.len()
            &&& fstr_wf(r.level_name) && fstr_wf(r.path_name)
            &&& s.len() <= u32::MAX ==> object_ref_wf(r)
            &&& spec_ser_object_ref(r) == s.subrange(pos, n)
        }),
{
    let (r, n) = spec_parse_object_ref(s, pos)->Ok_0;
    let p1 = spec_parse_fstring(s, pos)->Ok_0.1;
    crate::fstring::lemma_parse_fstring_ok(s, pos);
    crate::fstring::lemma_parse_fstring_ok(s, p1);
    crate::primitive::lemma_subrange_cat(s, pos, p1, n);
}

/// Serialized well-formed object references parse back to themselves.
pub proof fn lemma_object_ref_round_trip(s: Seq<u8>, pos: int, r: SpecObjectRef)
    requires
        object_ref_wf(r),
        0 <= pos,
        pos + 8 + r.level_name.len() + r.path_name.len() <= s.len(),
        s.subrange(pos, pos + 8 + r.level_name.len() + r.path_name.len()) == spec_ser_object_ref(r),
    ensures
        spec_parse_object_ref(s, pos) == Ok::<(SpecObjectRef, int), ParseError>(
            (r, pos + 8 + r.level_name.len() + r.path_name.len()),
        ),
{
    vstd::bytes::lemma_auto_spec_u32_to_from_le_bytes();
    let a = spec_ser_fstring(r.level_name);
    let b = spec_ser_fstring(r.path_name);
    crate::primitive::lemma_seq_cat_subrange(s, pos, a, b);
    crate::fstring::lemma_fstring_round_trip(s, pos, r.level_name);
    crate::fstring::lemma_fstring_round_trip(s, pos + a.len(), r.path_name);
}

impl ObjectRef {
    /// The number of bytes this reference occupies on the wire.
    pub fn size(&self) -> (r: u32)
        requires
            self@.level_name.len() + self@.path_name.len() + 8 <= u32::MAX,
        ensures
            r == self@.level_name.len() + self@.path_name.len() + 8,
    {
        (self.level_name.len() as u32) + 4 + (self.path_name.len() as u32) + 4
    }
}

/// Parses an object reference at `pos`.
pub fn object_ref(input: &[u8], pos: usize) -> (r: Result<(ObjectRef, usize), ParseError>)
    requires
        pos <= input@.len(),
    ensures
        crate::primitive::parse_matches(r, spec_parse_object_ref(input@, pos as int)),
        r matches Ok((v, n)) ==> {
            &&& pos + 8 <= n <= input@.len()
            &&& fstr_wf(v@.level_name) && fstr_wf(v@.path_name)
            &&& spec_ser_object_ref(v@) == input@.subrange(pos as int, n as int)
        },
{
    let (level_name, p1) = match fstring(input, pos) {
        Ok(v) => v,
        Err(e) => {
            return Err(e);
        },
    };
    let (path_name, p2) = match fstring(input, p1) {
        Ok(v) => v,
        Err(e) => {
            return Err(e);
        },
    };
    proof {
        lemma_parse_object_ref_ok(input@, pos as int);
    }
    Ok((ObjectRef { level_name, path_name }, p2))
}

/// Writes an object reference.
pub fn write_object_ref(out: &mut Vec<u8>, r: &ObjectRef)
    requires
        r@.level_name.len() <= u32::MAX,
        r@.path_name.len() <= u32::MAX,
    ensures
        final(out)@ == old(out)@ + spec_ser_object_ref(r@),
{
    write_fstring(out, &r.level_name);
    write_fstring(out, &r.path_name);
    assert(out@ =~= old(out)@ + spec_ser_object_ref(r@));
}

} // verus!
