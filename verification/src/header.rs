use crate::body_header::{
    body_header, spec_parse_body_header, spec_ser_body_header, write_body_header, BodyHeader,
};
use crate::error::ParseError;
use crate::primitive::{lemma_seq_cat_subrange, lemma_subrange_cat};
use crate::requirements::{
    mod_list_unambiguous, mod_requirement_wf, requirements, spec_parse_requirements,
    spec_ser_requirements, write_requirements, ModRequirement, SpecModRequirement,
};
use crate::resource::{
    resource_wf, resources, spec_parse_resources, spec_ser_resources, write_resources, Resource,
    SpecResource,
};
use vstd::prelude::*;
use vstd::slice::{slice_subrange, slice_to_vec};

verus! {

/// The number of opaque preamble bytes at the front of a blueprint file:
/// format version markers and save-game metadata, carried through verbatim.
pub const PREAMBLE_LEN: usize = 24;

/// The clear-text file header: the opaque preamble, the required game
/// resources, the required mods, and the framing record of the compressed
/// body that follows.
#[derive(Debug, PartialEq)]
pub struct Header {
    pub preamble: Vec<u8>,
    pub resources: Vec<Resource>,
    pub requirements: Vec<ModRequirement>,
    pub body_header: BodyHeader,
}

/// The mathematical shape of a [`Header`].
pub struct SpecHeader {
    pub preamble: Seq<u8>,
    pub resources: Seq<SpecResource>,
    pub requirements: Seq<SpecModRequirement>,
    pub body_header: BodyHeader,
}

impl View for Header {
    type V = SpecHeader;

    open spec fn view(&self) -> SpecHeader {
        SpecHeader {
            preamble: self.preamble@,
            resources: self.resources.deep_view(),
            requirements: self.requirements.deep_view(),
            body_header: self.body_header,
        }
    }
}

/// Well-formed header: the preamble has its fixed width and both lists
/// are element-wise well-formed.
pub open spec fn header_wf(h: SpecHeader) -> bool {
    &&& h.preamble.len() == PREAMBLE_LEN
    &&& h.resources.len() <= u64::MAX
    &&& h.requirements.len() <= u64::MAX
    &&& forall|i: int| 0 <= i < h.resources.len() ==> resource_wf(#[trigger] h.resources[i])
    &&& forall|i: int|
        0 <= i < h.requirements.len() ==> mod_requirement_wf(#[trigger] h.requirements[i])
}

/// The wire encoding of a header.
pub open spec fn spec_ser_header(h: SpecHeader) -> Seq<u8> {
    h.preamble + spec_ser_resources(h.resources) + spec_ser_requirements(h.requirements)
        + spec_ser_body_header(h.body_header)
}

/// What parsing a header at `pos` yields.
pub open spec fn spec_parse_header(s: Seq<u8>, pos: int) -> Result<(SpecHeader, int), ParseError> {
    if pos + PREAMBLE_LEN > s.len() {
        Err(ParseError::UnexpectedEndOfInput { offset: pos as usize })
    } else {
        let preamble = s.subrange(pos, pos + PREAMBLE_LEN);
        match spec_parse_resources(s, pos + PREAMBLE_LEN) {
            Err(e) => Err(e),
            Ok((rs, p1)) => match spec_parse_requirements(s, p1) {
                Err(e) => Err(e),
                Ok((ms, p2)) => match spec_parse_body_header(s, p2) {
                    Err(e) => Err(e),
                    Ok((bh, p3)) => Ok(
                        (
                            SpecHeader {
                                preamble,
                                resources: rs,
                                requirements: ms,
                                body_header: bh,
                            },
                            p3,
                        ),
                    ),
                },
            },
        }
    }
}

/// A successfully parsed header is well-formed and re-serializes to the
/// bytes consumed.
pub proof fn lemma_parse_header_ok(s: Seq<u8>, pos: int)
    requires
        0 <= pos <= s.len(),
        spec_parse_header(s, pos) is Ok,
    ensures
        ({
            let (h, n) = spec_parse_header(s, pos)->Ok_0;
            &&& pos + 89 <= n <= s.len()
            &&& header_wf(h)
            &&& spec_ser_header(h) == s.subrange(pos, n)
        }),
{
    let (h, n) = spec_parse_header(s, pos)->Ok_0;
    let p0 = pos + PREAMBLE_LEN;
    let (rs, p1) = spec_parse_resources(s, p0)->Ok_0;
    let cnt = crate::primitive::spec_parse_u64(s, p0)->Ok_0.0;
    crate::resource::lemma_parse_resource_list_ok(s, p0 + 8, cnt as int);
    let (ms, p2) = spec_parse_requirements(s, p1)->Ok_0;
    let mcnt = crate::primitive::spec_parse_u64(s, p1)->Ok_0.0;
    crate::requirements::lemma_parse_mod_list_ok(s, p1 + 8, mcnt as int);
    crate::body_header::lemma_parse_body_header_ok(s, p2);
    vstd::bytes::lemma_auto_spec_u64_to_from_le_bytes();
    assert(spec_ser_resources(rs) == s.subrange(p0, p1)) by {
        lemma_subrange_cat(s, p0, p0 + 8, p1);
    }
    assert(spec_ser_requirements(ms) == s.subrange(p1, p2)) by {
        lemma_subrange_cat(s, p1, p1 + 8, p2);
    }
    assert(spec_ser_header(h) =~= s.subrange(pos, n)) by {
        lemma_subrange_cat(s, pos, p0, p1);
        lemma_subrange_cat(s, pos, p1, p2);
        lemma_subrange_cat(s, pos, p2, n);
    }
}

/// Serialized well-formed headers parse back to themselves, provided the
/// mod list reads back unambiguously (real files, which carry no padding
/// and no empty mod names, always do).
pub proof fn lemma_header_round_trip(s: Seq<u8>, pos: int, h: SpecHeader)
    requires
        header_wf(h),
        mod_list_unambiguous(h.requirements),
        0 <= pos,
        pos + spec_ser_header(h).len() <= s.len(),
        s.subrange(pos, pos + spec_ser_header(h).len()) == spec_ser_header(h),
    ensures
        spec_parse_header(s, pos) == Ok::<(SpecHeader, int), ParseError>(
            (h, pos + spec_ser_header(h).len()),
        ),
{
    vstd::bytes::lemma_auto_spec_u64_to_from_le_bytes();
    vstd::bytes::lemma_auto_spec_u32_to_from_le_bytes();
    let a1 = h.preamble;
    let a2 = spec_ser_resources(h.resources);
    let a3 = spec_ser_requirements(h.requirements);
    let a4 = spec_ser_body_header(h.body_header);
    assert(spec_ser_header(h) == a1 + a2 + a3 + a4);
    assert(a1 + a2 + a3 + a4 =~= a1 + (a2 + (a3 + a4)));
    lemma_seq_cat_subrange(s, pos, a1, a2 + (a3 + a4));
    let p0 = pos + PREAMBLE_LEN;
    lemma_seq_cat_subrange(s, p0, a2, a3 + a4);
    let p1 = p0 + a2.len();
    lemma_seq_cat_subrange(s, p1, a3, a4);
    let p2 = p1 + a3.len();
    // resources section
    let rl = crate::resource::spec_ser_resource_list(h.resources);
    let c1 = vstd::bytes::spec_u64_to_le_bytes(h.resources.len() as u64);
    assert(a2 == c1 + rl);
    lemma_seq_cat_subrange(s, p0, c1, rl);
    crate::resource::lemma_resource_list_round_trip(s, p0 + 8, h.resources);
    // requirements section
    let ml = crate::requirements::spec_ser_mod_list(h.requirements);
    let c2 = vstd::bytes::spec_u64_to_le_bytes(h.requirements.len() as u64);
    assert(a3 == c2 + ml);
    lemma_seq_cat_subrange(s, p1, c2, ml);
    assert(p1 + 8 + ml.len() == p2);
    assert(s[p2] == 0xC1) by {
        assert(s.subrange(p2, p2 + a4.len())[0] == s[p2]);
        assert(crate::body_header::magic_bytes()[0] == 0xC1);
        assert(a4[0] == 0xC1);
    }
    crate::requirements::lemma_mod_list_round_trip(s, p1 + 8, h.requirements);
    // framing record
    crate::body_header::lemma_body_header_round_trip(s, p2, h.body_header);
}

/// Parses a header at `pos`: the opaque preamble, the resource list, the
/// mod requirements, and the body framing record.
pub fn parse_header(input: &[u8], pos: usize) -> (r: Result<(Header, usize), ParseError>)
    requires
        pos <= input@.len(),
    ensures
        match r {
            Ok((v, n)) => {
                &&& spec_parse_header(input@, pos as int) matches Ok((sv, sn)) && v@ == sv && n
                    == sn
                &&& pos + 89 <= n <= input@.len()
                &&& header_wf(v@)
                &&& spec_ser_header(v@) == input@.subrange(pos as int, n as int)
            },
            Err(e) => spec_parse_header(input@, pos as int) == Err::<(SpecHeader, int), ParseError>(
                e,
            ),
        },
{
    if input.len() - pos < PREAMBLE_LEN {
        return Err(ParseError::UnexpectedEndOfInput { offset: pos });
    }
    let preamble = slice_to_vec(slice_subrange(input, pos, pos + PREAMBLE_LEN));
    let (rs, p1) = match resources(input, pos + PREAMBLE_LEN) {
        Ok(v) => v,
        Err(e) => {
            return Err(e);
        },
    };
    let (ms, p2) = match requirements(input, p1) {
        Ok(v) => v,
        Err(e) => {
            return Err(e);
        },
    };
    let (bh, p3) = match body_header(input, p2) {
        Ok(v) => v,
        Err(e) => {
            return Err(e);
        },
    };
    let h = Header { preamble, resources: rs, requirements: ms, body_header: bh };
    proof {
        lemma_parse_header_ok(input@, pos as int);
    }
    Ok((h, p3))
}

/// Writes a header with the framing sizes it holds.
pub fn write_header(out: &mut Vec<u8>, h: &Header)
    requires
        header_wf(h@),
    ensures
        final(out)@ == old(out)@ + spec_ser_header(h@),
{
    let mut p = h.preamble.clone();
    out.append(&mut p);
    proof {
        assert forall|i: int| 0 <= i < h.requirements.deep_view().len() implies (#[trigger] h.requirements.deep_view()[i]).name.len() <= u32::MAX by {
            assert(mod_requirement_wf(h@.requirements[i]));
        }
        assert forall|i: int| 0 <= i < h.resources.deep_view().len() implies (#[trigger] h.resources.deep_view()[i]).path.len() + 1 <= u32::MAX by {
            assert(resource_wf(h@.resources[i]));
        }
    }
    write_resources(out, &h.resources);
    write_requirements(out, &h.requirements);
    write_body_header(out, &h.body_header);
    assert(out@ =~= old(out)@ + spec_ser_header(h@));
}

/// A header with its framing's payload sizes replaced: what the writer
/// emits once the body has been serialized and compressed.
pub open spec fn header_with_sizes(h: SpecHeader, compressed: u64, uncompressed: u64) -> SpecHeader {
    SpecHeader {
        preamble: h.preamble,
        resources: h.resources,
        requirements: h.requirements,
        body_header: BodyHeader {
            header_version: h.body_header.header_version,
            max_chunk_size: h.body_header.max_chunk_size,
            compression_algorithm: h.body_header.compression_algorithm,
            compressed_size: compressed,
            uncompressed_size: uncompressed,
        },
    }
}

/// Writes a header, overriding the framing's payload sizes with the given
/// ones.
pub fn write_header_with_sizes(out: &mut Vec<u8>, h: &Header, compressed: u64, uncompressed: u64)
    requires
        header_wf(h@),
    ensures
        final(out)@ == old(out)@ + spec_ser_header(header_with_sizes(h@, compressed, uncompressed)),
{
    let mut p = h.preamble.clone();
    out.append(&mut p);
    proof {
        assert forall|i: int| 0 <= i < h.requirements.deep_view().len() implies (#[trigger] h.requirements.deep_view()[i]).name.len() <= u32::MAX by {
            assert(mod_requirement_wf(h@.requirements[i]));
        }
        assert forall|i: int| 0 <= i < h.resources.deep_view().len() implies (#[trigger] h.resources.deep_view()[i]).path.len() + 1 <= u32::MAX by {
            assert(resource_wf(h@.resources[i]));
        }
    }
    write_resources(out, &h.resources);
    write_requirements(out, &h.requirements);
    let bh = BodyHeader {
        header_version: h.body_header.header_version,
        max_chunk_size: h.body_header.max_chunk_size,
        compression_algorithm: h.body_header.compression_algorithm,
        compressed_size: compressed,
        uncompressed_size: uncompressed,
    };
    write_body_header(out, &bh);
    assert(out@ =~= old(out)@ + spec_ser_header(header_with_sizes(h@, compressed, uncompressed)));
}

} // verus!
