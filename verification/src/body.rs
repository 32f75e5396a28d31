use crate::actor_header::{
    object_header_type, object_header_wf, spec_parse_object_header, spec_ser_object_header,
    ObjectHeaderType, SpecObjectHeaderType,
};
use crate::error::ParseError;
use crate::primitive::{
    lemma_seq_cat_subrange, lemma_subrange_cat, parse_matches, read_u32, spec_parse_u32, write_u32,
};
use crate::property_list::{
    lemma_parse_props_ok, lemma_props_round_trip, property_list, spec_parse_props, spec_ser_props,
    wf_props, write_property_list, PropertyList, SpecProperty,
};
use vstd::bytes::{
    lemma_auto_spec_u32_to_from_le_bytes, spec_u32_from_le_bytes, spec_u32_to_le_bytes,
};
use vstd::prelude::*;

verus! {

/// A placed object's body: its property list, wrapped on the wire in a
/// byte-length-prefixed envelope.
#[derive(Debug, PartialEq)]
pub struct ActorObject {
    pub properties: PropertyList,
}

/// The kinds of object body; only the actor kind is defined by the
/// format's observed data.
#[derive(Debug, PartialEq)]
pub enum ObjectType {
    Actor(ActorObject),
}

/// The mathematical shape of an [`ObjectType`].
pub enum SpecObjectType {
    Actor(Seq<SpecProperty>),
}

impl View for ObjectType {
    type V = SpecObjectType;

    open spec fn view(&self) -> SpecObjectType {
        match self {
            ObjectType::Actor(o) => SpecObjectType::Actor(o.properties@),
        }
    }
}

/// Well-formed object: a well-formed property list that fits its length
/// prefix.
pub open spec fn object_wf(o: SpecObjectType) -> bool {
    match o {
        SpecObjectType::Actor(ps) => wf_props(ps) && spec_ser_props(ps).len() <= u32::MAX,
    }
}

/// The wire encoding of an object: its property list's byte length, then
/// the list.
pub open spec fn spec_ser_object(o: SpecObjectType) -> Seq<u8> {
    match o {
        SpecObjectType::Actor(ps) => spec_u32_to_le_bytes(spec_ser_props(ps).len() as u32)
            + spec_ser_props(ps),
    }
}

/// What parsing an object at `pos` yields. The declared payload size must
/// match the property list's bytes.
pub open spec fn spec_parse_object(s: Seq<u8>, pos: int) -> Result<(SpecObjectType, int), ParseError> {
    match spec_parse_u32(s, pos) {
        Err(e) => Err(e),
        Ok((size, p1)) => match spec_parse_props(s, p1) {
            Err(e) => Err(e),
            Ok((ps, n)) => if size != n - p1 {
                Err(
                    ParseError::CorruptFraming {
                        offset: pos as usize,
                        expected: (n - p1) as u64,
                        actual: size as u64,
                    },
                )
            } else {
                Ok((SpecObjectType::Actor(ps), n))
            },
        },
    }
}

/// A successfully parsed object is well-formed and re-serializes to the
/// bytes consumed.
pub proof fn lemma_parse_object_ok(s: Seq<u8>, pos: int)
    requires
        0 <= pos <= s.len(),
        spec_parse_object(s, pos) is Ok,
    ensures
        ({
            let (o, n) = spec_parse_object(s, pos)->Ok_0;
            &&& pos + 4 < n <= s.len()
            &&& object_wf(o)
            &&& spec_ser_object(o) == s.subrange(pos, n)
        }),
{
    let (o, n) = spec_parse_object(s, pos)->Ok_0;
    lemma_auto_spec_u32_to_from_le_bytes();
    lemma_parse_props_ok(s, pos + 4);
    let (ps, _) = spec_parse_props(s, pos + 4)->Ok_0;
    assert(spec_u32_to_le_bytes(spec_ser_props(ps).len() as u32) == s.subrange(pos, pos + 4));
    lemma_subrange_cat(s, pos, pos + 4, n);
}

/// Serialized well-formed objects parse back to themselves.
pub proof fn lemma_object_round_trip(s: Seq<u8>, pos: int, o: SpecObjectType)
    requires
        object_wf(o),
        0 <= pos,
        pos + spec_ser_object(o).len() <= s.len(),
        s.subrange(pos, pos + spec_ser_object(o).len()) == spec_ser_object(o),
    ensures
        spec_parse_object(s, pos) == Ok::<(SpecObjectType, int), ParseError>(
            (o, pos + spec_ser_object(o).len()),
        ),
{
    lemma_auto_spec_u32_to_from_le_bytes();
    let ps = o->Actor_0;
    let a = spec_u32_to_le_bytes(spec_ser_props(ps).len() as u32);
    let b = spec_ser_props(ps);
    assert(spec_ser_object(o) == a + b);
    lemma_seq_cat_subrange(s, pos, a, b);
    lemma_props_round_trip(s, pos + 4, ps);
}

/// Parses an object at `pos`.
pub fn object(input: &[u8], pos: usize) -> (r: Result<(ObjectType, usize), ParseError>)
    requires
        pos <= input@.len(),
    ensures
        parse_matches(r, spec_parse_object(input@, pos as int)),
        r matches Ok((v, n)) ==> {
            &&& pos + 4 < n <= input@.len()
            &&& object_wf(v@)
            &&& spec_ser_object(v@) == input@.subrange(pos as int, n as int)
        },
{
    let (size, p1) = match read_u32(input, pos) {
        Ok(v) => v,
        Err(e) => {
            return Err(e);
        },
    };
    let (list, n) = match property_list(input, p1) {
        Ok(v) => v,
        Err(e) => {
            return Err(e);
        },
    };
    if (size as usize) != n - p1 {
        let actual = size as u64;
        let expected = ((n - p1) as u64);
        return Err(ParseError::CorruptFraming { offset: pos, expected, actual });
    }
    let o = ObjectType::Actor(ActorObject { properties: list });
    proof {
        lemma_parse_object_ok(input@, pos as int);
    }
    Ok((o, n))
}

/// Writes an object; its payload size is computed first, so nothing is
/// written twice.
pub fn write_object(out: &mut Vec<u8>, o: &ObjectType)
    requires
        object_wf(o@),
    ensures
        final(out)@ == old(out)@ + spec_ser_object(o@),
{
    match o {
        ObjectType::Actor(a) => {
            let size = a.properties.size();
            write_u32(out, size);
            write_property_list(out, &a.properties);
            assert(out@ =~= old(out)@ + spec_ser_object(o@));
        },
    }
}

/// The decoded body: the placed objects' headers and, in the same order,
/// their property-carrying bodies.
#[derive(Debug, PartialEq)]
pub struct BlueprintBody {
    pub object_headers: Vec<ObjectHeaderType>,
    pub objects: Vec<ObjectType>,
}

/// The mathematical shape of a [`BlueprintBody`].
pub struct SpecBlueprintBody {
    pub object_headers: Seq<SpecObjectHeaderType>,
    pub objects: Seq<SpecObjectType>,
}

/// The view of a run of objects.
pub open spec fn view_objects(os: Seq<ObjectType>) -> Seq<SpecObjectType>
    decreases os,
{
    if os.len() == 0 {
        Seq::empty()
    } else {
        seq![os[0]@] + view_objects(os.skip(1))
    }
}

impl View for BlueprintBody {
    type V = SpecBlueprintBody;

    open spec fn view(&self) -> SpecBlueprintBody {
        SpecBlueprintBody {
            object_headers: self.object_headers.deep_view(),
            objects: view_objects(self.objects@),
        }
    }
}

/// The view of a run of exec objects indexes like the run itself.
pub proof fn lemma_view_objects_index(os: Seq<ObjectType>)
    ensures
        view_objects(os).len() == os.len(),
        forall|i: int| 0 <= i < os.len() ==> view_objects(os)[i] == (#[trigger] os[i])@,
    decreases os.len(),
{
    if os.len() > 0 {
        lemma_view_objects_index(os.skip(1));
        assert forall|i: int| 0 <= i < os.len() implies view_objects(os)[i] == (#[trigger] os[i])@
            by {
            if i > 0 {
                assert(os.skip(1)[i - 1] == os[i]);
                assert(view_objects(os)[i] == view_objects(os.skip(1))[i - 1]);
            }
        }
    }
}

/// Appending one exec object appends its view.
pub proof fn lemma_view_objects_push(os: Seq<ObjectType>, o: ObjectType)
    ensures
        view_objects(os.push(o)) == view_objects(os) + seq![o@],
    decreases os.len(),
{
    assert(view_objects(Seq::<ObjectType>::empty()) == Seq::<SpecObjectType>::empty());
    if os.len() == 0 {
        assert(os.push(o)[0] == o);
        assert(os.push(o).skip(1) =~= Seq::<ObjectType>::empty());
        assert(os =~= Seq::<ObjectType>::empty());
        assert(view_objects(os.push(o)) =~= view_objects(os) + seq![o@]);
    } else {
        lemma_view_objects_push(os.skip(1), o);
        assert(os.push(o)[0] == os[0]);
        assert(os.push(o).skip(1) =~= os.skip(1).push(o));
        assert(view_objects(os.push(o)) =~= view_objects(os) + seq![o@]);
    }
}

/// The wire encoding of a run of object headers.
pub open spec fn spec_ser_object_headers(hs: Seq<SpecObjectHeaderType>) -> Seq<u8>
    decreases hs.len(),
{
    if hs.len() == 0 {
        Seq::empty()
    } else {
        spec_ser_object_header(hs[0]) + spec_ser_object_headers(hs.skip(1))
    }
}

/// The wire encoding of a run of objects.
pub open spec fn spec_ser_objects(os: Seq<SpecObjectType>) -> Seq<u8>
    decreases os.len(),
{
    if os.len() == 0 {
        Seq::empty()
    } else {
        spec_ser_object(os[0]) + spec_ser_objects(os.skip(1))
    }
}

/// Well-formed body: element-wise well-formed lists of equal length whose
/// framing fields all fit `u32`.
pub open spec fn body_wf(b: SpecBlueprintBody) -> bool {
    &&& forall|i: int|
        0 <= i < b.object_headers.len() ==> object_header_wf(#[trigger] b.object_headers[i])
    &&& forall|i: int| 0 <= i < b.objects.len() ==> object_wf(#[trigger] b.objects[i])
    &&& b.object_headers.len() == b.objects.len()
    &&& b.objects.len() <= u32::MAX
    &&& spec_ser_object_headers(b.object_headers).len() + 4 <= u32::MAX
    &&& spec_ser_objects(b.objects).len() + 4 <= u32::MAX
    &&& spec_ser_object_headers(b.object_headers).len() + spec_ser_objects(b.objects).len() + 20
        <= u32::MAX
}

/// The wire encoding of a body: the total size, then each block's size,
/// count, and records. Every size field is consistent with the content by
/// construction.
pub open spec fn spec_ser_body(b: SpecBlueprintBody) -> Seq<u8> {
    let hbytes = spec_ser_object_headers(b.object_headers);
    let obytes = spec_ser_objects(b.objects);
    spec_u32_to_le_bytes((hbytes.len() + obytes.len() + 16) as u32) + spec_u32_to_le_bytes(
        (hbytes.len() + 4) as u32,
    ) + spec_u32_to_le_bytes(b.object_headers.len() as u32) + hbytes + spec_u32_to_le_bytes(
        (obytes.len() + 4) as u32,
    ) + spec_u32_to_le_bytes(b.objects.len() as u32) + obytes
}

/// What parsing `k` object headers at `pos` yields. The bounds test on
/// each record's end keeps the recursion inside the input and never fails
/// on positions the record parser produces.
pub open spec fn spec_parse_object_headers(s: Seq<u8>, pos: int, k: int) -> Result<
    (Seq<SpecObjectHeaderType>, int),
    ParseError,
>
    decreases k,
{
    if k <= 0 {
        Ok((Seq::empty(), pos))
    } else {
        match spec_parse_object_header(s, pos) {
            Err(e) => Err(e),
            Ok((h, p1)) => if !(pos < p1 && p1 <= s.len()) {
                Err(ParseError::UnexpectedEndOfInput { offset: pos as usize })
            } else {
                match spec_parse_object_headers(s, p1, k - 1) {
                    Err(e) => Err(e),
                    Ok((rest, n)) => Ok((seq![h] + rest, n)),
                }
            },
        }
    }
}

/// What parsing `k` objects at `pos` yields, with the same bounds test.
pub open spec fn spec_parse_objects(s: Seq<u8>, pos: int, k: int) -> Result<
    (Seq<SpecObjectType>, int),
    ParseError,
>
    decreases k,
{
    if k <= 0 {
        Ok((Seq::empty(), pos))
    } else {
        match spec_parse_object(s, pos) {
            Err(e) => Err(e),
            Ok((o, p1)) => if !(pos < p1 && p1 <= s.len()) {
                Err(ParseError::UnexpectedEndOfInput { offset: pos as usize })
            } else {
                match spec_parse_objects(s, p1, k - 1) {
                    Err(e) => Err(e),
                    Ok((rest, n)) => Ok((seq![o] + rest, n)),
                }
            },
        }
    }
}

/// What parsing a body at `pos` yields. Each redundant framing field must
/// agree with the content: each block size with its block's bytes (count
/// field included), the two counts with each other, and the total with
/// the blocks.
pub open spec fn spec_parse_body(s: Seq<u8>, pos: int) -> Result<(SpecBlueprintBody, int), ParseError> {
    match spec_parse_u32(s, pos) {
        Err(e) => Err(e),
        Ok((total, p1)) => match spec_parse_u32(s, p1) {
            Err(e) => Err(e),
            Ok((hsize, p2)) => match spec_parse_u32(s, p2) {
                Err(e) => Err(e),
                Ok((hcount, p3)) => match spec_parse_object_headers(s, p3, hcount as int) {
                    Err(e) => Err(e),
                    Ok((headers, ph)) => if hsize != ph - p2 {
                        Err(
                            ParseError::CorruptFraming {
                                offset: p1 as usize,
                                expected: (ph - p2) as u64,
                                actual: hsize as u64,
                            },
                        )
                    } else {
                        match spec_parse_u32(s, ph) {
                            Err(e) => Err(e),
                            Ok((osize, p4)) => match spec_parse_u32(s, p4) {
                                Err(e) => Err(e),
                                Ok((ocount, p5)) => match spec_parse_objects(
                                    s,
                                    p5,
                                    ocount as int,
                                ) {
                                    Err(e) => Err(e),
                                    Ok((objects, po)) => if osize != po - p4 {
                                        Err(
                                            ParseError::CorruptFraming {
                                                offset: ph as usize,
                                                expected: (po - p4) as u64,
                                                actual: osize as u64,
                                            },
                                        )
                                    } else if hcount != ocount {
                                        Err(
                                            ParseError::CorruptFraming {
                                                offset: p4 as usize,
                                                expected: hcount as u64,
                                                actual: ocount as u64,
                                            },
                                        )
                                    } else if total != hsize + osize + 8 {
                                        Err(
                                            ParseError::CorruptFraming {
                                                offset: pos as usize,
                                                expected: (hsize + osize + 8) as u64,
                                                actual: total as u64,
                                            },
                                        )
                                    } else {
                                        Ok(
                                            (
                                                SpecBlueprintBody {
                                                    object_headers: headers,
                                                    objects,
                                                },
                                                po,
                                            ),
                                        )
                                    },
                                },
                            },
                        }
                    },
                },
            },
        },
    }
}

/// A successfully parsed run of object headers is element-wise well-formed
/// (whenever the input fits a `u32`) and re-serializes to the bytes consumed.
pub proof fn lemma_parse_object_headers_ok(s: Seq<u8>, pos: int, k: int)
    requires
        0 <= pos <= s.len(),
        0 <= k,
        spec_parse_object_headers(s, pos, k) is Ok,
    ensures
        ({
            let (hs, n) = spec_parse_object_headers(s, pos, k)->Ok_0;
            &&& pos <= n <= s.len()
            &&& hs.len() == k
            &&& s.len() <= u32::MAX ==> forall|i: int|
                0 <= i < hs.len() ==> object_header_wf(#[trigger] hs[i])
            &&& spec_ser_object_headers(hs) == s.subrange(pos, n)
        }),
    decreases k,
{
    let (hs, n) = spec_parse_object_headers(s, pos, k)->Ok_0;
    if k == 0 {
        assert(spec_ser_object_headers(hs) =~= s.subrange(pos, pos));
    } else {
        let (h, p1) = spec_parse_object_header(s, pos)->Ok_0;
        crate::actor_header::lemma_parse_actor_header_ok(s, pos);
        lemma_parse_object_headers_ok(s, p1, k - 1);
        let (rest, _) = spec_parse_object_headers(s, p1, k - 1)->Ok_0;
        assert(hs == seq![h] + rest);
        assert(hs[0] == h);
        assert(hs.skip(1) =~= rest);
        lemma_subrange_cat(s, pos, p1, n);
        assert(spec_ser_object_headers(hs) == s.subrange(pos, n));
    }
}

/// A successfully parsed run of objects is element-wise well-formed and
/// re-serializes to the bytes consumed.
pub proof fn lemma_parse_objects_ok(s: Seq<u8>, pos: int, k: int)
    requires
        0 <= pos <= s.len(),
        0 <= k,
        spec_parse_objects(s, pos, k) is Ok,
    ensures
        ({
            let (os, n) = spec_parse_objects(s, pos, k)->Ok_0;
            &&& pos <= n <= s.len()
            &&& os.len() == k
            &&& forall|i: int| 0 <= i < os.len() ==> object_wf(#[trigger] os[i])
            &&& spec_ser_objects(os) == s.subrange(pos, n)
        }),
    decreases k,
{
    let (os, n) = spec_parse_objects(s, pos, k)->Ok_0;
    if k == 0 {
        assert(spec_ser_objects(os) =~= s.subrange(pos, pos));
    } else {
        let (o, p1) = spec_parse_object(s, pos)->Ok_0;
        lemma_parse_object_ok(s, pos);
        lemma_parse_objects_ok(s, p1, k - 1);
        let (rest, _) = spec_parse_objects(s, p1, k - 1)->Ok_0;
        assert(os == seq![o] + rest);
        assert(os[0] == o);
        assert(os.skip(1) =~= rest);
        lemma_subrange_cat(s, pos, p1, n);
        assert(spec_ser_objects(os) == s.subrange(pos, n));
    }
}

/// A successfully parsed body is well-formed (whenever the input fits a
/// `u32`) and re-serializes to the bytes consumed; in particular its
/// lists have equal length and its size fields are consistent.
#[verifier::rlimit(60)]
pub proof fn lemma_parse_body_ok(s: Seq<u8>, pos: int)
    requires
        0 <= pos <= s.len(),
        s.len() <= u32::MAX,
        spec_parse_body(s, pos) is Ok,
    ensures
        ({
            let (b, n) = spec_parse_body(s, pos)->Ok_0;
            &&& pos + 20 <= n <= s.len()
            &&& body_wf(b)
            &&& spec_ser_body(b) == s.subrange(pos, n)
        }),
{
    let (b, n) = spec_parse_body(s, pos)->Ok_0;
    lemma_auto_spec_u32_to_from_le_bytes();
    let p3 = pos + 12;
    let hcount = spec_u32_from_le_bytes(s.subrange(pos + 8, p3));
    lemma_parse_object_headers_ok(s, p3, hcount as int);
    let (headers, ph) = spec_parse_object_headers(s, p3, hcount as int)->Ok_0;
    let p5 = ph + 8;
    let ocount = spec_u32_from_le_bytes(s.subrange(ph + 4, p5));
    lemma_parse_objects_ok(s, p5, ocount as int);
    let (objects, po) = spec_parse_objects(s, p5, ocount as int)->Ok_0;
    assert(spec_ser_body(b) =~= s.subrange(pos, n)) by {
        lemma_subrange_cat(s, pos, pos + 4, pos + 8);
        lemma_subrange_cat(s, pos, pos + 8, p3);
        lemma_subrange_cat(s, pos, p3, ph);
        lemma_subrange_cat(s, pos, ph, ph + 4);
        lemma_subrange_cat(s, pos, ph + 4, p5);
        lemma_subrange_cat(s, pos, p5, po);
    }
}

/// Serialized well-formed bodies parse back to themselves (headers list).
pub proof fn lemma_object_headers_round_trip(s: Seq<u8>, pos: int, hs: Seq<SpecObjectHeaderType>)
    requires
        forall|i: int| 0 <= i < hs.len() ==> object_header_wf(#[trigger] hs[i]),
        0 <= pos,
        pos + spec_ser_object_headers(hs).len() <= s.len(),
        s.subrange(pos, pos + spec_ser_object_headers(hs).len()) == spec_ser_object_headers(hs),
    ensures
        spec_parse_object_headers(s, pos, hs.len() as int) == Ok::<
            (Seq<SpecObjectHeaderType>, int),
            ParseError,
        >((hs, pos + spec_ser_object_headers(hs).len())),
    decreases hs.len(),
{
    if hs.len() == 0 {
        assert(hs =~= Seq::<SpecObjectHeaderType>::empty());
    } else {
        let a = spec_ser_object_header(hs[0]);
        let rest = spec_ser_object_headers(hs.skip(1));
        lemma_seq_cat_subrange(s, pos, a, rest);
        let ah = hs[0]->Actor_0;
        vstd::bytes::lemma_auto_spec_u32_to_from_le_bytes();
        assert(a.len() == 60 + ah.type_path.len() + ah.root_object.len() + ah.instance_name.len());
        crate::actor_header::lemma_actor_header_round_trip(s, pos, ah);
        lemma_object_headers_round_trip(s, pos + a.len(), hs.skip(1));
        assert(seq![hs[0]] + hs.skip(1) =~= hs);
    }
}

/// Serialized well-formed bodies parse back to themselves (objects list).
pub proof fn lemma_objects_round_trip(s: Seq<u8>, pos: int, os: Seq<SpecObjectType>)
    requires
        forall|i: int| 0 <= i < os.len() ==> object_wf(#[trigger] os[i]),
        0 <= pos,
        pos + spec_ser_objects(os).len() <= s.len(),
        s.subrange(pos, pos + spec_ser_objects(os).len()) == spec_ser_objects(os),
    ensures
        spec_parse_objects(s, pos, os.len() as int) == Ok::<
            (Seq<SpecObjectType>, int),
            ParseError,
        >((os, pos + spec_ser_objects(os).len())),
    decreases os.len(),
{
    if os.len() == 0 {
        assert(os =~= Seq::<SpecObjectType>::empty());
    } else {
        let a = spec_ser_object(os[0]);
        let rest = spec_ser_objects(os.skip(1));
        lemma_seq_cat_subrange(s, pos, a, rest);
        vstd::bytes::lemma_auto_spec_u32_to_from_le_bytes();
        lemma_object_round_trip(s, pos, os[0]);
        lemma_objects_round_trip(s, pos + a.len(), os.skip(1));
        assert(seq![os[0]] + os.skip(1) =~= os);
    }
}

/// Serialized well-formed bodies parse back to themselves.
pub proof fn lemma_body_round_trip(s: Seq<u8>, pos: int, b: SpecBlueprintBody)
    requires
        body_wf(b),
        0 <= pos,
        pos + spec_ser_body(b).len() <= s.len(),
        s.subrange(pos, pos + spec_ser_body(b).len()) == spec_ser_body(b),
    ensures
        spec_parse_body(s, pos) == Ok::<(SpecBlueprintBody, int), ParseError>(
            (b, pos + spec_ser_body(b).len()),
        ),
{
    lemma_auto_spec_u32_to_from_le_bytes();
    let hbytes = spec_ser_object_headers(b.object_headers);
    let obytes = spec_ser_objects(b.objects);
    let a1 = spec_u32_to_le_bytes((hbytes.len() + obytes.len() + 16) as u32);
    let a2 = spec_u32_to_le_bytes((hbytes.len() + 4) as u32);
    let a3 = spec_u32_to_le_bytes(b.object_headers.len() as u32);
    let a4 = spec_u32_to_le_bytes((obytes.len() + 4) as u32);
    let a5 = spec_u32_to_le_bytes(b.objects.len() as u32);
    assert(spec_ser_body(b) == a1 + a2 + a3 + hbytes + a4 + a5 + obytes);
    assert(a1 + a2 + a3 + hbytes + a4 + a5 + obytes =~= a1 + (a2 + (a3 + (hbytes + (a4 + (a5
        + obytes))))));
    lemma_seq_cat_subrange(s, pos, a1, a2 + (a3 + (hbytes + (a4 + (a5 + obytes)))));
    lemma_seq_cat_subrange(s, pos + 4, a2, a3 + (hbytes + (a4 + (a5 + obytes))));
    lemma_seq_cat_subrange(s, pos + 8, a3, hbytes + (a4 + (a5 + obytes)));
    lemma_seq_cat_subrange(s, pos + 12, hbytes, a4 + (a5 + obytes));
    let ph = pos + 12 + hbytes.len();
    lemma_seq_cat_subrange(s, ph, a4, a5 + obytes);
    lemma_seq_cat_subrange(s, ph + 4, a5, obytes);
    lemma_object_headers_round_trip(s, pos + 12, b.object_headers);
    lemma_objects_round_trip(s, ph + 8, b.objects);
}

/// Parses a body at `pos`.
#[verifier::rlimit(60)]
pub fn blueprint_body(input: &[u8], pos: usize) -> (r: Result<(BlueprintBody, usize), ParseError>)
    requires
        pos <= input@.len(),
        input@.len() <= u32::MAX,
    ensures
        match r {
            Ok((v, n)) => {
                &&& spec_parse_body(input@, pos as int) matches Ok((sv, sn)) && v@ == sv && n == sn
                &&& pos + 20 <= n <= input@.len()
                &&& body_wf(v@)
                &&& spec_ser_body(v@) == input@.subrange(pos as int, n as int)
            },
            Err(e) => spec_parse_body(input@, pos as int) == Err::<
                (SpecBlueprintBody, int),
                ParseError,
            >(e),
        },
{
    let ghost s = input@;
    let (total, p1) = match read_u32(input, pos) {
        Ok(v) => v,
        Err(e) => {
            return Err(e);
        },
    };
    let (hsize, p2) = match read_u32(input, p1) {
        Ok(v) => v,
        Err(e) => {
            return Err(e);
        },
    };
    let (hcount, p3) = match read_u32(input, p2) {
        Ok(v) => v,
        Err(e) => {
            return Err(e);
        },
    };
    let mut headers: Vec<ObjectHeaderType> = Vec::new();
    let mut cur = p3;
    let mut remaining = hcount;
    proof {
        let full = spec_parse_object_headers(s, p3 as int, hcount as int);
        if full is Ok {
            let (rest, n) = full->Ok_0;
            assert(headers.deep_view() + rest =~= rest);
        }
    }
    while remaining > 0
        invariant
            p3 <= cur <= s.len(),
            headers.deep_view().len() + remaining == hcount,
            spec_parse_object_headers(s, p3 as int, hcount as int) == (match spec_parse_object_headers(
                s,
                cur as int,
                remaining as int,
            ) {
                Ok((rest, n)) => Ok::<(Seq<SpecObjectHeaderType>, int), ParseError>(
                    (headers.deep_view() + rest, n),
                ),
                Err(e) => Err::<(Seq<SpecObjectHeaderType>, int), ParseError>(e),
            }),
        decreases remaining,
    {
        let ghost acc0 = headers.deep_view();
        let (h, n1) = match object_header_type(input, cur) {
            Ok(v) => v,
            Err(e) => {
                return Err(e);
            },
        };
        let ghost hv = h@;
        headers.push(h);
        proof {
            assert(headers.deep_view() =~= acc0 + seq![hv]);
            if spec_parse_object_headers(s, n1 as int, remaining - 1) is Ok {
                let (rest, m) = spec_parse_object_headers(s, n1 as int, remaining - 1)->Ok_0;
                assert(acc0 + (seq![hv] + rest) =~= headers.deep_view() + rest);
            }
        }
        cur = n1;
        remaining = remaining - 1;
    }
    proof {
        assert(headers.deep_view() + Seq::<SpecObjectHeaderType>::empty() =~= headers.deep_view());
    }
    let ph = cur;
    if (hsize as usize) != ph - p2 {
        return Err(
            ParseError::CorruptFraming {
                offset: p1,
                expected: ((ph - p2) as u64),
                actual: hsize as u64,
            },
        );
    }
    let (osize, p4) = match read_u32(input, ph) {
        Ok(v) => v,
        Err(e) => {
            return Err(e);
        },
    };
    let (ocount, p5) = match read_u32(input, p4) {
        Ok(v) => v,
        Err(e) => {
            return Err(e);
        },
    };
    let mut objects: Vec<ObjectType> = Vec::new();
    let mut ocur = p5;
    let mut oremaining = ocount;
    proof {
        assert(view_objects(objects@) =~= Seq::<SpecObjectType>::empty());
        let full = spec_parse_objects(s, p5 as int, ocount as int);
        if full is Ok {
            let (rest, n) = full->Ok_0;
            assert(view_objects(objects@) + rest =~= rest);
        }
    }
    while oremaining > 0
        invariant
            p5 <= ocur <= s.len(),
            view_objects(objects@).len() + oremaining == ocount,
            spec_parse_objects(s, p5 as int, ocount as int) == (match spec_parse_objects(
                s,
                ocur as int,
                oremaining as int,
            ) {
                Ok((rest, n)) => Ok::<(Seq<SpecObjectType>, int), ParseError>(
                    (view_objects(objects@) + rest, n),
                ),
                Err(e) => Err::<(Seq<SpecObjectType>, int), ParseError>(e),
            }),
        decreases oremaining,
    {
        let ghost acc0 = objects@;
        let (o, n1) = match object(input, ocur) {
            Ok(v) => v,
            Err(e) => {
                return Err(e);
            },
        };
        let ghost ov = o@;
        proof {
            lemma_view_objects_push(acc0, o);
            lemma_view_objects_index(acc0);
        }
        objects.push(o);
        proof {
            if spec_parse_objects(s, n1 as int, oremaining - 1) is Ok {
                let (rest, m) = spec_parse_objects(s, n1 as int, oremaining - 1)->Ok_0;
                assert(view_objects(acc0) + (seq![ov] + rest) =~= view_objects(objects@) + rest);
            }
            lemma_view_objects_index(objects@);
        }
        ocur = n1;
        oremaining = oremaining - 1;
    }
    proof {
        assert(view_objects(objects@) + Seq::<SpecObjectType>::empty() =~= view_objects(objects@));
    }
    let po = ocur;
    if (osize as usize) != po - p4 {
        return Err(
            ParseError::CorruptFraming {
                offset: ph,
                expected: ((po - p4) as u64),
                actual: osize as u64,
            },
        );
    }
    if hcount != ocount {
        return Err(
            ParseError::CorruptFraming { offset: p4, expected: hcount as u64, actual: ocount as u64 },
        );
    }
    let sizes_sum = (hsize as u64) + (osize as u64) + 8;
    if (total as u64) != sizes_sum {
        return Err(
            ParseError::CorruptFraming { offset: pos, expected: sizes_sum, actual: total as u64 },
        );
    }
    let b = BlueprintBody { object_headers: headers, objects };
    proof {
        lemma_parse_body_ok(input@, pos as int);
    }
    Ok((b, po))
}

/// The wire size of the headers block's records.
fn object_headers_bytes_len(hs: &Vec<ObjectHeaderType>) -> (r: u32)
    requires
        forall|i: int| 0 <= i < hs.deep_view().len() ==> object_header_wf(#[trigger] hs.deep_view()[i]),
        spec_ser_object_headers(hs.deep_view()).len() <= u32::MAX,
    ensures
        r == spec_ser_object_headers(hs.deep_view()).len(),
{
    let ghost all = hs.deep_view();
    let mut acc: u32 = 0;
    let mut i: usize = 0;
    proof {
        assert(all.take(0) =~= Seq::<SpecObjectHeaderType>::empty());
    }
    while i < hs.len()
        invariant
            0 <= i <= hs@.len(),
            hs@.len() == all.len(),
            all == hs.deep_view(),
            acc == spec_ser_object_headers(all.take(i as int)).len(),
        decreases hs@.len() - i,
    {
        proof {
            lemma_ser_object_headers_split(all, i as int);
            assert(all.skip(i as int)[0] == all[i as int]);
            lemma_ser_object_headers_split(all, i + 1);
            let t1 = all.take(i + 1);
            assert(t1.drop_last() =~= all.take(i as int));
            assert(t1.last() == all[i as int]);
            lemma_ser_object_headers_snoc(t1);
        }
        let h = &hs[i];
        let hsize = match h {
            ObjectHeaderType::Actor(a) => a.size(),
        };
        acc = acc + hsize;
        i = i + 1;
    }
    proof {
        assert(all.take(all.len() as int) =~= all);
    }
    acc
}

/// The serialization of a header run splits at any index.
pub proof fn lemma_ser_object_headers_split(hs: Seq<SpecObjectHeaderType>, i: int)
    requires
        0 <= i <= hs.len(),
    ensures
        spec_ser_object_headers(hs) == spec_ser_object_headers(hs.take(i))
            + spec_ser_object_headers(hs.skip(i)),
    decreases i,
{
    if i == 0 {
        assert(hs.take(0) =~= Seq::<SpecObjectHeaderType>::empty());
        assert(hs.skip(0) =~= hs);
        assert(spec_ser_object_headers(hs.take(0)) + spec_ser_object_headers(hs)
            =~= spec_ser_object_headers(hs));
    } else {
        lemma_ser_object_headers_split(hs.skip(1), i - 1);
        assert(hs.take(i)[0] == hs[0]);
        assert(hs.take(i).skip(1) =~= hs.skip(1).take(i - 1));
        assert(hs.skip(i) =~= hs.skip(1).skip(i - 1));
        assert(spec_ser_object_header(hs[0]) + (spec_ser_object_headers(hs.skip(1).take(i - 1))
            + spec_ser_object_headers(hs.skip(i))) =~= (spec_ser_object_header(hs[0])
            + spec_ser_object_headers(hs.skip(1).take(i - 1))) + spec_ser_object_headers(
            hs.skip(i),
        ));
    }
}

/// Dropping the last header drops its serialization.
pub proof fn lemma_ser_object_headers_snoc(hs: Seq<SpecObjectHeaderType>)
    requires
        hs.len() >= 1,
    ensures
        spec_ser_object_headers(hs) == spec_ser_object_headers(hs.drop_last())
            + spec_ser_object_header(hs.last()),
    decreases hs.len(),
{
    if hs.len() == 1 {
        assert(hs.drop_last() =~= Seq::<SpecObjectHeaderType>::empty());
        assert(hs.skip(1) =~= Seq::<SpecObjectHeaderType>::empty());
        assert(spec_ser_object_headers(hs.drop_last()) + spec_ser_object_header(hs.last())
            =~= spec_ser_object_headers(hs));
    } else {
        lemma_ser_object_headers_snoc(hs.skip(1));
        assert(hs.skip(1).drop_last() =~= hs.drop_last().skip(1));
        assert(hs.drop_last()[0] == hs[0]);
        assert(hs.skip(1).last() == hs.last());
        assert(spec_ser_object_headers(hs.drop_last()) + spec_ser_object_header(hs.last())
            =~= spec_ser_object_header(hs[0]) + (spec_ser_object_headers(hs.drop_last().skip(1))
            + spec_ser_object_header(hs.skip(1).last())));
    }
}

/// The serialization of an object run splits at any index.
pub proof fn lemma_ser_objects_split(os: Seq<SpecObjectType>, i: int)
    requires
        0 <= i <= os.len(),
    ensures
        spec_ser_objects(os) == spec_ser_objects(os.take(i)) + spec_ser_objects(os.skip(i)),
    decreases i,
{
    if i == 0 {
        assert(os.take(0) =~= Seq::<SpecObjectType>::empty());
        assert(os.skip(0) =~= os);
        assert(spec_ser_objects(os.take(0)) + spec_ser_objects(os) =~= spec_ser_objects(os));
    } else {
        lemma_ser_objects_split(os.skip(1), i - 1);
        assert(os.take(i)[0] == os[0]);
        assert(os.take(i).skip(1) =~= os.skip(1).take(i - 1));
        assert(os.skip(i) =~= os.skip(1).skip(i - 1));
        assert(spec_ser_object(os[0]) + (spec_ser_objects(os.skip(1).take(i - 1))
            + spec_ser_objects(os.skip(i))) =~= (spec_ser_object(os[0]) + spec_ser_objects(
            os.skip(1).take(i - 1),
        )) + spec_ser_objects(os.skip(i)));
    }
}

/// Dropping the last object drops its serialization.
pub proof fn lemma_ser_objects_snoc(os: Seq<SpecObjectType>)
    requires
        os.len() >= 1,
    ensures
        spec_ser_objects(os) == spec_ser_objects(os.drop_last()) + spec_ser_object(os.last()),
    decreases os.len(),
{
    if os.len() == 1 {
        assert(os.drop_last() =~= Seq::<SpecObjectType>::empty());
        assert(os.skip(1) =~= Seq::<SpecObjectType>::empty());
        assert(spec_ser_objects(os.drop_last()) + spec_ser_object(os.last()) =~= spec_ser_objects(
            os,
        ));
    } else {
        lemma_ser_objects_snoc(os.skip(1));
        assert(os.skip(1).drop_last() =~= os.drop_last().skip(1));
        assert(os.drop_last()[0] == os[0]);
        assert(os.skip(1).last() == os.last());
        assert(spec_ser_objects(os.drop_last()) + spec_ser_object(os.last()) =~= spec_ser_object(
            os[0],
        ) + (spec_ser_objects(os.drop_last().skip(1)) + spec_ser_object(os.skip(1).last())));
    }
}

/// The wire size of the objects block's records.
fn objects_bytes_len(os: &Vec<ObjectType>) -> (r: u32)
    requires
        forall|i: int| 0 <= i < view_objects(os@).len() ==> object_wf(#[trigger] view_objects(os@)[i]),
        spec_ser_objects(view_objects(os@)).len() <= u32::MAX,
    ensures
        r == spec_ser_objects(view_objects(os@)).len(),
{
    let ghost all = view_objects(os@);
    proof {
        lemma_view_objects_index(os@);
    }
    let mut acc: u32 = 0;
    let mut i: usize = 0;
    proof {
        assert(all.take(0) =~= Seq::<SpecObjectType>::empty());
    }
    while i < os.len()
        invariant
            0 <= i <= os@.len(),
            os@.len() == all.len(),
            all == view_objects(os@),
            acc == spec_ser_objects(all.take(i as int)).len(),
        decreases os@.len() - i,
    {
        proof {
            lemma_ser_objects_split(all, i as int);
            assert(all.skip(i as int)[0] == all[i as int]);
            lemma_ser_objects_split(all, i + 1);
            let t1 = all.take(i + 1);
            assert(t1.drop_last() =~= all.take(i as int));
            assert(t1.last() == all[i as int]);
            lemma_ser_objects_snoc(t1);
            vstd::bytes::lemma_auto_spec_u32_to_from_le_bytes();
        }
        let o = &os[i];
        let osize = match o {
            ObjectType::Actor(a) => {
                let ps = a.properties.size();
                ps + 4
            },
        };
        acc = acc + osize;
        i = i + 1;
    }
    proof {
        assert(all.take(all.len() as int) =~= all);
    }
    acc
}

/// Writes a body; all redundant size fields are computed first and
/// emitted consistent by construction.
pub fn write_blueprint_body(out: &mut Vec<u8>, b: &BlueprintBody)
    requires
        body_wf(b@),
    ensures
        final(out)@ == old(out)@ + spec_ser_body(b@),
{
    proof {
        vstd::bytes::lemma_auto_spec_u32_to_from_le_bytes();
    }
    let hbytes_len = object_headers_bytes_len(&b.object_headers);
    let obytes_len = objects_bytes_len(&b.objects);
    let total = hbytes_len + obytes_len + 16;
    write_u32(out, total);
    write_u32(out, hbytes_len + 4);
    assert(b.object_headers@.len() <= u32::MAX) by {
        assert(b.object_headers.deep_view().len() == b.object_headers@.len());
    }
    write_u32(out, b.object_headers.len() as u32);
    let ghost hall = b.object_headers.deep_view();
    let ghost mark1 = out@;
    let mut i: usize = 0;
    proof {
        assert(hall.take(0) =~= Seq::<SpecObjectHeaderType>::empty());
        assert(mark1 + spec_ser_object_headers(hall.take(0)) =~= mark1);
    }
    while i < b.object_headers.len()
        invariant
            0 <= i <= b.object_headers@.len(),
            b.object_headers@.len() == hall.len(),
            hall == b.object_headers.deep_view(),
            out@ == mark1 + spec_ser_object_headers(hall.take(i as int)),
        decreases b.object_headers@.len() - i,
    {
        let h = &b.object_headers[i];
        proof {
            assert(h@ == hall[i as int]);
            assert(object_header_wf(hall[i as int]));
        }
        match h {
            ObjectHeaderType::Actor(a) => {
                crate::actor_header::write_actor_header(out, a);
            },
        }
        proof {
            let t1 = hall.take(i + 1);
            assert(t1.drop_last() =~= hall.take(i as int));
            assert(t1.last() == hall[i as int]);
            lemma_ser_object_headers_snoc(t1);
            assert(out@ =~= mark1 + spec_ser_object_headers(t1));
        }
        i = i + 1;
    }
    proof {
        assert(hall.take(hall.len() as int) =~= hall);
    }
    write_u32(out, obytes_len + 4);
    assert(b.objects@.len() <= u32::MAX) by {
        lemma_view_objects_index(b.objects@);
    }
    write_u32(out, b.objects.len() as u32);
    let ghost oall = view_objects(b.objects@);
    proof {
        lemma_view_objects_index(b.objects@);
    }
    let ghost mark2 = out@;
    let mut j: usize = 0;
    proof {
        assert(oall.take(0) =~= Seq::<SpecObjectType>::empty());
        assert(mark2 + spec_ser_objects(oall.take(0)) =~= mark2);
    }
    while j < b.objects.len()
        invariant
            0 <= j <= b.objects@.len(),
            b.objects@.len() == oall.len(),
            oall == view_objects(b.objects@),
            out@ == mark2 + spec_ser_objects(oall.take(j as int)),
        decreases b.objects@.len() - j,
    {
        let o = &b.objects[j];
        proof {
            assert(o@ == oall[j as int]);
            assert(object_wf(oall[j as int]));
        }
        write_object(out, o);
        proof {
            let t1 = oall.take(j + 1);
            assert(t1.drop_last() =~= oall.take(j as int));
            assert(t1.last() == oall[j as int]);
            lemma_ser_objects_snoc(t1);
            assert(out@ =~= mark2 + spec_ser_objects(t1));
        }
        j = j + 1;
    }
    proof {
        assert(oall.take(oall.len() as int) =~= oall);
        assert(out@ =~= old(out)@ + spec_ser_body(b@));
    }
}

/// For every parsed body, the redundant fields in the input are mutually
/// consistent: the total size equals the two block sizes plus eight, and
/// the two count fields both equal the two lists' (equal) lengths.
pub proof fn lemma_body_fields_consistent(s: Seq<u8>, pos: int)
    requires
        0 <= pos <= s.len(),
        spec_parse_body(s, pos) is Ok,
    ensures
        ({
            let (b, n) = spec_parse_body(s, pos)->Ok_0;
            let total = spec_u32_from_le_bytes(s.subrange(pos, pos + 4));
            let hsize = spec_u32_from_le_bytes(s.subrange(pos + 4, pos + 8));
            let hcount = spec_u32_from_le_bytes(s.subrange(pos + 8, pos + 12));
            let ph = pos + 8 + hsize;
            let osize = spec_u32_from_le_bytes(s.subrange(ph, ph + 4));
            let ocount = spec_u32_from_le_bytes(s.subrange(ph + 4, ph + 8));
            &&& pos + 16 + hsize <= s.len()
            &&& total == hsize + osize + 8
            &&& hcount == ocount
            &&& hcount == b.object_headers.len()
            &&& ocount == b.objects.len()
            &&& b.object_headers.len() == b.objects.len()
        }),
{
    let (b, n) = spec_parse_body(s, pos)->Ok_0;
    let hcount = spec_u32_from_le_bytes(s.subrange(pos + 8, pos + 12));
    lemma_parse_object_headers_ok(s, pos + 12, hcount as int);
    let (headers, ph) = spec_parse_object_headers(s, pos + 12, hcount as int)->Ok_0;
    let ocount = spec_u32_from_le_bytes(s.subrange(ph + 4, ph + 8));
    lemma_parse_objects_ok(s, ph + 8, ocount as int);
}

} // verus!

