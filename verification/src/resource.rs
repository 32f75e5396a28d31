use crate::error::ParseError;
use crate::fstring::{spec_parse_fstring, spec_ser_fstring};
use crate::primitive::{
    lemma_lit_round_trip, parse_matches, read_i32, read_lit, spec_parse_i32, spec_parse_lit,
    write_i32, zero_bytes,
};
use crate::utf8::is_utf8;
use vstd::bytes::spec_u32_to_le_bytes;
use vstd::prelude::*;
use vstd::slice::{slice_subrange, slice_to_vec};

verus! {

/// A required game resource: an asset path (stored without the trailing
/// NUL that its wire string carries) and how many of it the blueprint costs.
#[derive(Debug, Clone, PartialEq, Eq)]
pub struct Resource {
    pub resource_path: Vec<u8>,
    pub count: i32,
}

/// The mathematical shape of a [`Resource`].
pub struct SpecResource {
    pub path: Seq<u8>,
    pub count: i32,
}

impl View for Resource {
    type V = SpecResource;

    open spec fn view(&self) -> SpecResource {
        SpecResource { path: self.resource_path@, count: self.count }
    }
}

impl DeepView for Resource {
    type V = SpecResource;

    open spec fn deep_view(&self) -> SpecResource {
        self@
    }
}

/// Well-formed resource: the path plus its NUL fits the string's length
/// field and encodes as UTF-8.
pub open spec fn resource_wf(r: SpecResource) -> bool {
    &&& r.path.len() + 1 <= u32::MAX
    &&& is_utf8(r.path + seq![0u8])
}

/// The wire encoding of a resource: its path as a factory string (NUL
/// appended), then its count.
pub open spec fn spec_ser_resource(r: SpecResource) -> Seq<u8> {
    spec_ser_fstring(r.path + seq![0u8]) + spec_u32_to_le_bytes(r.count as u32)
}

/// What parsing one resource at `pos` yields. The path string must at
/// least hold its own NUL terminator.
pub open spec fn spec_parse_resource(s: Seq<u8>, pos: int) -> Result<
    (SpecResource, int),
    ParseError,
> {
    match spec_parse_fstring(s, pos) {
        Err(e) => Err(e),
        Ok((c, p1)) => if c.len() == 0 {
            Err(ParseError::UnexpectedEndOfInput { offset: (pos + 4) as usize })
        } else {
            match spec_parse_i32(s, p1) {
                Err(e) => Err(e),
                Ok((count, p2)) => Ok((SpecResource { path: c.drop_last(), count }, p2)),
            }
        },
    }
}

/// A successfully parsed resource is well-formed and re-serializes to the
/// bytes it was parsed from.
pub proof fn lemma_parse_resource_ok(s: Seq<u8>, pos: int)
    requires
        0 <= pos <= s.len(),
        spec_parse_resource(s, pos) is Ok,
    ensures
        ({
            let (r, n) = spec_parse_resource(s, pos)->Ok_0;
            &&& pos + 9 <= n <= s.len()
            &&& n == pos + 4 + r.path.len() + 1 + 4
            &&& resource_wf(r)
            &&& spec_ser_resource(r) == s.subrange(pos, n)
        }),
{
    let (r, n) = spec_parse_resource(s, pos)->Ok_0;
    let (c, p1) = spec_parse_fstring(s, pos)->Ok_0;
    crate::fstring::lemma_parse_fstring_ok(s, pos);
    vstd::bytes::lemma_auto_spec_u32_to_from_le_bytes();
    let le = vstd::bytes::spec_u32_from_le_bytes(s.subrange(p1, p1 + 4));
    assert((le as i32) as u32 == le) by (bit_vector);
    assert(spec_u32_to_le_bytes(r.count as u32) == s.subrange(p1, n));
    assert(c.drop_last() + seq![0u8] =~= c);
    crate::primitive::lemma_subrange_cat(s, pos, p1, n);
}

/// Serialized well-formed resources parse back to themselves.
pub proof fn lemma_resource_round_trip(s: Seq<u8>, pos: int, r: SpecResource)
    requires
        resource_wf(r),
        0 <= pos,
        pos + 9 + r.path.len() <= s.len(),
        s.subrange(pos, pos + 9 + r.path.len()) == spec_ser_resource(r),
    ensures
        spec_parse_resource(s, pos) == Ok::<(SpecResource, int), ParseError>(
            (r, pos + 9 + r.path.len()),
        ),
{
    vstd::bytes::lemma_auto_spec_u32_to_from_le_bytes();
    let c = r.path + seq![0u8];
    let p1 = pos + 4 + c.len();
    let n = pos + 9 + r.path.len();
    let a = spec_ser_fstring(c);
    let b = spec_u32_to_le_bytes(r.count as u32);
    assert(spec_ser_resource(r) == a + b);
    crate::primitive::lemma_seq_cat_subrange(s, pos, a, b);
    crate::fstring::lemma_fstring_round_trip(s, pos, c);
    let cnt = r.count;
    assert((cnt as u32) as i32 == cnt) by (bit_vector);
    assert(c.drop_last() =~= r.path);
}

impl Resource {
    /// Builds a resource from its asset path (no trailing NUL) and count.
    pub fn new(resource_path: Vec<u8>, count: i32) -> (r: Resource)
        ensures
            r@ == (SpecResource { path: resource_path@, count }),
    {
        Resource { resource_path, count }
    }

    /// The total wire size of the resource record starting at the front of
    /// `bytes`: its string length field plus the eight framing bytes.
    pub fn resource_size(bytes: &[u8]) -> (r: Option<i32>)
        ensures
            match r {
                Some(v) => bytes@.len() >= 4 && v == vstd::bytes::spec_u32_from_le_bytes(
                    bytes@.subrange(0, 4),
                ) as i32 + 8,
                None => bytes@.len() < 4 || vstd::bytes::spec_u32_from_le_bytes(
                    bytes@.subrange(0, 4),
                ) as i32 + 8 > i32::MAX || vstd::bytes::spec_u32_from_le_bytes(
                    bytes@.subrange(0, 4),
                ) as i32 + 8 < i32::MIN,
            },
    {
        match crate::next_i32(bytes) {
            Some(v) => {
                if v <= i32::MAX - 8 {
                    Some(v + 8)
                } else {
                    None
                }
            },
            None => None,
        }
    }

    /// Parses the resource at the front of `bytes`, handing back the rest.
    pub fn next_resource<'a>(bytes: &'a [u8]) -> (r: Option<(Resource, &'a [u8])>)
        ensures
            match r {
                Some((res, rest)) => {
                    &&& spec_parse_resource(bytes@, 0) matches Ok((v, n)) && res@ == v && rest@
                        == bytes@.subrange(n, bytes@.len() as int)
                },
                None => spec_parse_resource(bytes@, 0) is Err,
            },
    {
        match resource(bytes, 0) {
            Ok((res, n)) => Some((res, slice_subrange(bytes, n, bytes.len()))),
            Err(_) => None,
        }
    }
}

/// Parses one resource record at `pos`.
pub fn resource(input: &[u8], pos: usize) -> (r: Result<(Resource, usize), ParseError>)
    requires
        pos <= input@.len(),
    ensures
        parse_matches(r, spec_parse_resource(input@, pos as int)),
        r matches Ok((v, n)) ==> {
            &&& pos + 9 <= n <= input@.len()
            &&& resource_wf(v@)
            &&& spec_ser_resource(v@) == input@.subrange(pos as int, n as int)
        },
{
    let (fs, p1) = match crate::fstring::fstring(input, pos) {
        Ok(v) => v,
        Err(e) => {
            return Err(e);
        },
    };
    if fs.content.len() == 0 {
        return Err(ParseError::UnexpectedEndOfInput { offset: pos + 4 });
    }
    let (count, p2) = match read_i32(input, p1) {
        Ok(v) => v,
        Err(e) => {
            return Err(e);
        },
    };
    let path = slice_to_vec(slice_subrange(fs.content.as_slice(), 0, fs.content.len() - 1));
    proof {
        assert(path@ =~= fs@.drop_last());
        lemma_parse_resource_ok(input@, pos as int);
    }
    Ok((Resource { resource_path: path, count }, p2))
}

/// Writes one resource record.
pub fn write_resource(out: &mut Vec<u8>, r: &Resource)
    requires
        r@.path.len() + 1 <= u32::MAX,
    ensures
        final(out)@ == old(out)@ + spec_ser_resource(r@),
{
    crate::primitive::write_u32(out, (r.resource_path.len() + 1) as u32);
    let mut p = r.resource_path.clone();
    out.append(&mut p);
    out.push(0u8);
    write_i32(out, r.count);
    assert(out@ =~= old(out)@ + spec_ser_resource(r@)) by {
        assert(spec_ser_fstring(r@.path + seq![0u8]) =~= spec_u32_to_le_bytes(
            (r@.path.len() + 1) as u32,
        ) + r@.path + seq![0u8]);
    }
}

/// Walks a byte buffer resource by resource.
pub struct ResourceIter<'a>(pub &'a [u8]);

impl<'a> ResourceIter<'a> {
    /// Parses the next resource and advances past it; `None` once the
    /// remaining bytes hold no resource record.
    pub fn next(&mut self) -> (r: Option<Resource>)
        ensures
            match r {
                Some(res) => {
                    &&& spec_parse_resource(old(self).0@, 0) matches Ok((v, n)) && res@ == v
                        && final(self).0@ == old(self).0@.subrange(n, old(self).0@.len() as int)
                },
                None => spec_parse_resource(old(self).0@, 0) is Err && final(self).0@ == old(
                    self,
                ).0@,
            },
    {
        match Resource::next_resource(self.0) {
            Some((res, rest)) => {
                self.0 = rest;
                Some(res)
            },
            None => None,
        }
    }
}

/// The wire encoding of a resource list: a count, then the resources,
/// all but the last followed by a four-byte zero separator.
pub open spec fn spec_ser_resource_list(rs: Seq<SpecResource>) -> Seq<u8>
    decreases rs.len(),
{
    if rs.len() == 0 {
        Seq::empty()
    } else if rs.len() == 1 {
        spec_ser_resource(rs[0])
    } else {
        spec_ser_resource(rs[0]) + zero_bytes(4) + spec_ser_resource_list(rs.skip(1))
    }
}

/// The full resource section: the count, then the separated list.
pub open spec fn spec_ser_resources(rs: Seq<SpecResource>) -> Seq<u8> {
    vstd::bytes::spec_u64_to_le_bytes(rs.len() as u64) + spec_ser_resource_list(rs)
}

/// What parsing `k` remaining resources at `pos` yields: all but the last
/// terminated by the zero separator.
pub open spec fn spec_parse_resource_list(s: Seq<u8>, pos: int, k: int) -> Result<
    (Seq<SpecResource>, int),
    ParseError,
>
    decreases k,
{
    if k <= 0 {
        Ok((Seq::empty(), pos))
    } else if k == 1 {
        match spec_parse_resource(s, pos) {
            Err(e) => Err(e),
            Ok((r, n)) => Ok((seq![r], n)),
        }
    } else {
        match spec_parse_resource(s, pos) {
            Err(e) => Err(e),
            Ok((r, p1)) => match spec_parse_lit(s, p1, zero_bytes(4)) {
                Err(e) => Err(e),
                Ok((_, p2)) => match spec_parse_resource_list(s, p2, k - 1) {
                    Err(e) => Err(e),
                    Ok((rest, n)) => Ok((seq![r] + rest, n)),
                },
            },
        }
    }
}

/// What parsing the whole resource section at `pos` yields.
pub open spec fn spec_parse_resources(s: Seq<u8>, pos: int) -> Result<
    (Seq<SpecResource>, int),
    ParseError,
> {
    match crate::primitive::spec_parse_u64(s, pos) {
        Err(e) => Err(e),
        Ok((cnt, p1)) => spec_parse_resource_list(s, p1, cnt as int),
    }
}

/// A successfully parsed resource list is element-wise well-formed, its
/// length is the count asked for, and it re-serializes to the bytes
/// consumed.
pub proof fn lemma_parse_resource_list_ok(s: Seq<u8>, pos: int, k: int)
    requires
        0 <= pos <= s.len(),
        0 <= k,
        spec_parse_resource_list(s, pos, k) is Ok,
    ensures
        ({
            let (rs, n) = spec_parse_resource_list(s, pos, k)->Ok_0;
            &&& pos <= n <= s.len()
            &&& rs.len() == k
            &&& forall|i: int| 0 <= i < rs.len() ==> resource_wf(#[trigger] rs[i])
            &&& spec_ser_resource_list(rs) == s.subrange(pos, n)
        }),
    decreases k,
{
    let (rs, n) = spec_parse_resource_list(s, pos, k)->Ok_0;
    if k == 0 {
        assert(spec_ser_resource_list(rs) =~= s.subrange(pos, pos));
    } else if k == 1 {
        lemma_parse_resource_ok(s, pos);
        assert(rs[0] == spec_parse_resource(s, pos)->Ok_0.0);
        assert(spec_ser_resource_list(rs) == s.subrange(pos, n));
    } else {
        let (r, p1) = spec_parse_resource(s, pos)->Ok_0;
        lemma_parse_resource_ok(s, pos);
        let p2 = spec_parse_lit(s, p1, zero_bytes(4))->Ok_0.1;
        crate::primitive::lemma_parse_lit_ok(s, p1, zero_bytes(4));
        lemma_parse_resource_list_ok(s, p2, k - 1);
        let (rest, _) = spec_parse_resource_list(s, p2, k - 1)->Ok_0;
        assert(rs =~= seq![r] + rest);
        assert((seq![r] + rest).skip(1) =~= rest);
        assert((seq![r] + rest)[0] == r);
        assert(spec_ser_resource_list(rs) =~= s.subrange(pos, n)) by {
            assert(s.subrange(pos, p1) + s.subrange(p1, p2) + s.subrange(p2, n) =~= s.subrange(
                pos,
                n,
            ));
        }
    }
}

/// Serialized well-formed resource lists parse back to themselves.
pub proof fn lemma_resource_list_round_trip(s: Seq<u8>, pos: int, rs: Seq<SpecResource>)
    requires
        forall|i: int| 0 <= i < rs.len() ==> resource_wf(#[trigger] rs[i]),
        0 <= pos,
        pos + spec_ser_resource_list(rs).len() <= s.len(),
        s.subrange(pos, pos + spec_ser_resource_list(rs).len()) == spec_ser_resource_list(rs),
    ensures
        spec_parse_resource_list(s, pos, rs.len() as int) == Ok::<
            (Seq<SpecResource>, int),
            ParseError,
        >((rs, pos + spec_ser_resource_list(rs).len())),
    decreases rs.len(),
{
    vstd::bytes::lemma_auto_spec_u32_to_from_le_bytes();
    let ser = spec_ser_resource_list(rs);
    let n = pos + ser.len();
    if rs.len() == 0 {
        assert(rs =~= Seq::<SpecResource>::empty());
    } else if rs.len() == 1 {
        assert(ser == spec_ser_resource(rs[0]));
        lemma_resource_round_trip(s, pos, rs[0]);
        assert(seq![rs[0]] =~= rs);
    } else {
        let r0 = spec_ser_resource(rs[0]);
        let rest = spec_ser_resource_list(rs.skip(1));
        let p1 = pos + r0.len();
        let p2 = p1 + 4;
        assert(ser == r0 + zero_bytes(4) + rest);
        assert(s.subrange(pos, p1) =~= r0) by {
            assert(forall|i: int| 0 <= i < r0.len() ==> s.subrange(pos, n)[i] == ser[i]);
        }
        assert(rs[0].path.len() + 9 == r0.len());
        lemma_resource_round_trip(s, pos, rs[0]);
        assert(s.subrange(p1, p2) =~= zero_bytes(4)) by {
            assert forall|i: int| 0 <= i < 4 implies #[trigger] (s.subrange(p1, p2)[i])
                == zero_bytes(4)[i] by {
                assert(s.subrange(pos, n)[r0.len() + i] == s[p1 + i]);
                assert(ser[r0.len() + i] == (r0 + zero_bytes(4))[r0.len() + i]);
            }
        }
        lemma_lit_round_trip(s, p1, zero_bytes(4));
        assert(s.subrange(p2, p2 + rest.len()) =~= rest) by {
            assert(forall|i: int|
                0 <= i < rest.len() ==> s.subrange(pos, n)[r0.len() + 4 + i] == rest[i]);
        }
        lemma_resource_list_round_trip(s, p2, rs.skip(1));
        assert(seq![rs[0]] + rs.skip(1) =~= rs);
    }
}

/// Parses the whole resource section at `pos`: a count, then that many
/// resources separated by four-byte zeros.
pub fn resources(input: &[u8], pos: usize) -> (r: Result<(Vec<Resource>, usize), ParseError>)
    requires
        pos <= input@.len(),
    ensures
        match r {
            Ok((v, n)) => {
                &&& spec_parse_resources(input@, pos as int) matches Ok((sv, sn)) && v.deep_view()
                    == sv && n == sn
                &&& pos <= n <= input@.len()
            },
            Err(e) => spec_parse_resources(input@, pos as int) == Err::<
                (Seq<SpecResource>, int),
                ParseError,
            >(e),
        },
{
    let ghost s = input@;
    let (cnt, p1) = match crate::primitive::read_u64(input, pos) {
        Ok(v) => v,
        Err(e) => {
            return Err(e);
        },
    };
    let mut acc: Vec<Resource> = Vec::new();
    let mut cur = p1;
    let mut remaining = cnt;
    let zeros: [u8; 4] = [0u8, 0u8, 0u8, 0u8];
    proof {
        assert(acc.deep_view() =~= Seq::<SpecResource>::empty());
        let full = spec_parse_resource_list(s, p1 as int, cnt as int);
        if full is Ok {
            let (rest, n) = full->Ok_0;
            assert(acc.deep_view() + rest =~= rest);
        }
    }
    while remaining > 0
        invariant
            s == input@,
            pos <= cur <= s.len(),
            acc.deep_view().len() + remaining == cnt,
            zeros@ =~= zero_bytes(4),
            spec_parse_resource_list(s, p1 as int, cnt as int) == (match spec_parse_resource_list(
                s,
                cur as int,
                remaining as int,
            ) {
                Ok((rest, n)) => Ok::<(Seq<SpecResource>, int), ParseError>(
                    (acc.deep_view() + rest, n),
                ),
                Err(e) => Err::<(Seq<SpecResource>, int), ParseError>(e),
            }),
        decreases remaining,
    {
        let ghost acc0 = acc.deep_view();
        let (res, n1) = match resource(input, cur) {
            Ok(v) => v,
            Err(e) => {
                return Err(e);
            },
        };
        acc.push(res);
        proof {
            assert(acc.deep_view() =~= acc0 + seq![res@]);
        }
        if remaining > 1 {
            let n2 = match read_lit(input, n1, zeros.as_slice()) {
                Ok(v) => v,
                Err(e) => {
                    return Err(e);
                },
            };
            proof {
                if spec_parse_resource_list(s, n2 as int, remaining - 1) is Ok {
                    let (rest, m) = spec_parse_resource_list(s, n2 as int, remaining - 1)->Ok_0;
                    assert(acc0 + (seq![res@] + rest) =~= acc.deep_view() + rest);
                }
            }
            cur = n2;
        } else {
            proof {
                assert(acc0 + seq![res@] =~= acc.deep_view() + Seq::<SpecResource>::empty());
            }
            cur = n1;
        }
        remaining = remaining - 1;
    }
    proof {
        assert(spec_parse_resource_list(s, cur as int, 0) == Ok::<
            (Seq<SpecResource>, int),
            ParseError,
        >((Seq::empty(), cur as int)));
        assert(acc.deep_view() + Seq::<SpecResource>::empty() =~= acc.deep_view());
    }
    Ok((acc, cur))
}

/// Dropping the last resource drops its serialization and, unless it was
/// alone, the separator before it.
pub proof fn lemma_ser_resource_list_snoc(rs: Seq<SpecResource>)
    requires
        rs.len() >= 1,
    ensures
        spec_ser_resource_list(rs) == spec_ser_resource_list(rs.drop_last()) + (if rs.len() > 1 {
            zero_bytes(4)
        } else {
            Seq::<u8>::empty()
        }) + spec_ser_resource(rs.last()),
    decreases rs.len(),
{
    if rs.len() == 1 {
        assert(spec_ser_resource_list(rs.drop_last()) + Seq::<u8>::empty() + spec_ser_resource(
            rs.last(),
        ) =~= spec_ser_resource(rs[0]));
    } else if rs.len() == 2 {
        assert(rs.skip(1) =~= seq![rs[1]]);
        assert(rs.drop_last() =~= seq![rs[0]]);
        assert(spec_ser_resource_list(rs.drop_last()) + zero_bytes(4) + spec_ser_resource(
            rs.last(),
        ) =~= spec_ser_resource(rs[0]) + zero_bytes(4) + spec_ser_resource_list(rs.skip(1)));
    } else {
        lemma_ser_resource_list_snoc(rs.skip(1));
        assert(rs.skip(1).drop_last() =~= rs.drop_last().skip(1));
        assert(rs.skip(1).last() == rs.last());
        assert(spec_ser_resource_list(rs.drop_last()) == spec_ser_resource(rs[0]) + zero_bytes(4)
            + spec_ser_resource_list(rs.drop_last().skip(1))) by {
            assert(rs.drop_last()[0] == rs[0]);
        }
        assert(spec_ser_resource_list(rs.drop_last()) + zero_bytes(4) + spec_ser_resource(
            rs.last(),
        ) =~= spec_ser_resource(rs[0]) + zero_bytes(4) + (spec_ser_resource_list(
            rs.drop_last().skip(1),
        ) + zero_bytes(4) + spec_ser_resource(rs.skip(1).last())));
    }
}

/// Writes the whole resource section.
pub fn write_resources(out: &mut Vec<u8>, rs: &Vec<Resource>)
    requires
        forall|i: int| 0 <= i < rs.deep_view().len() ==> (#[trigger] rs.deep_view()[i]).path.len()
            + 1 <= u32::MAX,
    ensures
        final(out)@ == old(out)@ + spec_ser_resources(rs.deep_view()),
{
    crate::primitive::write_u64(out, rs.len() as u64);
    let ghost all = rs.deep_view();
    let ghost head = old(out)@ + vstd::bytes::spec_u64_to_le_bytes(rs@.len() as u64);
    let mut i: usize = 0;
    proof {
        assert(all.take(0) =~= Seq::<SpecResource>::empty());
        assert(head + spec_ser_resource_list(all.take(0)) =~= head);
    }
    while i < rs.len()
        invariant
            all == rs.deep_view(),
            forall|j: int| 0 <= j < all.len() ==> (#[trigger] all[j]).path.len() + 1 <= u32::MAX,
            0 <= i <= rs@.len(),
            rs@.len() == all.len(),
            out@ == head + spec_ser_resource_list(all.take(i as int)),
        decreases rs@.len() - i,
    {
        let ghost pre = out@;
        if i > 0 {
            crate::primitive::write_zeros(out, 4);
        }
        let r = &rs[i];
        assert(r@ == all[i as int]);
        write_resource(out, r);
        proof {
            let t1 = all.take(i + 1);
            assert(t1.drop_last() =~= all.take(i as int));
            assert(t1.last() == all[i as int]);
            lemma_ser_resource_list_snoc(t1);
            if i > 0 {
                assert(out@ =~= head + spec_ser_resource_list(t1));
            } else {
                assert(out@ =~= head + spec_ser_resource_list(t1));
            }
        }
        i = i + 1;
    }
    proof {
        assert(all.take(all.len() as int) =~= all);
        assert(head + spec_ser_resource_list(all) =~= old(out)@ + spec_ser_resources(all));
    }
}

} // verus!
