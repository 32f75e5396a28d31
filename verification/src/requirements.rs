use crate::error::ParseError;
use crate::fstring::{fstr_wf, spec_parse_fstring, spec_ser_fstring, FStr};
use crate::primitive::{spec_parse_u64, zero_bytes};
use vstd::prelude::*;
use vstd::slice::slice_index_get;

verus! {

/// One required mod: its identifier string and the number of zero padding
/// bytes observed after it. Real files carry no padding; the reader
/// tolerates any amount and the writer reproduces what was read.
#[derive(Debug, Clone, PartialEq, Eq)]
pub struct ModRequirement {
    pub name: FStr,
    pub padding: usize,
}

/// The mathematical shape of a [`ModRequirement`].
pub struct SpecModRequirement {
    pub name: Seq<u8>,
    pub padding: int,
}

impl View for ModRequirement {
    type V = SpecModRequirement;

    open spec fn view(&self) -> SpecModRequirement {
        SpecModRequirement { name: self.name@, padding: self.padding as int }
    }
}

impl DeepView for ModRequirement {
    type V = SpecModRequirement;

    open spec fn deep_view(&self) -> SpecModRequirement {
        self@
    }
}

/// Well-formed mod requirement: a well-formed string and non-negative padding.
pub open spec fn mod_requirement_wf(m: SpecModRequirement) -> bool {
    &&& fstr_wf(m.name)
    &&& m.padding >= 0
}

/// The wire encoding of one mod requirement.
pub open spec fn spec_ser_mod_requirement(m: SpecModRequirement) -> Seq<u8> {
    spec_ser_fstring(m.name) + zero_bytes(m.padding)
}

/// The wire encoding of the mod list body, entry after entry.
pub open spec fn spec_ser_mod_list(ms: Seq<SpecModRequirement>) -> Seq<u8>
    decreases ms.len(),
{
    if ms.len() == 0 {
        Seq::empty()
    } else {
        spec_ser_mod_requirement(ms[0]) + spec_ser_mod_list(ms.skip(1))
    }
}

/// The full mod-requirements section: a count, then the entries.
pub open spec fn spec_ser_requirements(ms: Seq<SpecModRequirement>) -> Seq<u8> {
    vstd::bytes::spec_u64_to_le_bytes(ms.len() as u64) + spec_ser_mod_list(ms)
}

/// How many zero bytes stand at `pos`: the greedy count the reader consumes.
pub open spec fn spec_count_zeros(s: Seq<u8>, pos: int) -> int
    decreases s.len() - pos,
{
    if pos < 0 || pos >= s.len() {
        0
    } else if s[pos] == 0 {
        1 + spec_count_zeros(s, pos + 1)
    } else {
        0
    }
}

/// The greedy zero count stays in bounds, covers only zero bytes, and stops
/// before the first non-zero byte.
pub proof fn lemma_count_zeros(s: Seq<u8>, pos: int)
    requires
        0 <= pos <= s.len(),
    ensures
        ({
            let z = spec_count_zeros(s, pos);
            &&& 0 <= z
            &&& pos + z <= s.len()
            &&& s.subrange(pos, pos + z) == zero_bytes(z)
            &&& pos + z < s.len() ==> s[pos + z] != 0
        }),
    decreases s.len() - pos,
{
    let z = spec_count_zeros(s, pos);
    if pos < s.len() && s[pos] == 0 {
        lemma_count_zeros(s, pos + 1);
        assert(s.subrange(pos, pos + z) =~= zero_bytes(z)) by {
            assert forall|i: int| 0 <= i < z implies #[trigger] (s.subrange(pos, pos + z)[i])
                == 0u8 by {
                if i > 0 {
                    assert(s.subrange(pos + 1, pos + z)[i - 1] == s[pos + i]);
                    assert(zero_bytes(z - 1)[i - 1] == 0u8);
                }
            }
        }
    } else {
        assert(s.subrange(pos, pos) =~= zero_bytes(0));
    }
}

/// Where `z` zero bytes at `pos` are followed by a non-zero byte or the end
/// of the input, the greedy count is exactly `z`.
pub proof fn lemma_count_zeros_exact(s: Seq<u8>, pos: int, z: int)
    requires
        0 <= pos,
        0 <= z,
        pos + z <= s.len(),
        s.subrange(pos, pos + z) == zero_bytes(z),
        pos + z < s.len() ==> s[pos + z] != 0,
    ensures
        spec_count_zeros(s, pos) == z,
    decreases z,
{
    if z == 0 {
    } else {
        assert(s[pos] == 0) by {
            assert(s.subrange(pos, pos + z)[0] == s[pos]);
        }
        assert(s.subrange(pos + 1, pos + z) =~= zero_bytes(z - 1)) by {
            assert forall|i: int| 0 <= i < z - 1 implies #[trigger] (s.subrange(pos + 1, pos + z)[
            i]) == 0u8 by {
                assert(s.subrange(pos, pos + z)[i + 1] == s[pos + 1 + i]);
            }
        }
        lemma_count_zeros_exact(s, pos + 1, z - 1);
    }
}

/// What parsing `k` remaining mod requirements at `pos` yields: each entry
/// is a string followed by however many zero bytes stand after it.
pub open spec fn spec_parse_mod_list(s: Seq<u8>, pos: int, k: int) -> Result<
    (Seq<SpecModRequirement>, int),
    ParseError,
>
    decreases k,
{
    if k <= 0 {
        Ok((Seq::empty(), pos))
    } else {
        match spec_parse_fstring(s, pos) {
            Err(e) => Err(e),
            Ok((c, p1)) => {
                let z = spec_count_zeros(s, p1);
                match spec_parse_mod_list(s, p1 + z, k - 1) {
                    Err(e) => Err(e),
                    Ok((rest, n)) => Ok(
                        (seq![SpecModRequirement { name: c, padding: z }] + rest, n),
                    ),
                }
            },
        }
    }
}

/// What parsing the whole mod-requirements section at `pos` yields.
pub open spec fn spec_parse_requirements(s: Seq<u8>, pos: int) -> Result<
    (Seq<SpecModRequirement>, int),
    ParseError,
> {
    match spec_parse_u64(s, pos) {
        Err(e) => Err(e),
        Ok((cnt, p1)) => spec_parse_mod_list(s, p1, cnt as int),
    }
}

/// A successfully parsed mod list is element-wise well-formed, has the
/// length asked for, and re-serializes to the bytes consumed.
pub proof fn lemma_parse_mod_list_ok(s: Seq<u8>, pos: int, k: int)
    requires
        0 <= pos <= s.len(),
        0 <= k,
        spec_parse_mod_list(s, pos, k) is Ok,
    ensures
        ({
            let (ms, n) = spec_parse_mod_list(s, pos, k)->Ok_0;
            &&& pos <= n <= s.len()
            &&& ms.len() == k
            &&& forall|i: int| 0 <= i < ms.len() ==> mod_requirement_wf(#[trigger] ms[i])
            &&& spec_ser_mod_list(ms) == s.subrange(pos, n)
        }),
    decreases k,
{
    let (ms, n) = spec_parse_mod_list(s, pos, k)->Ok_0;
    if k == 0 {
        assert(spec_ser_mod_list(ms) =~= s.subrange(pos, pos));
    } else {
        let (c, p1) = spec_parse_fstring(s, pos)->Ok_0;
        crate::fstring::lemma_parse_fstring_ok(s, pos);
        let z = spec_count_zeros(s, p1);
        lemma_count_zeros(s, p1);
        lemma_parse_mod_list_ok(s, p1 + z, k - 1);
        let (rest, _) = spec_parse_mod_list(s, p1 + z, k - 1)->Ok_0;
        let head = SpecModRequirement { name: c, padding: z };
        assert(ms == seq![head] + rest);
        assert((seq![head] + rest).skip(1) =~= rest);
        assert(spec_ser_mod_list(ms) =~= s.subrange(pos, n)) by {
            crate::primitive::lemma_subrange_cat(s, pos, p1, p1 + z);
            crate::primitive::lemma_subrange_cat(s, pos, p1 + z, n);
            assert(spec_ser_mod_requirement(head) == s.subrange(pos, p1 + z));
        }
    }
}

/// True when re-reading the serialized list greedily recovers the same
/// entries: every entry after the first begins with a byte that is not
/// zero (the low byte of its string's length field), so the greedy padding
/// reader stops exactly where the previous entry's padding ends.
pub open spec fn mod_list_unambiguous(ms: Seq<SpecModRequirement>) -> bool {
    forall|i: int| 1 <= i < ms.len() ==> (#[trigger] spec_ser_fstring(ms[i].name))[0] != 0
}

/// Serialized well-formed, unambiguous mod lists parse back to themselves,
/// provided the byte after the list (if any) is not zero.
pub proof fn lemma_mod_list_round_trip(s: Seq<u8>, pos: int, ms: Seq<SpecModRequirement>)
    requires
        forall|i: int| 0 <= i < ms.len() ==> mod_requirement_wf(#[trigger] ms[i]),
        mod_list_unambiguous(ms),
        0 <= pos,
        pos + spec_ser_mod_list(ms).len() <= s.len(),
        s.subrange(pos, pos + spec_ser_mod_list(ms).len()) == spec_ser_mod_list(ms),
        pos + spec_ser_mod_list(ms).len() < s.len() ==> s[pos + spec_ser_mod_list(ms).len()] != 0,
    ensures
        spec_parse_mod_list(s, pos, ms.len() as int) == Ok::<
            (Seq<SpecModRequirement>, int),
            ParseError,
        >((ms, pos + spec_ser_mod_list(ms).len())),
    decreases ms.len(),
{
    vstd::bytes::lemma_auto_spec_u32_to_from_le_bytes();
    let ser = spec_ser_mod_list(ms);
    let n = pos + ser.len();
    if ms.len() == 0 {
        assert(ms =~= Seq::<SpecModRequirement>::empty());
    } else {
        let m0 = ms[0];
        let a = spec_ser_fstring(m0.name);
        let b = zero_bytes(m0.padding);
        let rest = spec_ser_mod_list(ms.skip(1));
        assert(ser == (a + b) + rest);
        assert(a.len() == 4 + m0.name.len());
        crate::primitive::lemma_seq_cat_subrange(s, pos, a + b, rest);
        crate::primitive::lemma_seq_cat_subrange(s, pos, a, b);
        crate::fstring::lemma_fstring_round_trip(s, pos, m0.name);
        let p1 = pos + a.len();
        let pz = p1 + m0.padding;
        assert(spec_count_zeros(s, p1) == m0.padding) by {
            if pz < s.len() {
                if ms.len() > 1 {
                    assert(s[pz] != 0) by {
                        assert(s.subrange(pz, n)[0] == s[pz]);
                        assert(rest[0] == spec_ser_mod_requirement(ms[1])[0]);
                        assert(spec_ser_mod_requirement(ms[1])[0] == spec_ser_fstring(
                            ms[1].name,
                        )[0]);
                        assert(spec_ser_fstring(ms[1].name)[0] != 0);
                    }
                } else {
                    assert(rest.len() == 0);
                    assert(pz == n);
                }
            }
            lemma_count_zeros_exact(s, p1, m0.padding);
        }
        lemma_mod_list_round_trip(s, pz, ms.skip(1));
        assert(seq![m0] + ms.skip(1) =~= ms);
    }
}

/// Parses the whole mod-requirements section at `pos`: a count, then that
/// many strings, each with whatever zero padding follows it.
pub fn requirements(input: &[u8], pos: usize) -> (r: Result<(Vec<ModRequirement>, usize), ParseError>)
    requires
        pos <= input@.len(),
    ensures
        match r {
            Ok((v, n)) => {
                &&& spec_parse_requirements(input@, pos as int) matches Ok((sv, sn))
                    && v.deep_view() == sv && n == sn
                &&& pos <= n <= input@.len()
            },
            Err(e) => spec_parse_requirements(input@, pos as int) == Err::<
                (Seq<SpecModRequirement>, int),
                ParseError,
            >(e),
        },
{
    let ghost s = input@;
    let (cnt, p1) = match crate::primitive::read_u64(input, pos) {
        Ok(v) => v,
        Err(e) => {
            return Err(e);
        },
    };
    let mut acc: Vec<ModRequirement> = Vec::new();
    let mut cur = p1;
    let mut remaining = cnt;
    proof {
        let full = spec_parse_mod_list(s, p1 as int, cnt as int);
        if full is Ok {
            let (rest, n) = full->Ok_0;
            assert(acc.deep_view() + rest =~= rest);
        }
    }
    while remaining > 0
        invariant
            pos <= cur <= s.len(),
            acc.deep_view().len() + remaining == cnt,
            spec_parse_mod_list(s, p1 as int, cnt as int) == (match spec_parse_mod_list(
                s,
                cur as int,
                remaining as int,
            ) {
                Ok((rest, n)) => Ok::<(Seq<SpecModRequirement>, int), ParseError>(
                    (acc.deep_view() + rest, n),
                ),
                Err(e) => Err::<(Seq<SpecModRequirement>, int), ParseError>(e),
            }),
        decreases remaining,
    {
        let ghost acc0 = acc.deep_view();
        let (name, n1) = match crate::fstring::fstring(input, cur) {
            Ok(v) => v,
            Err(e) => {
                return Err(e);
            },
        };
        let mut n2 = n1;
        while n2 < input.len() && *slice_index_get(input, n2) == 0
            invariant
                n1 <= n2 <= s.len(),
                spec_count_zeros(s, n1 as int) == n2 - n1 + spec_count_zeros(s, n2 as int),
            decreases s.len() - n2,
        {
            n2 = n2 + 1;
        }
        assert(spec_count_zeros(s, n2 as int) == 0);
        let ghost z = spec_count_zeros(s, n1 as int);
        assert(z == n2 - n1);
        acc.push(ModRequirement { name, padding: n2 - n1 });
        proof {
            let head = SpecModRequirement { name: name@, padding: z };
            assert(acc.deep_view() =~= acc0 + seq![head]);
            if spec_parse_mod_list(s, n2 as int, remaining - 1) is Ok {
                let (rest, m) = spec_parse_mod_list(s, n2 as int, remaining - 1)->Ok_0;
                assert(acc0 + (seq![head] + rest) =~= acc.deep_view() + rest);
            }
        }
        cur = n2;
        remaining = remaining - 1;
    }
    proof {
        assert(acc.deep_view() + Seq::<SpecModRequirement>::empty() =~= acc.deep_view());
    }
    Ok((acc, cur))
}

/// Dropping the last entry of the mod list drops its serialization.
pub proof fn lemma_ser_mod_list_snoc(ms: Seq<SpecModRequirement>)
    requires
        ms.len() >= 1,
    ensures
        spec_ser_mod_list(ms) == spec_ser_mod_list(ms.drop_last()) + spec_ser_mod_requirement(
            ms.last(),
        ),
    decreases ms.len(),
{
    if ms.len() == 1 {
        assert(ms.drop_last() =~= Seq::<SpecModRequirement>::empty());
        assert(spec_ser_mod_list(ms.drop_last()) + spec_ser_mod_requirement(ms.last())
            =~= spec_ser_mod_requirement(ms[0]) + spec_ser_mod_list(ms.skip(1)));
    } else {
        lemma_ser_mod_list_snoc(ms.skip(1));
        assert(ms.skip(1).drop_last() =~= ms.drop_last().skip(1));
        assert(ms.drop_last()[0] == ms[0]);
        assert(spec_ser_mod_list(ms.drop_last()) + spec_ser_mod_requirement(ms.last())
            =~= spec_ser_mod_requirement(ms[0]) + (spec_ser_mod_list(ms.drop_last().skip(1))
            + spec_ser_mod_requirement(ms.skip(1).last())));
    }
}

/// Writes the whole mod-requirements section.
pub fn write_requirements(out: &mut Vec<u8>, ms: &Vec<ModRequirement>)
    requires
        forall|i: int| 0 <= i < ms.deep_view().len() ==> (#[trigger] ms.deep_view()[i]).name.len()
            <= u32::MAX,
    ensures
        final(out)@ == old(out)@ + spec_ser_requirements(ms.deep_view()),
{
    crate::primitive::write_u64(out, ms.len() as u64);
    let ghost all = ms.deep_view();
    let ghost head = old(out)@ + vstd::bytes::spec_u64_to_le_bytes(ms@.len() as u64);
    let mut i: usize = 0;
    proof {
        assert(all.take(0) =~= Seq::<SpecModRequirement>::empty());
        assert(head + spec_ser_mod_list(all.take(0)) =~= head);
    }
    while i < ms.len()
        invariant
            0 <= i <= ms@.len(),
            ms@.len() == all.len(),
            out@ == head + spec_ser_mod_list(all.take(i as int)),
        decreases ms@.len() - i,
    {
        let m = &ms[i];
        assert(m@ == all[i as int]);
        crate::fstring::write_fstring(out, &m.name);
        crate::primitive::write_zeros(out, m.padding);
        proof {
            let t1 = all.take(i + 1);
            assert(t1.drop_last() =~= all.take(i as int));
            assert(t1.last() == all[i as int]);
            lemma_ser_mod_list_snoc(t1);
            assert(out@ =~= head + spec_ser_mod_list(t1));
        }
        i = i + 1;
    }
    proof {
        assert(all.take(all.len() as int) =~= all);
        assert(head + spec_ser_mod_list(all) =~= old(out)@ + spec_ser_requirements(all));
    }
}

} // verus!
