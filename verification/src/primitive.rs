use crate::error::ParseError;
use vstd::bytes::{
    spec_u32_from_le_bytes, spec_u32_to_le_bytes, spec_u64_from_le_bytes, spec_u64_to_le_bytes,
    u32_from_le_bytes, u32_to_le_bytes, u64_from_le_bytes, u64_to_le_bytes,
};
use vstd::prelude::*;
use vstd::slice::{slice_index_get, slice_subrange};

verus! {

/// Relates the result of an executable parser to its specification: the
/// parser returns exactly what the specification says, value (through its
/// view), end position and error alike.
pub open spec fn parse_matches<T: View>(
    r: Result<(T, usize), ParseError>,
    s: Result<(T::V, int), ParseError>,
) -> bool {
    match r {
        Ok((v, n)) => s == Ok::<(T::V, int), ParseError>((v@, n as int)),
        Err(e) => s == Err::<(T::V, int), ParseError>(e),
    }
}

/// What parsing a little-endian `u32` at `pos` yields.
pub open spec fn spec_parse_u32(s: Seq<u8>, pos: int) -> Result<(u32, int), ParseError> {
    if pos + 4 <= s.len() {
        Ok((spec_u32_from_le_bytes(s.subrange(pos, pos + 4)), pos + 4))
    } else {
        Err(ParseError::UnexpectedEndOfInput { offset: pos as usize })
    }
}

/// What parsing a little-endian `i32` at `pos` yields: the same four bytes,
/// reinterpreted as a signed value.
pub open spec fn spec_parse_i32(s: Seq<u8>, pos: int) -> Result<(i32, int), ParseError> {
    match spec_parse_u32(s, pos) {
        Ok((v, n)) => Ok((v as i32, n)),
        Err(e) => Err(e),
    }
}

/// What parsing a little-endian `u64` at `pos` yields.
pub open spec fn spec_parse_u64(s: Seq<u8>, pos: int) -> Result<(u64, int), ParseError> {
    if pos + 8 <= s.len() {
        Ok((spec_u64_from_le_bytes(s.subrange(pos, pos + 8)), pos + 8))
    } else {
        Err(ParseError::UnexpectedEndOfInput { offset: pos as usize })
    }
}

/// What parsing a little-endian `i64` at `pos` yields.
pub open spec fn spec_parse_i64(s: Seq<u8>, pos: int) -> Result<(i64, int), ParseError> {
    match spec_parse_u64(s, pos) {
        Ok((v, n)) => Ok((v as i64, n)),
        Err(e) => Err(e),
    }
}

/// What parsing a single byte at `pos` yields.
pub open spec fn spec_parse_u8(s: Seq<u8>, pos: int) -> Result<(u8, int), ParseError> {
    if pos + 1 <= s.len() {
        Ok((s[pos], pos + 1))
    } else {
        Err(ParseError::UnexpectedEndOfInput { offset: pos as usize })
    }
}

/// What matching the fixed byte literal `lit` at `pos` yields: the position
/// after the literal, or the first byte that differs.
pub open spec fn spec_parse_lit(s: Seq<u8>, pos: int, lit: Seq<u8>) -> Result<((), int), ParseError>
    decreases lit.len(),
{
    if lit.len() == 0 {
        Ok(((), pos))
    } else if pos >= s.len() {
        Err(ParseError::UnexpectedEndOfInput { offset: pos as usize })
    } else if s[pos] != lit[0] {
        Err(ParseError::TagMismatch { offset: pos as usize, expected: lit[0], actual: s[pos] })
    } else {
        spec_parse_lit(s, pos + 1, lit.skip(1))
    }
}

/// A sequence of `n` zero bytes: the separator padding the format uses.
pub open spec fn zero_bytes(n: int) -> Seq<u8> {
    Seq::new(if n >= 0 {
        n as nat
    } else {
        0
    }, |i: int| 0u8)
}

/// On success the literal occupies exactly the bytes it matched.
pub proof fn lemma_parse_lit_ok(s: Seq<u8>, pos: int, lit: Seq<u8>)
    requires
        spec_parse_lit(s, pos, lit) is Ok,
        0 <= pos <= s.len(),
    ensures
        spec_parse_lit(s, pos, lit) == Ok::<((), int), ParseError>(((), pos + lit.len())),
        pos + lit.len() <= s.len(),
        s.subrange(pos, pos + lit.len()) == lit,
    decreases lit.len(),
{
    if lit.len() == 0 {
        assert(s.subrange(pos, pos) =~= lit);
    } else {
        lemma_parse_lit_ok(s, pos + 1, lit.skip(1));
        assert(s.subrange(pos, pos + lit.len()) =~= lit) by {
            assert forall|i: int| 0 <= i < lit.len() implies s.subrange(pos, pos + lit.len())[i]
                == lit[i] by {
                if i > 0 {
                    assert(lit[i] == lit.skip(1)[i - 1]);
                    assert(s.subrange(pos + 1, pos + 1 + lit.skip(1).len())[i - 1] == s[pos + i]);
                }
            }
        }
    }
}

/// Conversely, wherever the input holds the literal, matching it succeeds.
pub proof fn lemma_lit_round_trip(s: Seq<u8>, pos: int, lit: Seq<u8>)
    requires
        0 <= pos,
        pos + lit.len() <= s.len(),
        s.subrange(pos, pos + lit.len()) == lit,
    ensures
        spec_parse_lit(s, pos, lit) == Ok::<((), int), ParseError>(((), pos + lit.len())),
    decreases lit.len(),
{
    if lit.len() > 0 {
        assert(s[pos] == lit[0]) by {
            assert(s.subrange(pos, pos + lit.len())[0] == s[pos]);
        }
        assert(s.subrange(pos + 1, pos + 1 + lit.skip(1).len()) =~= lit.skip(1)) by {
            assert forall|i: int| 0 <= i < lit.len() - 1 implies s.subrange(
                pos + 1,
                pos + lit.len(),
            )[i] == lit.skip(1)[i] by {
                assert(s.subrange(pos, pos + lit.len())[i + 1] == s[pos + 1 + i]);
            }
        }
        lemma_lit_round_trip(s, pos + 1, lit.skip(1));
    }
}

/// Splitting a span of the input at `mid` splits its bytes.
pub proof fn lemma_subrange_cat(s: Seq<u8>, pos: int, mid: int, n: int)
    requires
        0 <= pos <= mid <= n <= s.len(),
    ensures
        s.subrange(pos, n) == s.subrange(pos, mid) + s.subrange(mid, n),
{
    assert(s.subrange(pos, n) =~= s.subrange(pos, mid) + s.subrange(mid, n));
}

/// When a span of the input holds the concatenation `a + b`, its front
/// holds `a` and its back holds `b`.
pub proof fn lemma_seq_cat_subrange(s: Seq<u8>, pos: int, a: Seq<u8>, b: Seq<u8>)
    requires
        0 <= pos,
        pos + a.len() + b.len() <= s.len(),
        s.subrange(pos, pos + a.len() + b.len()) == a + b,
    ensures
        s.subrange(pos, pos + a.len()) == a,
        s.subrange(pos + a.len(), pos + a.len() + b.len()) == b,
{
    let whole = s.subrange(pos, pos + a.len() + b.len());
    assert(s.subrange(pos, pos + a.len()) =~= a) by {
        assert forall|i: int| 0 <= i < a.len() implies #[trigger] (s.subrange(pos, pos + a.len())[
        i]) == a[i] by {
            assert(whole[i] == s[pos + i]);
            assert((a + b)[i] == a[i]);
        }
    }
    assert(s.subrange(pos + a.len(), pos + a.len() + b.len()) =~= b) by {
        assert forall|i: int| 0 <= i < b.len() implies #[trigger] (s.subrange(
            pos + a.len(),
            pos + a.len() + b.len(),
        )[i]) == b[i] by {
            assert(whole[a.len() + i] == s[pos + a.len() + i]);
            assert((a + b)[a.len() + i] == b[i]);
        }
    }
}

/// Reads a little-endian `u32` at `pos`.
pub fn read_u32(input: &[u8], pos: usize) -> (r: Result<(u32, usize), ParseError>)
    requires
        pos <= input@.len(),
    ensures
        parse_matches(r, spec_parse_u32(input@, pos as int)),
{
    if input.len() - pos >= 4 {
        let sub = slice_subrange(input, pos, pos + 4);
        Ok((u32_from_le_bytes(sub), pos + 4))
    } else {
        Err(ParseError::UnexpectedEndOfInput { offset: pos })
    }
}

/// Reads a little-endian `i32` at `pos`.
pub fn read_i32(input: &[u8], pos: usize) -> (r: Result<(i32, usize), ParseError>)
    requires
        pos <= input@.len(),
    ensures
        parse_matches(r, spec_parse_i32(input@, pos as int)),
{
    match read_u32(input, pos) {
        Ok((v, n)) => Ok((v as i32, n)),
        Err(e) => Err(e),
    }
}

/// Reads a little-endian `u64` at `pos`.
pub fn read_u64(input: &[u8], pos: usize) -> (r: Result<(u64, usize), ParseError>)
    requires
        pos <= input@.len(),
    ensures
        parse_matches(r, spec_parse_u64(input@, pos as int)),
{
    if input.len() - pos >= 8 {
        let sub = slice_subrange(input, pos, pos + 8);
        Ok((u64_from_le_bytes(sub), pos + 8))
    } else {
        Err(ParseError::UnexpectedEndOfInput { offset: pos })
    }
}

/// Reads one byte at `pos`.
pub fn read_u8(input: &[u8], pos: usize) -> (r: Result<(u8, usize), ParseError>)
    requires
        pos <= input@.len(),
    ensures
        parse_matches(r, spec_parse_u8(input@, pos as int)),
{
    if input.len() - pos >= 1 {
        Ok((*slice_index_get(input, pos), pos + 1))
    } else {
        Err(ParseError::UnexpectedEndOfInput { offset: pos })
    }
}

/// Matches the fixed byte literal `lit` at `pos`.
pub fn read_lit(input: &[u8], pos: usize, lit: &[u8]) -> (r: Result<usize, ParseError>)
    requires
        pos <= input@.len(),
    ensures
        match r {
            Ok(n) => spec_parse_lit(input@, pos as int, lit@) == Ok::<((), int), ParseError>(
                ((), n as int),
            ) && n == pos + lit@.len() <= input@.len(),
            Err(e) => spec_parse_lit(input@, pos as int, lit@) == Err::<((), int), ParseError>(e),
        },
{
    let ghost s = input@;
    let ghost full = lit@;
    proof {
        assert(full.skip(0) =~= full);
    }
    let mut i: usize = 0;
    while i < lit.len()
        invariant
            0 <= i <= lit@.len(),
            pos + i <= s.len(),
            s == input@,
            full == lit@,
            spec_parse_lit(s, pos as int, full) == spec_parse_lit(s, pos + i, full.skip(i as int)),
        decreases lit@.len() - i,
    {
        let ghost rest = full.skip(i as int);
        assert(rest[0] == full[i as int]);
        if input.len() - pos <= i {
            assert(pos + i >= s.len());
            return Err(ParseError::UnexpectedEndOfInput { offset: pos + i });
        }
        let b = *slice_index_get(input, pos + i);
        let l = *slice_index_get(lit, i);
        if b != l {
            return Err(ParseError::TagMismatch { offset: pos + i, expected: l, actual: b });
        }
        assert(rest.skip(1) =~= full.skip(i + 1));
        i = i + 1;
    }
    assert(full.skip(i as int).len() == 0);
    proof {
        lemma_parse_lit_ok(s, pos as int, full);
    }
    let total = input.len();
    assert(pos + i <= total);
    Ok(pos + i)
}

/// Compares two byte slices for equality.
pub fn bytes_eq(a: &[u8], b: &[u8]) -> (r: bool)
    ensures
        r == (a@ == b@),
{
    if a.len() != b.len() {
        assert(a@.len() != b@.len());
        return false;
    }
    let n = a.len();
    let mut i: usize = 0;
    while i < n
        invariant
            0 <= i <= n,
            n == a@.len() == b@.len(),
            forall|j: int| 0 <= j < i ==> a@[j] == b@[j],
        decreases n - i,
    {
        if *slice_index_get(a, i) != *slice_index_get(b, i) {
            assert(a@ != b@);
            return false;
        }
        i = i + 1;
    }
    assert(a@ =~= b@);
    true
}

/// Appends the little-endian encoding of `v`.
pub fn write_u32(out: &mut Vec<u8>, v: u32)
    ensures
        final(out)@ == old(out)@ + spec_u32_to_le_bytes(v),
{
    let mut b = u32_to_le_bytes(v);
    out.append(&mut b);
}

/// Appends the little-endian encoding of `v`.
pub fn write_i32(out: &mut Vec<u8>, v: i32)
    ensures
        final(out)@ == old(out)@ + spec_u32_to_le_bytes(v as u32),
{
    write_u32(out, v as u32);
}

/// Appends the little-endian encoding of `v`.
pub fn write_u64(out: &mut Vec<u8>, v: u64)
    ensures
        final(out)@ == old(out)@ + spec_u64_to_le_bytes(v),
{
    let mut b = u64_to_le_bytes(v);
    out.append(&mut b);
}

/// Appends the single byte `v`.
pub fn write_u8(out: &mut Vec<u8>, v: u8)
    ensures
        final(out)@ == old(out)@ + seq![v],
{
    out.push(v);
    assert(out@ =~= old(out)@ + seq![v]);
}

/// Appends `n` zero bytes.
pub fn write_zeros(out: &mut Vec<u8>, n: usize)
    ensures
        final(out)@ == old(out)@ + zero_bytes(n as int),
{
    let mut i: usize = 0;
    while i < n
        invariant
            0 <= i <= n,
            out@ == old(out)@ + zero_bytes(i as int),
        decreases n - i,
    {
        out.push(0u8);
        assert(out@ =~= old(out)@ + zero_bytes(i + 1));
        i = i + 1;
    }
}

} // verus!
