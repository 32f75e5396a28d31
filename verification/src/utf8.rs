use vstd::prelude::*;
use vstd::slice::slice_index_get;

verus! {

/// How many bytes the UTF-8 sequence led by `b0` occupies, or 0 when `b0`
/// cannot lead a sequence.
pub open spec fn utf8_lead_len(b0: u8) -> int {
    if b0 < 0x80 {
        1
    } else if 0xC2 <= b0 && b0 < 0xE0 {
        2
    } else if 0xE0 <= b0 && b0 < 0xF0 {
        3
    } else if 0xF0 <= b0 && b0 < 0xF5 {
        4
    } else {
        0
    }
}

/// True of a UTF-8 continuation byte.
pub open spec fn utf8_cont(b: u8) -> bool {
    0x80 <= b && b < 0xC0
}

/// True when the bytes following the lead byte at `i` complete a well-formed
/// sequence: continuation bytes, with the restricted ranges that rule out
/// overlong encodings, surrogates, and values past the last code point.
pub open spec fn utf8_tail_ok(s: Seq<u8>, i: int) -> bool
    recommends
        0 <= i,
        i + utf8_lead_len(s[i]) <= s.len(),
{
    let b0 = s[i];
    if b0 < 0x80 {
        true
    } else if 0xC2 <= b0 && b0 < 0xE0 {
        utf8_cont(s[i + 1])
    } else if 0xE0 <= b0 && b0 < 0xF0 {
        &&& if b0 == 0xE0 {
            0xA0 <= s[i + 1] && s[i + 1] < 0xC0
        } else if b0 == 0xED {
            0x80 <= s[i + 1] && s[i + 1] < 0xA0
        } else {
            utf8_cont(s[i + 1])
        }
        &&& utf8_cont(s[i + 2])
    } else if 0xF0 <= b0 && b0 < 0xF5 {
        &&& if b0 == 0xF0 {
            0x90 <= s[i + 1] && s[i + 1] < 0xC0
        } else if b0 == 0xF4 {
            0x80 <= s[i + 1] && s[i + 1] < 0x90
        } else {
            utf8_cont(s[i + 1])
        }
        &&& utf8_cont(s[i + 2])
        &&& utf8_cont(s[i + 3])
    } else {
        false
    }
}

/// True when `s` from position `i` on is a well-formed UTF-8 suffix.
pub open spec fn is_utf8_from(s: Seq<u8>, i: int) -> bool
    decreases s.len() - i,
{
    if i < 0 || i > s.len() {
        false
    } else if i == s.len() {
        true
    } else {
        let n = utf8_lead_len(s[i]);
        &&& n > 0
        &&& i + n <= s.len()
        &&& utf8_tail_ok(s, i)
        &&& is_utf8_from(s, i + n)
    }
}

/// True when `s` is well-formed UTF-8.
pub open spec fn is_utf8(s: Seq<u8>) -> bool {
    is_utf8_from(s, 0)
}

/// A sequence of ASCII bytes is well-formed UTF-8.
pub proof fn lemma_ascii_is_utf8(s: Seq<u8>)
    requires
        forall|i: int| 0 <= i < s.len() ==> #[trigger] s[i] < 0x80,
    ensures
        is_utf8(s),
{
    lemma_ascii_suffix_utf8(s, 0);
}

proof fn lemma_ascii_suffix_utf8(s: Seq<u8>, i: int)
    requires
        0 <= i <= s.len(),
        forall|j: int| 0 <= j < s.len() ==> #[trigger] s[j] < 0x80,
    ensures
        is_utf8_from(s, i),
    decreases s.len() - i,
{
    if i < s.len() {
        lemma_ascii_suffix_utf8(s, i + 1);
    }
}

/// Decides whether `bytes` is well-formed UTF-8.
pub fn utf8_check(bytes: &[u8]) -> (r: bool)
    ensures
        r == is_utf8(bytes@),
{
    let ghost s = bytes@;
    let n = bytes.len();
    let mut i: usize = 0;
    while i < n
        invariant
            0 <= i <= n,
            n == s.len(),
            s == bytes@,
            is_utf8(s) == is_utf8_from(s, i as int),
        decreases n - i,
    {
        let b0 = *slice_index_get(bytes, i);
        let len: usize = if b0 < 0x80 {
            1
        } else if 0xC2 <= b0 && b0 < 0xE0 {
            2
        } else if 0xE0 <= b0 && b0 < 0xF0 {
            3
        } else if 0xF0 <= b0 && b0 < 0xF5 {
            4
        } else {
            0
        };
        assert(len == utf8_lead_len(b0));
        if len == 0 || n - i < len {
            return false;
        }
        if len >= 2 {
            let b1 = *slice_index_get(bytes, i + 1);
            let b1_ok: bool = if len == 2 {
                0x80 <= b1 && b1 < 0xC0
            } else if b0 == 0xE0 {
                0xA0 <= b1 && b1 < 0xC0
            } else if b0 == 0xED {
                0x80 <= b1 && b1 < 0xA0
            } else if b0 == 0xF0 {
                0x90 <= b1 && b1 < 0xC0
            } else if b0 == 0xF4 {
                0x80 <= b1 && b1 < 0x90
            } else {
                0x80 <= b1 && b1 < 0xC0
            };
            if !b1_ok {
                return false;
            }
            if len >= 3 {
                let b2 = *slice_index_get(bytes, i + 2);
                if !(0x80 <= b2 && b2 < 0xC0) {
                    return false;
                }
                if len >= 4 {
                    let b3 = *slice_index_get(bytes, i + 3);
                    if !(0x80 <= b3 && b3 < 0xC0) {
                        return false;
                    }
                }
            }
        }
        assert(utf8_tail_ok(s, i as int));
        i = i + len;
    }
    true
}

} // verus!
