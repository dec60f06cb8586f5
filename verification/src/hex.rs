//! Lowercase hex encoding of byte strings, and strict decoding.
//!
//! Topic and node identifiers travel as 64-digit hex strings; the codec
//! here is total on bytes, case-insensitive on decode, and proved to
//! round-trip.

use vstd::prelude::*;

verus! {

/// The lowercase hex digit for a value below 16.
pub open spec fn hex_digit_of(n: int) -> u8 {
    if n < 10 {
        (48 + n) as u8
    } else {
        (87 + n) as u8
    }
}

/// Lowercase hex encoding of `b`, two digits per byte.
pub open spec fn hex_of(b: Seq<u8>) -> Seq<u8>
    decreases b.len(),
{
    if b.len() == 0 {
        Seq::empty()
    } else {
        hex_of(b.drop_last()) + seq![hex_digit_of(b.last() as int / 16), hex_digit_of(b.last() as int % 16)]
    }
}

/// Whether code point `d` is a hex digit, upper or lower case.
pub open spec fn is_hex_digit_code(d: int) -> bool {
    (48 <= d <= 57) || (97 <= d <= 102) || (65 <= d <= 70)
}

/// Whether byte `d` is a hex digit, upper or lower case.
pub open spec fn is_hex_digit(d: u8) -> bool {
    is_hex_digit_code(d as int)
}

/// The value of the hex digit `d`.
pub open spec fn hex_val(d: u8) -> int {
    if 48 <= d <= 57 {
        d - 48
    } else if 97 <= d <= 102 {
        d - 87
    } else {
        d - 55
    }
}

/// Whether every element of `s` is a hex digit.
pub open spec fn all_hex(s: Seq<u8>) -> bool {
    forall|i: int| 0 <= i < s.len() ==> is_hex_digit(#[trigger] s[i])
}

/// The encoding of a byte string consists of hex digits, lowercase.
pub proof fn lemma_hex_of_digits(b: Seq<u8>)
    ensures
        hex_of(b).len() == 2 * b.len(),
        all_hex(hex_of(b)),
        forall|i: int| 0 <= i < hex_of(b).len() ==> !(65 <= #[trigger] hex_of(b)[i] <= 70),
    decreases b.len(),
{
    if b.len() > 0 {
        lemma_hex_of_digits(b.drop_last());
    }
}

/// Encode `b` as lowercase hex digits.
pub fn hex_encode(b: &[u8]) -> (r: Vec<u8>)
    ensures
        r@ == hex_of(b@),
{
    let n = b.len();
    let mut out: Vec<u8> = Vec::new();
    let mut i: usize = 0;
    while i < n
        invariant
            n == b@.len(),
            0 <= i <= n,
            out@ == hex_of(b@.subrange(0, i as int)),
        decreases n - i,
    {
        let byte = b[i];
        let hi = byte / 16;
        let lo = byte % 16;
        let hd: u8 = if hi < 10 { 48 + hi } else { 87 + hi };
        let ld: u8 = if lo < 10 { 48 + lo } else { 87 + lo };
        out.push(hd);
        out.push(ld);
        proof {
            let pre = b@.subrange(0, i as int);
            let cur = b@.subrange(0, i + 1 as int);
            assert(cur.drop_last() =~= pre);
            assert(cur.last() == b@[i as int]);
            assert(out@ =~= hex_of(cur));
        }
        i = i + 1;
    }
    proof {
        assert(b@.subrange(0, n as int) =~= b@);
    }
    out
}

/// The bytes denoted by an even run of hex digits (either case).
pub open spec fn hex_bytes_of(s: Seq<u8>) -> Seq<u8>
    decreases s.len(),
{
    if s.len() < 2 {
        Seq::empty()
    } else {
        hex_bytes_of(s.subrange(0, s.len() - 2)).push(
            (hex_val(s[s.len() - 2]) * 16 + hex_val(s[s.len() - 1])) as u8,
        )
    }
}

/// No uppercase hex letter occurs in `s`.
pub open spec fn no_upper_hex(s: Seq<u8>) -> bool {
    forall|i: int| 0 <= i < s.len() ==> !(65 <= #[trigger] s[i] <= 70)
}

/// `s` is a canonical (lowercase) hex encoding of some byte string.
pub open spec fn lower_hex_ok(s: Seq<u8>) -> bool {
    s.len() % 2 == 0 && all_hex(s) && no_upper_hex(s)
}

/// Decode hex digits, accepting either case; `None` exactly when the
/// length is odd or a non-digit occurs.
pub fn hex_decode(s: &[u8]) -> (r: Option<Vec<u8>>)
    ensures
        match r {
            Some(v) => s@.len() % 2 == 0 && all_hex(s@) && v@ == hex_bytes_of(s@),
            None => !(s@.len() % 2 == 0 && all_hex(s@)),
        },
{
    let n = s.len();
    if n % 2 != 0 {
        return None;
    }
    let mut out: Vec<u8> = Vec::new();
    let mut i: usize = 0;
    while i < n
        invariant
            n == s@.len(),
            n % 2 == 0,
            i % 2 == 0,
            0 <= i <= n,
            all_hex(s@.subrange(0, i as int)),
            out@ == hex_bytes_of(s@.subrange(0, i as int)),
        decreases n - i,
    {
        let d1 = s[i];
        let d2 = s[i + 1];
        let v1 = hex_digit_value(d1);
        let v2 = hex_digit_value(d2);
        match (v1, v2) {
            (Some(h), Some(l)) => {
                let byte: u8 = h * 16 + l;
                let ghost pre_out = out@;
                out.push(byte);
                proof {
                    let pre = s@.subrange(0, i as int);
                    let cur = s@.subrange(0, i + 2 as int);
                    assert(cur[i as int] == s@[i as int]);
                    assert(cur[i + 1 as int] == s@[i + 1 as int]);
                    assert(forall|k: int| 0 <= k < i ==> cur[k] == #[trigger] pre[k]);
                    assert(all_hex(cur));
                    assert(out@ =~= pre_out.push(byte));
                    assert(cur.subrange(0, cur.len() - 2) =~= pre);
                    assert(cur[cur.len() - 2] == s@[i as int]);
                    assert(cur[cur.len() - 1] == s@[i + 1 as int]);
                    assert(out@ =~= hex_bytes_of(cur));
                }
                i = i + 2;
            },
            _ => {
                proof {
                    if v1 is None {
                        assert(!is_hex_digit(s@[i as int]));
                    } else {
                        assert(!is_hex_digit(s@[i + 1 as int]));
                    }
                }
                return None;
            },
        }
    }
    proof {
        assert(s@.subrange(0, n as int) =~= s@);
    }
    Some(out)
}

/// Decode a canonical lowercase hex run; `None` exactly when `s` is not
/// one.
pub fn hex_decode_strict(s: &[u8]) -> (r: Option<Vec<u8>>)
    ensures
        match r {
            Some(v) => lower_hex_ok(s@) && v@ == hex_bytes_of(s@),
            None => !lower_hex_ok(s@),
        },
{
    let decoded = hex_decode(s);
    match decoded {
        Some(v) => {
            let n = s.len();
            let mut i: usize = 0;
            while i < n
                invariant
                    n == s@.len(),
                    0 <= i <= n,
                    forall|k: int| 0 <= k < i ==> !(65 <= #[trigger] s@[k] <= 70),
                decreases n - i,
            {
                let d = s[i];
                if 65 <= d && d <= 70 {
                    return None;
                }
                i = i + 1;
            }
            Some(v)
        },
        None => None,
    }
}

/// Decoding the encoding of any byte string gives it back.
pub proof fn lemma_hex_bytes_of_hex_of(b: Seq<u8>)
    ensures
        hex_bytes_of(hex_of(b)) == b,
    decreases b.len(),
{
    lemma_hex_of_digits(b);
    if b.len() == 0 {
        assert(hex_bytes_of(hex_of(b)) =~= b);
    } else {
        let h = hex_of(b);
        let hp = hex_of(b.drop_last());
        lemma_hex_bytes_of_hex_of(b.drop_last());
        lemma_hex_of_digits(b.drop_last());
        assert(h.subrange(0, h.len() - 2) =~= hp);
        let dh = hex_digit_of(b.last() as int / 16);
        let dl = hex_digit_of(b.last() as int % 16);
        assert(h[h.len() - 2] == dh);
        assert(h[h.len() - 1] == dl);
        assert(hex_val(dh) == b.last() as int / 16);
        assert(hex_val(dl) == b.last() as int % 16);
        assert(hex_bytes_of(h) =~= b);
    }
}

/// Encoding what a canonical lowercase run decodes to gives the run.
pub proof fn lemma_hex_of_hex_bytes_of(s: Seq<u8>)
    requires
        lower_hex_ok(s),
    ensures
        hex_of(hex_bytes_of(s)) == s,
    decreases s.len(),
{
    if s.len() >= 2 {
        let pre = s.subrange(0, s.len() - 2);
        assert(lower_hex_ok(pre)) by {
            assert(forall|k: int| 0 <= k < pre.len() ==> pre[k] == #[trigger] s[k]);
        }
        lemma_hex_of_hex_bytes_of(pre);
        let hi = hex_val(s[s.len() - 2]);
        let lo = hex_val(s[s.len() - 1]);
        let byte = (hi * 16 + lo) as u8;
        assert(0 <= hi < 16 && 0 <= lo < 16);
        assert(byte as int / 16 == hi && byte as int % 16 == lo);
        assert(hex_bytes_of(s) == hex_bytes_of(pre).push(byte));
        assert(hex_bytes_of(s).drop_last() =~= hex_bytes_of(pre));
        assert(hex_digit_of(hi) == s[s.len() - 2]);
        assert(hex_digit_of(lo) == s[s.len() - 1]);
        assert(hex_of(hex_bytes_of(s)) =~= s);
    } else {
        assert(hex_bytes_of(s) =~= Seq::empty());
        assert(s =~= Seq::empty());
        assert(hex_of(hex_bytes_of(s)) =~= s);
    }
}

/// A hex encoding is canonical: even length, digits only, lowercase.
pub proof fn lemma_hex_of_lower_ok(b: Seq<u8>)
    ensures
        lower_hex_ok(hex_of(b)),
{
    lemma_hex_of_digits(b);
}

/// Decoded length is half the digit count.
pub proof fn lemma_hex_bytes_len(s: Seq<u8>)
    ensures
        hex_bytes_of(s).len() == s.len() / 2,
    decreases s.len(),
{
    if s.len() >= 2 {
        lemma_hex_bytes_len(s.subrange(0, s.len() - 2));
    }
}

/// The value of one hex digit byte, either case.
fn hex_digit_value(d: u8) -> (r: Option<u8>)
    ensures
        match r {
            Some(v) => is_hex_digit(d) && v as int == hex_val(d) && v < 16,
            None => !is_hex_digit(d),
        },
{
    if 48 <= d && d <= 57 {
        Some(d - 48)
    } else if 97 <= d && d <= 102 {
        Some(d - 87)
    } else if 65 <= d && d <= 70 {
        Some(d - 55)
    } else {
        None
    }
}

} // verus!
