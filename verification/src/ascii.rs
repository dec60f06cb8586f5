//! ASCII byte/text utilities: byte-to-string conversion and case folding.

use vstd::prelude::*;

verus! {

/// Whether every byte of `b` is ASCII.
pub open spec fn all_ascii(b: Seq<u8>) -> bool {
    forall|i: int| 0 <= i < b.len() ==> #[trigger] b[i] < 128
}

/// The characters denoted by a run of ASCII bytes.
pub open spec fn ascii_chars_of(b: Seq<u8>) -> Seq<char> {
    b.map_values(|x: u8| x as char)
}

/// Relies on `String::from_utf8`: ASCII bytes decode to the string whose
/// characters are exactly those bytes.
#[verifier::external_body]
pub fn ascii_to_string(b: Vec<u8>) -> (r: String)
    requires
        all_ascii(b@),
    ensures
        r@ == ascii_chars_of(b@),
{
    match String::from_utf8(b) {
        Ok(s) => s,
        Err(_) => String::new(),
    }
}

/// The characters of a run of ASCII bytes encode back to those bytes.
pub proof fn lemma_ascii_chars_encode(b: Seq<u8>)
    requires
        all_ascii(b),
    ensures
        vstd::utf8::is_ascii_chars(ascii_chars_of(b)),
        vstd::utf8::encode_utf8(ascii_chars_of(b)) == b,
{
    let cs = ascii_chars_of(b);
    assert(vstd::utf8::is_ascii_chars(cs)) by {
        assert(forall|i: int| 0 <= i < cs.len() ==> #[trigger] cs[i] == b[i] as char);
    }
    vstd::utf8::is_ascii_chars_encode_utf8(cs);
    assert(vstd::utf8::encode_utf8(cs) =~= b) by {
        assert(forall|i: int| 0 <= i < cs.len() ==> #[trigger] cs[i] as u8 == vstd::utf8::encode_utf8(cs)[i]);
        assert(forall|i: int| 0 <= i < b.len() ==> (#[trigger] b[i]) as char as u8 == b[i]);
    }
}

/// Copy the bytes of `s` between `from` and `to`.
pub fn copy_range(s: &[u8], from: usize, to: usize) -> (r: Vec<u8>)
    requires
        0 <= from <= to <= s@.len(),
    ensures
        r@ == s@.subrange(from as int, to as int),
{
    let mut out: Vec<u8> = Vec::new();
    let mut i: usize = from;
    proof {
        assert(out@ =~= s@.subrange(from as int, from as int));
    }
    while i < to
        invariant
            from <= i <= to <= s@.len(),
            out@ == s@.subrange(from as int, i as int),
        decreases to - i,
    {
        out.push(s[i]);
        proof {
            assert(out@ =~= s@.subrange(from as int, i + 1 as int));
        }
        i = i + 1;
    }
    out
}

/// Append every byte of `v` to `out`.
pub fn append_bytes(out: &mut Vec<u8>, v: &Vec<u8>)
    ensures
        final(out)@ == old(out)@ + v@,
{
    let n = v.len();
    let mut i: usize = 0;
    proof {
        assert(out@ =~= old(out)@ + v@.subrange(0, 0));
    }
    while i < n
        invariant
            n == v@.len(),
            0 <= i <= n,
            out@ == old(out)@ + v@.subrange(0, i as int),
        decreases n - i,
    {
        out.push(v[i]);
        proof {
            assert(out@ =~= old(out)@ + v@.subrange(0, i + 1 as int));
        }
        i = i + 1;
    }
    proof {
        assert(v@.subrange(0, n as int) =~= v@);
    }
}

/// Uppercase ASCII letters folded to lowercase; other bytes unchanged.
pub open spec fn lower_byte(x: u8) -> u8 {
    if 65 <= x <= 90 {
        (x + 32) as u8
    } else {
        x
    }
}

/// Lowercase ASCII letters folded to uppercase; other bytes unchanged.
pub open spec fn upper_byte(x: u8) -> u8 {
    if 97 <= x <= 122 {
        (x - 32) as u8
    } else {
        x
    }
}

/// The byte string with every ASCII letter lowercased.
pub open spec fn lower_bytes(b: Seq<u8>) -> Seq<u8> {
    b.map_values(|x: u8| lower_byte(x))
}

/// The byte string with every ASCII letter uppercased.
pub open spec fn upper_bytes(b: Seq<u8>) -> Seq<u8> {
    b.map_values(|x: u8| upper_byte(x))
}

/// Lowercase every ASCII letter of `b`.
pub fn to_lower(b: &[u8]) -> (r: Vec<u8>)
    ensures
        r@ == lower_bytes(b@),
{
    let n = b.len();
    let mut out: Vec<u8> = Vec::new();
    let mut i: usize = 0;
    while i < n
        invariant
            n == b@.len(),
            0 <= i <= n,
            out@.len() == i,
            forall|k: int| 0 <= k < i ==> out@[k] == lower_byte(#[trigger] b@[k]),
        decreases n - i,
    {
        let x = b[i];
        if 65 <= x && x <= 90 {
            out.push(x + 32);
        } else {
            out.push(x);
        }
        i = i + 1;
    }
    proof {
        assert(out@ =~= lower_bytes(b@));
    }
    out
}

/// Uppercase every ASCII letter of `b`.
pub fn to_upper(b: &[u8]) -> (r: Vec<u8>)
    ensures
        r@ == upper_bytes(b@),
{
    let n = b.len();
    let mut out: Vec<u8> = Vec::new();
    let mut i: usize = 0;
    while i < n
        invariant
            n == b@.len(),
            0 <= i <= n,
            out@.len() == i,
            forall|k: int| 0 <= k < i ==> out@[k] == upper_byte(#[trigger] b@[k]),
        decreases n - i,
    {
        let x = b[i];
        if 97 <= x && x <= 122 {
            out.push(x - 32);
        } else {
            out.push(x);
        }
        i = i + 1;
    }
    proof {
        assert(out@ =~= upper_bytes(b@));
    }
    out
}

} // verus!
