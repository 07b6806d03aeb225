//! Mask and classifier derivation.
//!
//! A send operation derives, from the phrase's bytes, three classifier values
//! and three split offsets. The offsets cut the stringified timestamp, the
//! phrase and the rolling state string each into a left and a right fragment,
//! and the mask is the six fragments spliced in a fixed order. The rolling
//! state is then replaced by its own second half followed by the phrase's
//! right fragment, stripped of whitespace and capped at 49 bytes.
//!
//! All offsets are byte offsets, so the derivation works on raw bytes; a
//! phrase is only accepted when it is ASCII, which keeps byte and character
//! positions identical and every spliced result a well-formed string.

use vstd::prelude::*;

verus! {

/// Greatest allowed length of the rolling state string.
pub const CODE_CAP: usize = 49;

/// The ASCII bytes that `char::is_whitespace` counts as whitespace.
pub open spec fn is_ws_byte(b: u8) -> bool {
    b == 9 || b == 10 || b == 11 || b == 12 || b == 13 || b == 32
}

/// The decimal digit string of `n`, as ASCII bytes.
pub open spec fn dec_str(n: u64) -> Seq<u8>
    decreases n,
{
    if n < 10 {
        seq![(48 + n) as u8]
    } else {
        dec_str((n / 10) as u64).push((48 + n % 10) as u8)
    }
}

/// `s` with every whitespace byte removed.
pub open spec fn strip_ws(s: Seq<u8>) -> Seq<u8>
    decreases s.len(),
{
    if s.len() == 0 {
        Seq::empty()
    } else if is_ws_byte(s[0]) {
        strip_ws(s.drop_first())
    } else {
        seq![s[0]] + strip_ws(s.drop_first())
    }
}

/// The bytes of an ASCII character sequence.
pub open spec fn ascii_bytes_of(s: Seq<char>) -> Seq<u8> {
    Seq::new(s.len(), |i: int| s[i] as u8)
}

/// The characters of an ASCII byte sequence.
pub open spec fn ascii_chars_of(b: Seq<u8>) -> Seq<char> {
    Seq::new(b.len(), |i: int| b[i] as char)
}

/// A phrase is usable when it is ASCII and holds at least the three byte
/// positions (first, middle, last, and their neighbours) that the derivation
/// indexes.
pub open spec fn phrase_ok(s: Seq<char>) -> bool {
    s.len() >= 3 && vstd::utf8::is_ascii_chars(s)
}

/// The three classifier values of a phrase: first, middle and last byte,
/// each reduced modulo 3.
pub open spec fn classifier_of(p: Seq<u8>) -> Seq<u8>
    recommends
        p.len() >= 1,
{
    seq![p[0] % 3, p[p.len() as int / 2] % 3, p[p.len() as int - 1] % 3]
}

/// The mask spliced from the stringified timestamp `now`, the phrase bytes
/// `p` and the rolling state `code`: each is cut at an offset drawn from the
/// phrase, and the six fragments are joined as timestamp-left, phrase-left,
/// state-left, timestamp-right, state-right, phrase-right.
pub open spec fn mask_of(now: u64, p: Seq<u8>, code: Seq<u8>) -> Seq<u8>
    recommends
        p.len() >= 3,
        code.len() >= 1,
{
    let t = dec_str(now);
    let s1 = (p[1] as int) % (t.len() as int);
    let s2 = (p[p.len() as int / 2 + 1] as int) % (p.len() as int);
    let s3 = (p[p.len() as int - 2] as int) % (code.len() as int);
    t.take(s1) + p.take(s2) + code.take(s3) + t.skip(s1) + code.skip(s3) + p.skip(s2)
}

/// The rolling state after a send: the second half of the current state
/// followed by the phrase's right fragment, stripped of whitespace and
/// truncated to at most `CODE_CAP` bytes.
pub open spec fn next_code_of(p: Seq<u8>, code: Seq<u8>) -> Seq<u8>
    recommends
        p.len() >= 3,
        code.len() >= 1,
{
    let s2 = (p[p.len() as int / 2 + 1] as int) % (p.len() as int);
    let stripped = strip_ws(code.skip(code.len() as int / 2) + p.skip(s2));
    if stripped.len() > CODE_CAP {
        stripped.take(CODE_CAP as int)
    } else {
        stripped
    }
}

/// A well-formed rolling state: non-empty, within the cap, and made of
/// ASCII bytes none of which is whitespace.
pub open spec fn code_wf(code: Seq<u8>) -> bool {
    &&& 1 <= code.len() <= CODE_CAP
    &&& forall|i: int| 0 <= i < code.len() ==> #[trigger] code[i] < 128 && !is_ws_byte(code[i])
}

pub proof fn lemma_dec_str_props(n: u64)
    ensures
        1 <= dec_str(n).len(),
        forall|i: int| 0 <= i < dec_str(n).len() ==> 48 <= #[trigger] dec_str(n)[i] <= 57,
    decreases n,
{
    if n >= 10 {
        lemma_dec_str_props((n / 10) as u64);
    }
}

/// The decimal digit string of `n`, as an ASCII byte vector.
pub fn u64_to_dec(n: u64) -> (r: Vec<u8>)
    ensures
        r@ == dec_str(n),
    decreases n,
{
    if n < 10 {
        let mut v: Vec<u8> = Vec::new();
        v.push(48 + (n as u8));
        proof {
            assert(v@ =~= dec_str(n));
        }
        v
    } else {
        let mut v = u64_to_dec(n / 10);
        v.push(48 + ((n % 10) as u8));
        proof {
            assert(v@ =~= dec_str(n));
        }
        v
    }
}

fn ws_byte(b: u8) -> (r: bool)
    ensures
        r == is_ws_byte(b),
{
    b == 9 || b == 10 || b == 11 || b == 12 || b == 13 || b == 32
}

/// Appends `src[from..to]` to `dst`.
pub fn append_range(dst: &mut Vec<u8>, src: &Vec<u8>, from: usize, to: usize)
    requires
        from <= to <= src@.len(),
    ensures
        final(dst)@ == old(dst)@ + src@.subrange(from as int, to as int),
{
    let mut i = from;
    proof {
        assert(dst@ =~= old(dst)@ + src@.subrange(from as int, from as int));
    }
    while i < to
        invariant
            from <= i <= to <= src@.len(),
            dst@ == old(dst)@ + src@.subrange(from as int, i as int),
        decreases to - i,
    {
        let b = src[i];
        dst.push(b);
        proof {
            assert(dst@ =~= old(dst)@ + src@.subrange(from as int, i + 1));
        }
        i += 1;
    }
}

/// `src` with every whitespace byte removed. The ghost bound `k` marks a
/// whitespace-free prefix of `src`, whose length the result is known to keep.
pub fn strip_ws_vec(src: &Vec<u8>, Ghost(k): Ghost<int>) -> (r: Vec<u8>)
    requires
        0 <= k <= src@.len(),
        forall|j: int| 0 <= j < k ==> !is_ws_byte(#[trigger] src@[j]),
    ensures
        r@ == strip_ws(src@),
        r@.len() >= k,
        forall|j: int| 0 <= j < r@.len() ==> !is_ws_byte(#[trigger] r@[j]),
        forall|j: int|
            0 <= j < r@.len() ==> exists|t: int| 0 <= t < src@.len() && src@[t] == #[trigger] r@[j],
{
    let mut out: Vec<u8> = Vec::new();
    let mut i: usize = 0;
    proof {
        assert(src@.skip(0) =~= src@);
    }
    while i < src.len()
        invariant
            0 <= i <= src@.len(),
            0 <= k <= src@.len(),
            forall|j: int| 0 <= j < k ==> !is_ws_byte(#[trigger] src@[j]),
            strip_ws(src@) == out@ + strip_ws(src@.skip(i as int)),
            i <= k ==> out@.len() == i,
            i > k ==> out@.len() >= k,
            forall|j: int| 0 <= j < out@.len() ==> !is_ws_byte(#[trigger] out@[j]),
            forall|j: int|
                0 <= j < out@.len() ==> exists|t: int|
                    0 <= t < src@.len() && src@[t] == #[trigger] out@[j],
        decreases src@.len() - i,
    {
        let b = src[i];
        proof {
            assert(src@.skip(i as int).len() > 0);
            assert(src@.skip(i as int)[0] == src@[i as int]);
            assert(src@.skip(i as int).drop_first() =~= src@.skip(i + 1));
        }
        if !ws_byte(b) {
            out.push(b);
            proof {
                assert(seq![b] + strip_ws(src@.skip(i + 1)) =~= strip_ws(src@.skip(i as int)));
                assert(forall|j: int|
                    0 <= j < out@.len() - 1 ==> exists|t: int|
                        0 <= t < src@.len() && src@[t] == #[trigger] out@[j]);
                assert(src@[i as int] == out@[out@.len() - 1]);
            }
        } else {
            proof {
                assert(k <= i as int) by {
                    if (i as int) < k {
                        assert(!is_ws_byte(src@[i as int]));
                    }
                }
            }
        }
        i += 1;
    }
    proof {
        assert(src@.skip(src@.len() as int) =~= Seq::<u8>::empty());
        assert(out@ + Seq::<u8>::empty() =~= out@);
    }
    out
}

/// Relies on `String::from_utf8`: a vector of ASCII bytes is valid UTF-8 and
/// decodes to the string whose characters are exactly those bytes.
#[verifier::external_body]
pub(crate) fn string_from_ascii(bytes: Vec<u8>) -> (r: String)
    requires
        forall|i: int| 0 <= i < bytes@.len() ==> bytes@[i] < 128,
    ensures
        r@ == ascii_chars_of(bytes@),
{
    match String::from_utf8(bytes) {
        Ok(s) => s,
        Err(_) => String::new(),
    }
}

} // verus!
