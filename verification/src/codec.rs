//! How quotes are stored: the text's UTF-8 bytes in standard base64, and how
//! a stored line is read back.

use vstd::prelude::*;
use vstd::utf8::{decode_utf8, encode_utf8, valid_utf8};

verus! {

/// The character of the standard base64 alphabet for a 6-bit value.
pub open spec fn base64_symbol(v: int) -> u8 {
    if v < 26 {
        (65 + v) as u8
    } else if v < 52 {
        (97 + v - 26) as u8
    } else if v < 62 {
        (48 + v - 52) as u8
    } else if v == 62 {
        43u8
    } else {
        47u8
    }
}

/// The padding character `'='`.
pub open spec fn base64_pad() -> u8 {
    61u8
}

/// The first 6-bit value of a group that starts with byte `a0`.
pub open spec fn sextet0(a0: u8) -> int {
    a0 as int / 4
}

/// The second 6-bit value of a group of bytes `a0`, `a1` (`a1` is 0 where
/// the group ends after `a0`).
pub open spec fn sextet1(a0: u8, a1: u8) -> int {
    (a0 as int % 4) * 16 + a1 as int / 16
}

/// The third 6-bit value of a group whose second and third bytes are `a1`,
/// `a2` (`a2` is 0 where the group ends after `a1`).
pub open spec fn sextet2(a1: u8, a2: u8) -> int {
    (a1 as int % 16) * 4 + a2 as int / 64
}

/// The fourth 6-bit value of a group whose third byte is `a2`.
pub open spec fn sextet3(a2: u8) -> int {
    a2 as int % 64
}

/// The standard base64 encoding of `b`, padded with `'='`.
pub open spec fn base64_encoding(b: Seq<u8>) -> Seq<u8>
    decreases b.len(),
{
    if b.len() == 0 {
        seq![]
    } else if b.len() == 1 {
        seq![base64_symbol(sextet0(b[0])), base64_symbol(sextet1(b[0], 0)), base64_pad(), base64_pad()]
    } else if b.len() == 2 {
        seq![
            base64_symbol(sextet0(b[0])),
            base64_symbol(sextet1(b[0], b[1])),
            base64_symbol(sextet2(b[1], 0)),
            base64_pad(),
        ]
    } else {
        seq![
            base64_symbol(sextet0(b[0])),
            base64_symbol(sextet1(b[0], b[1])),
            base64_symbol(sextet2(b[1], b[2])),
            base64_symbol(sextet3(b[2])),
        ] + base64_encoding(b.skip(3))
    }
}

/// The characters whose codes are the bytes of `b`.
pub open spec fn ascii_chars(b: Seq<u8>) -> Seq<char> {
    b.map_values(|x: u8| x as char)
}

/// How many `'='` end the encoding of `b`.
pub open spec fn base64_padding(b: Seq<u8>) -> int {
    if b.len() % 3 == 1 {
        2
    } else if b.len() % 3 == 2 {
        1
    } else {
        0
    }
}

/// `input` is the encoding of `b`, with none, some or all of its final `'='`
/// left off.
pub open spec fn base64_reads_as(input: Seq<u8>, b: Seq<u8>) -> bool {
    let e = base64_encoding(b);
    &&& input.len() <= e.len() <= input.len() + base64_padding(b)
    &&& e.take(input.len() as int) == input
}

/// What standard base64 decoding gives for `input`: the bytes whose encoding
/// it is (padding optional), or `None` where it is no such encoding.
pub open spec fn base64_decoding(input: Seq<u8>) -> Option<Seq<u8>> {
    if exists|b: Seq<u8>| base64_reads_as(input, b) {
        Some(choose|b: Seq<u8>| base64_reads_as(input, b))
    } else {
        None
    }
}

/// `base64::encode` (standard alphabet, padded): the encoding of `input`,
/// written out in `base64_encoding`.
#[verifier::external_body]
fn base64_encode(input: &[u8]) -> (s: String)
    ensures
        s@ == ascii_chars(base64_encoding(input@)),
{
    base64::encode(input)
}

/// `base64::decode` (standard alphabet), its error mapped to `None`. The
/// contract claims that it accepts exactly the standard encodings, with or
/// without their final `'='`, and gives the bytes encoded (which are unique:
/// `lemma_decoding_unique`).
#[verifier::external_body]
fn base64_decode(input: &[u8]) -> (r: Option<Vec<u8>>)
    ensures
        r is Some <==> base64_decoding(input@) is Some,
        r is Some ==> base64_decoding(input@) == Some(r->0@),
{
    base64::decode(input).ok()
}

/// `String::from_utf8`, its error mapped to `None`: the text that `bytes`
/// encode in UTF-8, where they are valid UTF-8.
#[verifier::external_body]
fn string_from_utf8(bytes: Vec<u8>) -> (r: Option<String>)
    ensures
        r is Some <==> valid_utf8(bytes@),
        r is Some ==> r->0@ == decode_utf8(bytes@),
{
    String::from_utf8(bytes).ok()
}

/// The line that stores the quote `text`: the base64 encoding of its UTF-8
/// bytes.
pub open spec fn stored_quote(text: Seq<char>) -> Seq<char> {
    ascii_chars(base64_encoding(encode_utf8(text)))
}

/// The text that a stored line shows: the UTF-8 text that its base64 decodes
/// to, or the line itself where it is no base64 or does not decode to UTF-8.
pub open spec fn quote_text(line: Seq<char>) -> Seq<char> {
    match base64_decoding(encode_utf8(line)) {
        Some(b) => if valid_utf8(b) {
            decode_utf8(b)
        } else {
            line
        },
        None => line,
    }
}

proof fn lemma_symbol_injective(v: int, w: int)
    requires
        0 <= v < 64,
        0 <= w < 64,
        base64_symbol(v) == base64_symbol(w),
    ensures
        v == w,
{
}

proof fn lemma_sextets_injective(a0: u8, a1: u8, a2: u8, c0: u8, c1: u8, c2: u8)
    ensures
        sextet0(a0) == sextet0(c0) && sextet1(a0, a1) == sextet1(c0, c1) && sextet2(a1, a2)
            == sextet2(c1, c2) && sextet3(a2) == sextet3(c2) ==> a0 == c0 && a1 == c1 && a2
            == c2,
        sextet0(a0) == sextet0(c0) && sextet1(a0, a1) == sextet1(c0, c1) && sextet2(a1, 0)
            == sextet2(c1, 0) ==> a0 == c0 && a1 == c1,
        sextet0(a0) == sextet0(c0) && sextet1(a0, 0) == sextet1(c0, 0) ==> a0 == c0,
        0 <= sextet0(a0) < 64,
        0 <= sextet1(a0, a1) < 64,
        0 <= sextet2(a1, a2) < 64,
        0 <= sextet3(a2) < 64,
{
    assert(a0 / 4 == c0 / 4 && (a0 % 4) * 16 + a1 / 16 == (c0 % 4) * 16 + c1 / 16 && (a1 % 16)
        * 4 + a2 / 64 == (c1 % 16) * 4 + c2 / 64 && a2 % 64 == c2 % 64 ==> a0 == c0 && a1 == c1
        && a2 == c2) by (bit_vector);
    assert(a0 / 4 == c0 / 4 && (a0 % 4) * 16 + a1 / 16 == (c0 % 4) * 16 + c1 / 16 && (a1 % 16)
        * 4 == (c1 % 16) * 4 ==> a0 == c0 && a1 == c1) by (bit_vector);
    assert(a0 / 4 == c0 / 4 && (a0 % 4) * 16 == (c0 % 4) * 16 ==> a0 == c0) by (bit_vector);
    assert((a0 % 4) * 16 + a1 / 16 < 64) by (bit_vector);
    assert((a1 % 16) * 4 + a2 / 64 < 64) by (bit_vector);
}

/// The base64 encoding has length four times the number of started groups of
/// three bytes, and each of its characters is printable ASCII.
proof fn lemma_encoding_shape(b: Seq<u8>)
    ensures
        base64_encoding(b).len() == 4 * ((b.len() + 2) / 3),
        forall|i: int|
            0 <= i < base64_encoding(b).len() ==> 43 <= #[trigger] base64_encoding(b)[i] < 128,
    decreases b.len(),
{
    if b.len() >= 3 {
        lemma_encoding_shape(b.skip(3));
        lemma_sextets_injective(b[0], b[1], b[2], b[0], b[1], b[2]);
        let e = base64_encoding(b);
        let r = base64_encoding(b.skip(3));
        assert forall|i: int| 0 <= i < e.len() implies 43 <= #[trigger] e[i] < 128 by {
            if i >= 4 {
                assert(e[i] == r[i - 4]);
            }
        }
    } else if b.len() == 2 {
        lemma_sextets_injective(b[0], b[1], 0, b[0], b[1], 0);
    } else if b.len() == 1 {
        lemma_sextets_injective(b[0], 0, 0, b[0], 0, 0);
    }
}

/// Different byte sequences have different base64 encodings.
proof fn lemma_encoding_injective(b: Seq<u8>, c: Seq<u8>)
    requires
        base64_encoding(b) == base64_encoding(c),
    ensures
        b == c,
    decreases b.len(),
{
    let e = base64_encoding(b);
    lemma_encoding_shape(b);
    lemma_encoding_shape(c);
    if b.len() == 0 || c.len() == 0 {
        assert(b =~= c);
    } else {
        let a1: u8 = if b.len() > 1 { b[1] } else { 0 };
        let a2: u8 = if b.len() > 2 { b[2] } else { 0 };
        let c1: u8 = if c.len() > 1 { c[1] } else { 0 };
        let c2: u8 = if c.len() > 2 { c[2] } else { 0 };
        lemma_sextets_injective(b[0], a1, a2, c[0], c1, c2);
        lemma_sextets_injective(b[0], a1, 0, c[0], c1, 0);
        lemma_sextets_injective(b[0], 0, 0, c[0], 0, 0);
        lemma_sextets_injective(c[0], c1, c2, b[0], a1, a2);
        lemma_sextets_injective(c[0], c1, 0, b[0], a1, 0);
        lemma_sextets_injective(c[0], 0, 0, b[0], 0, 0);
        // The padding at positions 2 and 3 tells how many bytes the first group holds.
        assert(b.len() == 1 <==> e[2] == base64_pad());
        assert(c.len() == 1 <==> base64_encoding(c)[2] == base64_pad());
        assert(b.len() <= 2 <==> e[3] == base64_pad());
        assert(c.len() <= 2 <==> base64_encoding(c)[3] == base64_pad());
        let f = base64_encoding(c);
        assert(e[0] == f[0] && e[1] == f[1] && e[2] == f[2] && e[3] == f[3]);
        assert(e[0] == base64_symbol(sextet0(b[0])));
        assert(f[0] == base64_symbol(sextet0(c[0])));
        lemma_symbol_injective(sextet0(b[0]), sextet0(c[0]));
        if b.len() == 1 {
            assert(e[1] == base64_symbol(sextet1(b[0], 0)));
            assert(f[1] == base64_symbol(sextet1(c[0], 0)));
            lemma_symbol_injective(sextet1(b[0], 0), sextet1(c[0], 0));
            assert(b =~= c);
        } else if b.len() == 2 {
            assert(e[1] == base64_symbol(sextet1(b[0], b[1])));
            assert(f[1] == base64_symbol(sextet1(c[0], c[1])));
            assert(e[2] == base64_symbol(sextet2(b[1], 0)));
            assert(f[2] == base64_symbol(sextet2(c[1], 0)));
            lemma_symbol_injective(sextet1(b[0], b[1]), sextet1(c[0], c[1]));
            lemma_symbol_injective(sextet2(b[1], 0), sextet2(c[1], 0));
            assert(b =~= c);
        } else {
            assert(e[1] == base64_symbol(sextet1(b[0], b[1])));
            assert(f[1] == base64_symbol(sextet1(c[0], c[1])));
            assert(e[2] == base64_symbol(sextet2(b[1], b[2])));
            assert(f[2] == base64_symbol(sextet2(c[1], c[2])));
            assert(e[3] == base64_symbol(sextet3(b[2])));
            assert(f[3] == base64_symbol(sextet3(c[2])));
            lemma_symbol_injective(sextet1(b[0], b[1]), sextet1(c[0], c[1]));
            lemma_symbol_injective(sextet2(b[1], b[2]), sextet2(c[1], c[2]));
            lemma_symbol_injective(sextet3(b[2]), sextet3(c[2]));
            assert(base64_encoding(b.skip(3)) =~= e.skip(4));
            assert(base64_encoding(c.skip(3)) =~= base64_encoding(c).skip(4));
            lemma_encoding_injective(b.skip(3), c.skip(3));
            assert(b =~= seq![b[0], b[1], b[2]] + b.skip(3));
            assert(c =~= seq![c[0], c[1], c[2]] + c.skip(3));
        }
    }
}

/// The UTF-8 bytes of a stored line are the base64 encoding it was made of.
proof fn lemma_stored_quote_bytes(x: Seq<char>)
    ensures
        encode_utf8(stored_quote(x)) == base64_encoding(encode_utf8(x)),
{
    let e = base64_encoding(encode_utf8(x));
    let chars = stored_quote(x);
    lemma_encoding_shape(encode_utf8(x));
    assert(vstd::utf8::is_ascii_chars(chars)) by {
        assert forall|i: int| 0 <= i < chars.len() implies '\0' <= #[trigger] chars[i]
            <= '\u{7f}' by {
            assert(e[i] < 128);
        }
    }
    vstd::utf8::is_ascii_chars_encode_utf8(chars);
    assert(encode_utf8(chars) =~= e);
}

/// The line that stores the quote `text`.
pub fn encode_quote(text: &str) -> (s: String)
    ensures
        s@ == stored_quote(text@),
{
    base64_encode(text.as_bytes())
}

/// The text that the stored line `line` shows.
pub fn decode_quote(line: &String) -> (t: String)
    ensures
        t@ == quote_text(line@),
{
    broadcast use vstd::utf8::group_utf8_lib;

    let bytes = line.as_str().as_bytes();
    let decoded = base64_decode(bytes);
    let t = match decoded {
        Some(b) => match string_from_utf8(b) {
            Some(s) => s,
            None => line.clone(),
        },
        None => line.clone(),
    };
    t
}

/// The encoding of `b` ends in `base64_padding(b)` characters `'='`.
proof fn lemma_encoding_tail(b: Seq<u8>)
    ensures
        0 <= base64_padding(b) <= 2,
        base64_padding(b) <= base64_encoding(b).len(),
        forall|i: int|
            base64_encoding(b).len() - base64_padding(b) <= i < base64_encoding(b).len()
                ==> #[trigger] base64_encoding(b)[i] == base64_pad(),
    decreases b.len(),
{
    lemma_encoding_shape(b);
    if b.len() >= 3 {
        lemma_encoding_tail(b.skip(3));
        let e = base64_encoding(b);
        let r = base64_encoding(b.skip(3));
        assert(base64_padding(b) == base64_padding(b.skip(3)));
        assert forall|i: int| e.len() - base64_padding(b) <= i < e.len() implies #[trigger] e[i]
            == base64_pad() by {
            assert(e[i] == r[i - 4]);
        }
    }
}

/// A text reads as the encoding of at most one byte sequence.
pub proof fn lemma_decoding_unique(input: Seq<u8>, b: Seq<u8>, c: Seq<u8>)
    requires
        base64_reads_as(input, b),
        base64_reads_as(input, c),
    ensures
        b == c,
{
    let eb = base64_encoding(b);
    let ec = base64_encoding(c);
    lemma_encoding_shape(b);
    lemma_encoding_shape(c);
    lemma_encoding_tail(b);
    lemma_encoding_tail(c);
    let n = input.len() as int;
    assert(eb.len() == ec.len());
    assert forall|i: int| 0 <= i < eb.len() implies eb[i] == ec[i] by {
        if i < n {
            assert(eb[i] == eb.take(n)[i]);
            assert(ec[i] == ec.take(n)[i]);
        }
    }
    assert(eb =~= ec);
    lemma_encoding_injective(b, c);
}

/// Decoding gives back what was encoded.
pub proof fn law_base64_reads_back(b: Seq<u8>)
    ensures
        base64_decoding(base64_encoding(b)) == Some(b),
{
    let e = base64_encoding(b);
    lemma_encoding_tail(b);
    assert(e.take(e.len() as int) =~= e);
    assert(base64_reads_as(e, b));
    let c = choose|c: Seq<u8>| base64_reads_as(e, c);
    lemma_decoding_unique(e, b, c);
}

/// A stored quote shows the text it was made of.
pub proof fn law_stored_quote_reads_back(text: Seq<char>)
    ensures
        quote_text(stored_quote(text)) == text,
{
    broadcast use vstd::utf8::group_utf8_lib;

    lemma_stored_quote_bytes(text);
    law_base64_reads_back(encode_utf8(text));
}

/// A stored quote is one line that a file gives back unchanged: it holds no
/// `'\n'` and no `'\r'`, whatever the quote holds.
pub proof fn law_stored_quote_is_one_line(text: Seq<char>)
    ensures
        !stored_quote(text).contains('\n'),
        !stored_quote(text).contains('\r'),
{
    let e = base64_encoding(encode_utf8(text));
    lemma_encoding_shape(encode_utf8(text));
    let q = stored_quote(text);
    if q.contains('\n') || q.contains('\r') {
        let k = choose|k: int| 0 <= k < q.len() && (q[k] == '\n' || q[k] == '\r');
        assert(43 <= e[k]);
    }
}

} // verus!
