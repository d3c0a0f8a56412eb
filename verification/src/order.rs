//! The order in which `String`s compare: lexicographic on their UTF-8 bytes.

use vstd::prelude::*;
use vstd::utf8::encode_utf8;

verus! {

/// `a` sorts before `b` when both are compared from position `i` on.
pub open spec fn lex_lt_from(a: Seq<u8>, b: Seq<u8>, i: int) -> bool
    decreases a.len() - i,
{
    if i >= a.len() {
        i < b.len()
    } else if i >= b.len() {
        false
    } else if a[i] < b[i] {
        true
    } else if a[i] > b[i] {
        false
    } else {
        lex_lt_from(a, b, i + 1)
    }
}

/// Lexicographic order on byte sequences, a proper prefix sorting first.
pub open spec fn lex_lt(a: Seq<u8>, b: Seq<u8>) -> bool {
    lex_lt_from(a, b, 0)
}

/// The order of `str` and `String`: by their UTF-8 bytes.
pub open spec fn line_lt(a: Seq<char>, b: Seq<char>) -> bool {
    lex_lt(encode_utf8(a), encode_utf8(b))
}

/// Each line sorts strictly before every later one: sorted, with no line twice.
pub open spec fn strictly_sorted(s: Seq<Seq<char>>) -> bool {
    forall|i: int, j: int| 0 <= i < j < s.len() ==> line_lt(#[trigger] s[i], #[trigger] s[j])
}

proof fn lemma_lex_from_irreflexive(a: Seq<u8>, i: int)
    requires
        0 <= i,
    ensures
        !lex_lt_from(a, a, i),
    decreases a.len() - i,
{
    if i < a.len() {
        lemma_lex_from_irreflexive(a, i + 1);
    }
}

proof fn lemma_lex_from_transitive(a: Seq<u8>, b: Seq<u8>, c: Seq<u8>, i: int)
    requires
        0 <= i,
        lex_lt_from(a, b, i),
        lex_lt_from(b, c, i),
    ensures
        lex_lt_from(a, c, i),
    decreases a.len() - i,
{
    if i < a.len() && i < b.len() && i < c.len() && a[i] == b[i] && b[i] == c[i] {
        lemma_lex_from_transitive(a, b, c, i + 1);
    }
}

proof fn lemma_lex_from_total(a: Seq<u8>, b: Seq<u8>, i: int)
    requires
        0 <= i <= a.len(),
        i <= b.len(),
        a.take(i) == b.take(i),
    ensures
        lex_lt_from(a, b, i) || lex_lt_from(b, a, i) || a == b,
    decreases a.len() - i,
{
    if i < a.len() && i < b.len() && a[i] == b[i] {
        assert(a.take(i + 1) =~= a.take(i).push(a[i]));
        assert(b.take(i + 1) =~= b.take(i).push(b[i]));
        lemma_lex_from_total(a, b, i + 1);
    } else if i == a.len() && i == b.len() {
        assert(a =~= a.take(i));
        assert(b =~= b.take(i));
    }
}

/// No line sorts before itself.
pub proof fn lemma_line_lt_irreflexive(a: Seq<char>)
    ensures
        !line_lt(a, a),
{
    lemma_lex_from_irreflexive(encode_utf8(a), 0);
}

/// The order of lines is transitive.
pub proof fn lemma_line_lt_transitive(a: Seq<char>, b: Seq<char>, c: Seq<char>)
    requires
        line_lt(a, b),
        line_lt(b, c),
    ensures
        line_lt(a, c),
{
    lemma_lex_from_transitive(encode_utf8(a), encode_utf8(b), encode_utf8(c), 0);
}

/// Of two different lines, one sorts before the other.
pub proof fn lemma_line_lt_total(a: Seq<char>, b: Seq<char>)
    ensures
        line_lt(a, b) || line_lt(b, a) || a == b,
{
    broadcast use vstd::utf8::group_utf8_lib;

    let ea = encode_utf8(a);
    let eb = encode_utf8(b);
    assert(ea.take(0) =~= eb.take(0));
    lemma_lex_from_total(ea, eb, 0);
    if ea == eb {
        assert(vstd::utf8::decode_utf8(ea) == a);
        assert(vstd::utf8::decode_utf8(eb) == b);
    }
}

proof fn lemma_lex_skip_equal_prefix(a: Seq<u8>, b: Seq<u8>, i: int)
    requires
        0 <= i <= a.len(),
        i <= b.len(),
        a.take(i) == b.take(i),
    ensures
        lex_lt(a, b) == lex_lt_from(a, b, i),
    decreases i,
{
    if i > 0 {
        assert(a.take(i - 1) =~= a.take(i).take(i - 1));
        assert(b.take(i - 1) =~= b.take(i).take(i - 1));
        lemma_lex_skip_equal_prefix(a, b, i - 1);
        assert(a[i - 1] == a.take(i)[i - 1]);
        assert(b[i - 1] == b.take(i)[i - 1]);
    }
}

/// Byte sequences are ordered by their first difference: after an equal
/// prefix of length `i`, the sequence with the smaller byte at `i` sorts
/// first, and a sequence that ends at `i` sorts before one that goes on.
pub proof fn law_lex_lt_first_difference(a: Seq<u8>, b: Seq<u8>, i: int)
    requires
        0 <= i <= a.len(),
        i <= b.len(),
        a.take(i) == b.take(i),
    ensures
        i < a.len() && i < b.len() && a[i] != b[i] ==> (lex_lt(a, b) <==> a[i] < b[i]),
        i == a.len() && i < b.len() ==> lex_lt(a, b),
        i == b.len() ==> !lex_lt(a, b),
{
    lemma_lex_skip_equal_prefix(a, b, i);
}

/// Lines are ordered as `String` orders them: by the first byte at which
/// their UTF-8 encodings differ, a proper prefix first.
pub proof fn law_line_lt_first_difference(a: Seq<char>, b: Seq<char>, i: int)
    requires
        0 <= i <= encode_utf8(a).len(),
        i <= encode_utf8(b).len(),
        encode_utf8(a).take(i) == encode_utf8(b).take(i),
    ensures
        i < encode_utf8(a).len() && i < encode_utf8(b).len() && encode_utf8(a)[i] != encode_utf8(
            b,
        )[i] ==> (line_lt(a, b) <==> encode_utf8(a)[i] < encode_utf8(b)[i]),
        i == encode_utf8(a).len() && i < encode_utf8(b).len() ==> line_lt(a, b),
        i == encode_utf8(b).len() ==> !line_lt(a, b),
{
    law_lex_lt_first_difference(encode_utf8(a), encode_utf8(b), i);
}

/// Whether `a` sorts before `b`.
pub fn bytes_lt(a: &[u8], b: &[u8]) -> (r: bool)
    ensures
        r == lex_lt(a@, b@),
{
    let n = a.len();
    let m = b.len();
    let mut i: usize = 0;
    while i < n && i < m
        invariant
            n == a@.len(),
            m == b@.len(),
            i <= n,
            i <= m,
            lex_lt(a@, b@) == lex_lt_from(a@, b@, i as int),
        decreases n - i,
    {
        if a[i] < b[i] {
            return true;
        }
        if a[i] > b[i] {
            return false;
        }
        i = i + 1;
    }
    i < m && i >= n
}

/// Whether the string `a` sorts before the string `b`.
pub fn string_lt(a: &String, b: &String) -> (r: bool)
    ensures
        r == line_lt(a@, b@),
{
    bytes_lt(a.as_str().as_bytes(), b.as_str().as_bytes())
}

} // verus!
