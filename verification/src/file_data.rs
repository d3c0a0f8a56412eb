//! A list of lines kept in a text file, one line per entry, optionally sorted
//! and free of repeats.

use vstd::prelude::*;
use crate::order::{line_lt, strictly_sorted, string_lt, lemma_line_lt_irreflexive, lemma_line_lt_transitive, lemma_line_lt_total};
use crate::text::{chars_of, string_of, push_str};
use crate::codec::{stored_quote, law_stored_quote_is_one_line};

verus! {

/// The characters of each string of `v`.
pub open spec fn lines_of(v: Seq<String>) -> Seq<Seq<char>> {
    v.map_values(|s: String| s@)
}

/// `x` without one `'\r'` at its end, where it has one.
pub open spec fn strip_cr(x: Seq<char>) -> Seq<char> {
    if x.len() > 0 && x.last() == '\r' {
        x.drop_last()
    } else {
        x
    }
}

/// The lines that `s` ends, and the unfinished piece after the last `'\n'`.
pub open spec fn split_parts(s: Seq<char>) -> (Seq<Seq<char>>, Seq<char>)
    decreases s.len(),
{
    if s.len() == 0 {
        (seq![], seq![])
    } else {
        let (done, cur) = split_parts(s.drop_last());
        if s.last() == '\n' {
            (done.push(strip_cr(cur)), seq![])
        } else {
            (done, cur.push(s.last()))
        }
    }
}

/// The lines of a text as `BufRead::lines` yields them: split at each `'\n'`,
/// a `'\r'` before it dropped, and a last line without `'\n'` kept where it
/// is not empty.
pub open spec fn split_lines(s: Seq<char>) -> Seq<Seq<char>> {
    let (done, cur) = split_parts(s);
    if cur.len() > 0 {
        done.push(cur)
    } else {
        done
    }
}

/// The text of a file that holds `lines`: each line followed by `'\n'`.
pub open spec fn file_text(lines: Seq<Seq<char>>) -> Seq<char>
    decreases lines.len(),
{
    if lines.len() == 0 {
        seq![]
    } else {
        file_text(lines.drop_last()) + lines.last() + seq!['\n']
    }
}

/// The lines of `text`, as `BufRead::lines` reads them from a file.
pub fn split_lines_of(text: &str) -> (v: Vec<String>)
    ensures
        lines_of(v@) == split_lines(text@),
{
    let chars = chars_of(text);
    let n = chars.len();
    let mut done: Vec<String> = Vec::new();
    let mut cur: Vec<char> = Vec::new();
    for i in 0..n
        invariant
            n == chars@.len(),
            chars@ == text@,
            (lines_of(done@), cur@) == split_parts(chars@.take(i as int)),
    {
        let c = chars[i];
        assert(chars@.take(i + 1).drop_last() =~= chars@.take(i as int));
        if c == '\n' {
            let k = cur.len();
            if k > 0 && cur[k - 1] == '\r' {
                cur.pop();
            }
            let line = string_of(cur.as_slice());
            done.push(line);
            cur = Vec::new();
            assert(lines_of(done@) =~= split_parts(chars@.take(i + 1)).0);
        } else {
            cur.push(c);
        }
    }
    assert(chars@.take(n as int) =~= chars@);
    if cur.len() > 0 {
        let line = string_of(cur.as_slice());
        done.push(line);
        assert(lines_of(done@) =~= split_lines(text@));
    }
    done
}

/// The text of a file holding the lines `v`.
pub fn file_text_of(v: &Vec<String>) -> (s: String)
    ensures
        s@ == file_text(lines_of(v@)),
{
    let mut s = String::new();
    let n = v.len();
    for i in 0..n
        invariant
            n == v@.len(),
            s@ == file_text(lines_of(v@).take(i as int)),
    {
        push_str(&mut s, v[i].as_str());
        push_str(&mut s, "\n");
        proof {
            reveal_strlit("\n");
            assert(lines_of(v@).take(i + 1).drop_last() =~= lines_of(v@).take(i as int));
        }
    }
    assert(lines_of(v@).take(n as int) =~= lines_of(v@));
    s
}


proof fn lemma_insert_keeps_sorted(s: Seq<Seq<char>>, p: int, x: Seq<char>)
    requires
        strictly_sorted(s),
        0 <= p <= s.len(),
        forall|k: int| 0 <= k < p ==> line_lt(#[trigger] s[k], x),
        p < s.len() ==> line_lt(x, s[p]),
    ensures
        strictly_sorted(s.insert(p, x)),
{
    let t = s.insert(p, x);
    assert forall|i: int, j: int| 0 <= i < j < t.len() implies line_lt(
        #[trigger] t[i],
        #[trigger] t[j],
    ) by {
        if j < p {
            assert(t[i] == s[i] && t[j] == s[j]);
        } else if j == p {
            assert(t[i] == s[i]);
        } else if i < p {
            assert(t[i] == s[i] && t[j] == s[j - 1]);
            if p < s.len() {
                assert(line_lt(s[i], x));
                if j - 1 > p {
                    lemma_line_lt_transitive(x, s[p], s[j - 1]);
                }
                lemma_line_lt_transitive(s[i], x, s[j - 1]);
            }
        } else if i == p {
            assert(t[j] == s[j - 1]);
            if j - 1 > p {
                lemma_line_lt_transitive(x, s[p], s[j - 1]);
            }
        } else {
            assert(t[i] == s[i - 1] && t[j] == s[j - 1]);
        }
    }
}

proof fn lemma_insert_contains(s: Seq<Seq<char>>, p: int, x: Seq<char>)
    requires
        0 <= p <= s.len(),
    ensures
        forall|y: Seq<char>| #[trigger] s.insert(p, x).contains(y) <==> (s.contains(y) || y == x),
{
    let t = s.insert(p, x);
    assert forall|y: Seq<char>| t.contains(y) <==> (s.contains(y) || y == x) by {
        if t.contains(y) {
            let k = choose|k: int| 0 <= k < t.len() && t[k] == y;
            if k < p {
                assert(s[k] == y);
            } else if k > p {
                assert(s[k - 1] == y);
            }
        }
        if s.contains(y) {
            let k = choose|k: int| 0 <= k < s.len() && s[k] == y;
            if k < p {
                assert(t[k] == y);
            } else {
                assert(t[k + 1] == y);
            }
        }
        if y == x {
            assert(t[p] == y);
        }
    }
}

/// The strings of `v`, each once, in the order of `String`: what collecting
/// them into a `BTreeSet` and walking it gives.
pub fn sorted_unique(v: &Vec<String>) -> (r: Vec<String>)
    ensures
        strictly_sorted(lines_of(r@)),
        forall|y: Seq<char>| #[trigger] lines_of(r@).contains(y) <==> lines_of(v@).contains(y),
{
    let mut r: Vec<String> = Vec::new();
    let n = v.len();
    for i in 0..n
        invariant
            n == v@.len(),
            strictly_sorted(lines_of(r@)),
            forall|y: Seq<char>| #[trigger]
                lines_of(r@).contains(y) <==> lines_of(v@).take(i as int).contains(y),
    {
        let x = v[i].clone();
        let ghost old_r = lines_of(r@);
        let ghost prefix = lines_of(v@).take(i as int);
        let ghost next = lines_of(v@).take(i + 1);
        assert(next =~= prefix.push(x@));
        assert forall|y: Seq<char>| #[trigger] next.contains(y) <==> (prefix.contains(y) || y
            == x@) by {
            if next.contains(y) {
                let k = choose|k: int| 0 <= k < next.len() && next[k] == y;
                if k < i {
                    assert(prefix[k] == y);
                }
            }
            if prefix.contains(y) {
                let k = choose|k: int| 0 <= k < prefix.len() && prefix[k] == y;
                assert(next[k] == y);
            }
            if y == x@ {
                assert(next[i as int] == y);
            }
        }
        let m = r.len();
        let mut p: usize = 0;
        while p < m && string_lt(&r[p], &x)
            invariant
                m == r@.len(),
                p <= m,
                old_r == lines_of(r@),
                forall|k: int| 0 <= k < p ==> line_lt(#[trigger] old_r[k], x@),
            decreases m - p,
        {
            p = p + 1;
        }
        if p < m && !string_lt(&x, &r[p]) {
            proof {
                lemma_line_lt_total(old_r[p as int], x@);
                assert(old_r[p as int] == x@);
                assert(old_r.contains(x@));
            }
        } else {
            proof {
                lemma_insert_keeps_sorted(old_r, p as int, x@);
                lemma_insert_contains(old_r, p as int, x@);
            }
            r.insert(p, x);
            assert(lines_of(r@) =~= old_r.insert(p as int, x@));
        }
    }
    assert(lines_of(v@).take(n as int) =~= lines_of(v@));
    r
}


/// The lines of a file, kept in memory beside the file's name.
pub struct FileData {
    pub file_name: String,
    pub content: Vec<String>,
    pub if_unique: bool,
}

impl FileData {
    /// The lines held, as character sequences.
    pub open spec fn lines(&self) -> Seq<Seq<char>> {
        lines_of(self.content@)
    }

    /// The lines of the file `file_name`, whose text is `text`. Where
    /// `if_unique` holds, each line is kept once and the lines are sorted,
    /// and the file is then to be rewritten with `file_text()`.
    pub fn new(file_name: String, text: &str, if_unique: bool) -> (d: FileData)
        ensures
            d.file_name@ == file_name@,
            d.if_unique == if_unique,
            !if_unique ==> d.lines() == split_lines(text@),
            if_unique ==> strictly_sorted(d.lines()),
            if_unique ==> forall|y: Seq<char>| #[trigger]
                d.lines().contains(y) <==> split_lines(text@).contains(y),
    {
        let lines = split_lines_of(text);
        let content = if if_unique {
            sorted_unique(&lines)
        } else {
            lines
        };
        FileData { file_name, content, if_unique }
    }

    /// The text of the file that holds the lines.
    pub fn file_text(&self) -> (s: String)
        ensures
            s@ == file_text(self.lines()),
    {
        file_text_of(&self.content)
    }

    /// Appends `content` as a new last line, and gives the text that the file
    /// is then to hold.
    pub fn save(&mut self, content: String) -> (text: String)
        ensures
            final(self).lines() == old(self).lines().push(content@),
            final(self).file_name == old(self).file_name,
            final(self).if_unique == old(self).if_unique,
            text@ == file_text(final(self).lines()),
    {
        let ghost c = content@;
        self.content.push(content);
        assert(self.lines() =~= old(self).lines().push(c));
        self.file_text()
    }
}

/// No line holds `'\n'` or ends with `'\r'`: the lines that a file can give
/// back unchanged.
pub open spec fn storable(lines: Seq<Seq<char>>) -> bool {
    forall|i: int| 0 <= i < lines.len() ==> {
        &&& !(#[trigger] lines[i]).contains('\n')
        &&& !(lines[i].len() > 0 && lines[i].last() == '\r')
    }
}

proof fn lemma_split_parts_append_plain(p: Seq<char>, x: Seq<char>)
    requires
        !x.contains('\n'),
    ensures
        split_parts(p + x) == (split_parts(p).0, split_parts(p).1 + x),
    decreases x.len(),
{
    if x.len() == 0 {
        assert(p + x =~= p);
        assert(split_parts(p).1 + x =~= split_parts(p).1);
    } else {
        let y = x.drop_last();
        assert(!y.contains('\n')) by {
            if y.contains('\n') {
                let k = choose|k: int| 0 <= k < y.len() && y[k] == '\n';
                assert(x[k] == '\n');
            }
        }
        lemma_split_parts_append_plain(p, y);
        assert((p + x).drop_last() =~= p + y);
        assert(x.last() != '\n') by {
            if x.last() == '\n' {
                assert(x[x.len() - 1] == '\n');
            }
        }
        assert(split_parts(p).1 + y + seq![x.last()] =~= split_parts(p).1 + x);
    }
}

proof fn lemma_split_parts_file_text(lines: Seq<Seq<char>>)
    requires
        storable(lines),
    ensures
        split_parts(file_text(lines)) == (lines, Seq::<char>::empty()),
    decreases lines.len(),
{
    if lines.len() > 0 {
        let init = lines.drop_last();
        let x = lines.last();
        assert(storable(init)) by {
            assert forall|i: int| 0 <= i < init.len() implies {
                &&& !(#[trigger] init[i]).contains('\n')
                &&& !(init[i].len() > 0 && init[i].last() == '\r')
            } by {
                assert(init[i] == lines[i]);
            }
        }
        lemma_split_parts_file_text(init);
        assert(lines[lines.len() - 1] == x);
        let p = file_text(init);
        lemma_split_parts_append_plain(p, x);
        let t = file_text(lines);
        assert(t == p + x + seq!['\n']);
        assert(t.drop_last() =~= p + x);
        assert(Seq::<char>::empty() + x =~= x);
        assert(init.push(x) =~= lines);
    }
}

/// What a file was written with, it reads back: for lines without `'\n'`
/// and without a `'\r'` at their end, reading the lines of the text written
/// for them gives the same lines.
pub proof fn law_file_text_reads_back(lines: Seq<Seq<char>>)
    requires
        storable(lines),
    ensures
        split_lines(file_text(lines)) == lines,
{
    lemma_split_parts_file_text(lines);
}

/// A saved quote survives a restart: appending a stored quote to lines that a
/// file gives back unchanged, the file's new text reads back as the new lines.
pub proof fn law_saved_quote_reads_back(lines: Seq<Seq<char>>, text: Seq<char>)
    requires
        storable(lines),
    ensures
        split_lines(file_text(lines.push(stored_quote(text)))) == lines.push(stored_quote(text)),
{
    let q = stored_quote(text);
    law_stored_quote_is_one_line(text);
    let l = lines.push(q);
    assert(storable(l)) by {
        assert forall|i: int| 0 <= i < l.len() implies {
            &&& !(#[trigger] l[i]).contains('\n')
            &&& !(l[i].len() > 0 && l[i].last() == '\r')
        } by {
            if i == lines.len() {
                if q.len() > 0 && q.last() == '\r' {
                    assert(q[q.len() - 1] == '\r');
                }
            } else {
                assert(l[i] == lines[i]);
            }
        }
    }
    law_file_text_reads_back(l);
}

proof fn lemma_split_parts_no_newline(s: Seq<char>)
    ensures
        !split_parts(s).1.contains('\n'),
        forall|i: int|
            0 <= i < split_parts(s).0.len() ==> !(#[trigger] split_parts(s).0[i]).contains('\n'),
    decreases s.len(),
{
    if s.len() > 0 {
        lemma_split_parts_no_newline(s.drop_last());
        let (done, cur) = split_parts(s.drop_last());
        if s.last() == '\n' {
            let x = strip_cr(cur);
            assert(!x.contains('\n')) by {
                if x.contains('\n') {
                    let k = choose|k: int| 0 <= k < x.len() && x[k] == '\n';
                    assert(cur[k] == '\n');
                }
            }
            let d2 = done.push(x);
            assert forall|i: int| 0 <= i < d2.len() implies !(#[trigger] d2[i]).contains('\n') by {
                if i < done.len() {
                    assert(d2[i] == done[i]);
                }
            }
        } else {
            let c2 = cur.push(s.last());
            assert(!c2.contains('\n')) by {
                if c2.contains('\n') {
                    let k = choose|k: int| 0 <= k < c2.len() && c2[k] == '\n';
                    if k < cur.len() {
                        assert(cur[k] == '\n');
                    }
                }
            }
        }
    }
}

/// No line read from a text holds `'\n'`.
pub proof fn lemma_split_lines_no_newline(s: Seq<char>)
    ensures
        forall|i: int| 0 <= i < split_lines(s).len() ==> !(#[trigger] split_lines(s)[i]).contains('\n'),
{
    lemma_split_parts_no_newline(s);
    let (done, cur) = split_parts(s);
    if cur.len() > 0 {
        let l = done.push(cur);
        assert forall|i: int| 0 <= i < l.len() implies !(#[trigger] l[i]).contains('\n') by {
            if i < done.len() {
                assert(l[i] == done[i]);
            }
        }
    }
}

/// A strictly sorted list of lines is fixed by the lines it holds.
pub proof fn lemma_sorted_lines_determined(a: Seq<Seq<char>>, b: Seq<Seq<char>>)
    requires
        strictly_sorted(a),
        strictly_sorted(b),
        forall|y: Seq<char>| a.contains(y) <==> b.contains(y),
    ensures
        a == b,
    decreases a.len(),
{
    if a.len() == 0 {
        if b.len() > 0 {
            assert(b.contains(b[0]));
        }
        assert(a =~= b);
    } else if b.len() == 0 {
        assert(a.contains(a[0]));
    } else {
        assert(a.contains(a[0]));
        assert(b.contains(b[0]));
        let j = choose|j: int| 0 <= j < b.len() && b[j] == a[0];
        let i = choose|i: int| 0 <= i < a.len() && a[i] == b[0];
        if j > 0 {
            assert(line_lt(b[0], b[j]));
            if i > 0 {
                assert(line_lt(a[0], a[i]));
                lemma_line_lt_transitive(a[0], b[0], a[0]);
            }
            lemma_line_lt_irreflexive(a[0]);
        }
        if i > 0 {
            assert(line_lt(a[0], a[i]));
            lemma_line_lt_irreflexive(a[0]);
        }
        assert(a[0] == b[0]);
        let a1 = a.drop_first();
        let b1 = b.drop_first();
        assert forall|y: Seq<char>| a1.contains(y) <==> b1.contains(y) by {
            if a1.contains(y) {
                let k = choose|k: int| 0 <= k < a1.len() && a1[k] == y;
                assert(a.contains(y) && a[k + 1] == y);
                assert(line_lt(a[0], a[k + 1]));
                let m = choose|m: int| 0 <= m < b.len() && b[m] == y;
                if m == 0 {
                    lemma_line_lt_irreflexive(a[0]);
                }
                assert(b1[m - 1] == y);
            }
            if b1.contains(y) {
                let k = choose|k: int| 0 <= k < b1.len() && b1[k] == y;
                assert(b.contains(y) && b[k + 1] == y);
                assert(line_lt(b[0], b[k + 1]));
                let m = choose|m: int| 0 <= m < a.len() && a[m] == y;
                if m == 0 {
                    lemma_line_lt_irreflexive(b[0]);
                }
                assert(a1[m - 1] == y);
            }
        }
        assert(strictly_sorted(a1)) by {
            assert forall|x: int, y: int| 0 <= x < y < a1.len() implies line_lt(
                #[trigger] a1[x],
                #[trigger] a1[y],
            ) by {
                assert(a1[x] == a[x + 1] && a1[y] == a[y + 1]);
            }
        }
        assert(strictly_sorted(b1)) by {
            assert forall|x: int, y: int| 0 <= x < y < b1.len() implies line_lt(
                #[trigger] b1[x],
                #[trigger] b1[y],
            ) by {
                assert(b1[x] == b[x + 1] && b1[y] == b[y + 1]);
            }
        }
        lemma_sorted_lines_determined(a1, b1);
        assert(a =~= seq![a[0]] + a1);
        assert(b =~= seq![b[0]] + b1);
    }
}

/// Loading a file with unique lines twice gives the same lines and leaves the
/// same text: `first` is what a load of `text` keeps (as `FileData::new`
/// states it), and `second` what a load of the text then written for
/// `first` keeps. No line may end with `'\r'`, which a file does not give back.
pub proof fn law_unique_reload(text: Seq<char>, first: Seq<Seq<char>>, second: Seq<Seq<char>>)
    requires
        strictly_sorted(first),
        forall|y: Seq<char>| #[trigger] first.contains(y) <==> split_lines(text).contains(y),
        forall|i: int| 0 <= i < first.len() ==> !((#[trigger] first[i]).len() > 0 && first[i].last() == '\r'),
        strictly_sorted(second),
        forall|y: Seq<char>| #[trigger] second.contains(y) <==> split_lines(file_text(first)).contains(y),
    ensures
        second == first,
        file_text(second) == file_text(first),
{
    lemma_split_lines_no_newline(text);
    let l = split_lines(text);
    assert(storable(first)) by {
        assert forall|i: int| 0 <= i < first.len() implies {
            &&& !(#[trigger] first[i]).contains('\n')
            &&& !(first[i].len() > 0 && first[i].last() == '\r')
        } by {
            assert(first.contains(first[i]));
            let k = choose|k: int| 0 <= k < l.len() && l[k] == first[i];
            assert(!l[k].contains('\n'));
        }
    }
    law_file_text_reads_back(first);
    lemma_sorted_lines_determined(second, first);
}

/// Lines in strict order are all different.
pub proof fn law_sorted_lines_differ(s: Seq<Seq<char>>)
    requires
        strictly_sorted(s),
    ensures
        forall|i: int, j: int| 0 <= i < j < s.len() ==> s[i] != s[j],
{
    assert forall|i: int, j: int| 0 <= i < j < s.len() implies s[i] != s[j] by {
        assert(line_lt(s[i], s[j]));
        lemma_line_lt_irreflexive(s[i]);
    }
}

} // verus!
