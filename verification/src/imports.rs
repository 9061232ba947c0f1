//! Extraction of relative import specifiers from module source text.
//!
//! The scan is line based and deliberately naive: on each trimmed line it looks
//! for `from `, `import ` and `require(` and takes the quoted string that
//! follows, keeping it when it starts with a dot.

use vstd::prelude::*;
use crate::text::{
    chars_of, find, find_chars, lemma_find, matches_at, string_from_chars, strs, sub_chars, trim, trim_chars,
};

verus! {

/// `s` without its leading `(` and space characters.
pub open spec fn strip_open(s: Seq<char>) -> Seq<char>
    decreases s.len(),
{
    if s.len() > 0 && (s[0] == '(' || s[0] == ' ') {
        strip_open(s.drop_first())
    } else {
        s
    }
}

/// The text between the opening quote that starts `strip_open(s)` and the next
/// occurrence of the same quote character.
pub open spec fn quoted(s: Seq<char>) -> Option<Seq<char>> {
    let t = strip_open(s);
    if t.len() > 0 && (t[0] == '"' || t[0] == '\'') {
        let rest = t.drop_first();
        match find(rest, seq![t[0]]) {
            Some(e) => Some(rest.take(e)),
            None => None,
        }
    } else {
        None
    }
}

/// `strip_open` drops exactly the leading `(` and space characters: what is
/// left is a suffix of `s` that starts with neither.
pub proof fn lemma_strip_open(s: Seq<char>)
    ensures
        strip_open(s).len() <= s.len(),
        strip_open(s) == s.skip(s.len() - strip_open(s).len()),
        forall|j: int| 0 <= j < s.len() - strip_open(s).len() ==> #[trigger] s[j] == '(' || s[j] == ' ',
        strip_open(s).len() > 0 ==> strip_open(s)[0] != '(' && strip_open(s)[0] != ' ',
    decreases s.len(),
{
    if s.len() > 0 && (s[0] == '(' || s[0] == ' ') {
        let r = s.drop_first();
        lemma_strip_open(r);
        assert(r.skip(r.len() - strip_open(r).len()) =~= s.skip(s.len() - strip_open(s).len()));
        assert forall|j: int| 0 <= j < s.len() - strip_open(s).len() implies #[trigger] s[j] == '(' || s[j] == ' ' by {
            if j > 0 {
                assert(s[j] == r[j - 1]);
            }
        }
    } else {
        assert(s.skip(0) =~= s);
    }
}

/// After the leading `(` and spaces, a quoted text is a quote character (`"`
/// or `'`), the text, which does not hold that character, and the same quote
/// character again; there is none when the text does not start with a quote
/// or the quote is not closed.
pub proof fn lemma_quoted(s: Seq<char>)
    ensures
        ({
            let t = strip_open(s);
            &&& quoted(s) matches Some(q) ==> {
                &&& t[0] == '"' || t[0] == '\''
                &&& q.len() + 2 <= t.len()
                &&& t.subrange(1, q.len() as int + 1) == q
                &&& t[q.len() as int + 1] == t[0]
                &&& !q.contains(t[0])
            }
            &&& quoted(s) is None <==> (t.len() == 0 || (t[0] != '"' && t[0] != '\'') || !t.drop_first().contains(
                t[0],
            ))
        }),
{
    let t = strip_open(s);
    if t.len() > 0 && (t[0] == '"' || t[0] == '\'') {
        let rest = t.drop_first();
        let pat = seq![t[0]];
        lemma_find(rest, pat);
        match find(rest, pat) {
            Some(e) => {
                let q = rest.take(e);
                assert(matches_at(rest, pat, e));
                assert(rest.subrange(e, e + 1) == pat);
                assert(rest.subrange(e, e + 1)[0] == rest[e]);
                assert(pat[0] == t[0]);
                assert(rest[e] == t[0]);
                assert(t.subrange(1, q.len() as int + 1) =~= q);
                assert(!q.contains(t[0])) by {
                    if q.contains(t[0]) {
                        let j = choose|j: int| 0 <= j < q.len() && q[j] == t[0];
                        assert(rest.subrange(j, j + 1) =~= pat);
                        assert(matches_at(rest, pat, j));
                    }
                }
                assert(rest.contains(t[0]));
            },
            None => {
                assert(!rest.contains(t[0])) by {
                    if rest.contains(t[0]) {
                        let j = choose|j: int| 0 <= j < rest.len() && rest[j] == t[0];
                        assert(rest.subrange(j, j + 1) =~= pat);
                        assert(matches_at(rest, pat, j));
                    }
                }
            },
        }
    }
}

/// The relative specifier quoted after the first occurrence of `marker` in `line`.
pub open spec fn after_marker(line: Seq<char>, marker: Seq<char>) -> Option<Seq<char>> {
    match find(line, marker) {
        Some(i) => match quoted(line.skip(i + marker.len())) {
            Some(q) => if q.len() > 0 && q[0] == '.' {
                Some(q)
            } else {
                None
            },
            None => None,
        },
        None => None,
    }
}

/// Zero or one element.
pub open spec fn opt_seq(o: Option<Seq<char>>) -> Seq<Seq<char>> {
    match o {
        Some(x) => seq![x],
        None => seq![],
    }
}

/// The specifiers found on one line: at most one per marker, in marker order.
pub open spec fn line_imports(raw: Seq<char>) -> Seq<Seq<char>> {
    let line = trim(raw);
    opt_seq(after_marker(line, "from "@)) + opt_seq(after_marker(line, "import "@)) + opt_seq(
        after_marker(line, "require("@),
    )
}

/// Position of the first `c` in `s`, or `s.len()` when there is none.
pub open spec fn index_of(s: Seq<char>, c: char) -> int
    decreases s.len(),
{
    if s.len() == 0 {
        0
    } else if s[0] == c {
        0
    } else {
        1 + index_of(s.drop_first(), c)
    }
}

/// `index_of` lies within the sequence.
pub proof fn lemma_index_of_bounds(s: Seq<char>, c: char)
    ensures
        0 <= index_of(s, c) <= s.len(),
    decreases s.len(),
{
    if s.len() > 0 && s[0] != c {
        lemma_index_of_bounds(s.drop_first(), c);
    }
}

proof fn lemma_index_of_is(s: Seq<char>, c: char, k: int)
    requires
        0 <= k <= s.len(),
        forall|j: int| 0 <= j < k ==> s[j] != c,
        k == s.len() || s[k] == c,
    ensures
        index_of(s, c) == k,
    decreases k,
{
    if k > 0 {
        assert(s[0] != c);
        lemma_index_of_is(s.drop_first(), c, k - 1);
    }
}

/// The specifiers of a whole text, line by line (lines end at `\n`).
pub open spec fn text_imports(s: Seq<char>) -> Seq<Seq<char>>
    decreases s.len(),
{
    let k = index_of(s, '\n');
    if k < s.len() {
        proof {
            lemma_index_of_bounds(s, '\n');
        }
        line_imports(s.take(k)) + text_imports(s.skip(k + 1))
    } else {
        line_imports(s)
    }
}

/// What a line gives: for each of the markers `from `, `import ` and
/// `require(`, in that order, the relative specifier quoted right after the
/// marker's first occurrence in the trimmed line, when there is one.
pub proof fn lemma_line_imports(raw: Seq<char>)
    ensures
        ({
            let line = trim(raw);
            let markers = seq!["from "@, "import "@, "require("@];
            &&& line_imports(raw).len() <= 3
            &&& forall|m: int|
                0 <= m < 3 ==> (#[trigger] after_marker(line, markers[m]) matches Some(q) ==> line_imports(
                    raw,
                ).contains(q))
            &&& forall|k: int|
                0 <= k < line_imports(raw).len() ==> exists|m: int|
                    0 <= m < 3 && after_marker(line, markers[m]) == Some(#[trigger] line_imports(raw)[k])
        }),
{
    let line = trim(raw);
    let markers = seq!["from "@, "import "@, "require("@];
    let a = opt_seq(after_marker(line, "from "@));
    let b = opt_seq(after_marker(line, "import "@));
    let c = opt_seq(after_marker(line, "require("@));
    let l = line_imports(raw);
    assert(l == a + b + c);
    assert forall|m: int|
        0 <= m < 3 implies (#[trigger] after_marker(line, markers[m]) matches Some(q) ==> line_imports(raw).contains(q)) by {
        if m == 0 {
            if let Some(q) = after_marker(line, markers[m]) {
                assert(l[0] == q);
            }
        } else if m == 1 {
            if let Some(q) = after_marker(line, markers[m]) {
                assert(l[a.len() as int] == q);
            }
        } else {
            if let Some(q) = after_marker(line, markers[m]) {
                assert(l[(a.len() + b.len()) as int] == q);
            }
        }
    }
    assert forall|k: int| 0 <= k < l.len() implies exists|m: int|
        0 <= m < 3 && after_marker(line, markers[m]) == Some(#[trigger] l[k]) by {
        if k < a.len() {
            assert(l[k] == a[k]);
            assert(after_marker(line, markers[0]) == Some(l[k]));
        } else if k < a.len() + b.len() {
            assert(l[k] == b[k - a.len()]);
            assert(after_marker(line, markers[1]) == Some(l[k]));
        } else {
            assert(l[k] == c[k - a.len() - b.len()]);
            assert(after_marker(line, markers[2]) == Some(l[k]));
        }
    }
}

/// A marker gives the quoted text that follows its first occurrence, kept
/// when it starts with a dot.
pub proof fn lemma_after_marker(line: Seq<char>, marker: Seq<char>)
    ensures
        after_marker(line, marker) matches Some(q) ==> {
            &&& q.len() > 0 && q[0] == '.'
            &&& find(line, marker) matches Some(i) && matches_at(line, marker, i)
                && quoted(line.skip(i + marker.len())) == Some(q)
        },
        after_marker(line, marker) is None <==> (match find(line, marker) {
            Some(i) => match quoted(line.skip(i + marker.len())) {
                Some(q) => !(q.len() > 0 && q[0] == '.'),
                None => true,
            },
            None => true,
        }),
{
    lemma_find(line, marker);
}

/// Text is split into lines at `\n`: the specifiers of a line without a
/// line break, a line break and more text are those of the line followed by
/// those of the rest.
pub proof fn lemma_text_imports_lines(a: Seq<char>, b: Seq<char>)
    requires
        !a.contains('\n'),
    ensures
        text_imports(a + seq!['\n'] + b) == line_imports(a) + text_imports(b),
        text_imports(a) == line_imports(a),
{
    let s = a + seq!['\n'] + b;
    assert forall|j: int| 0 <= j < a.len() implies s[j] != '\n' by {
        assert(s[j] == a[j]);
        if s[j] == '\n' {
            assert(a.contains('\n'));
        }
    }
    assert(s[a.len() as int] == '\n');
    lemma_index_of_is(s, '\n', a.len() as int);
    assert(s.take(a.len() as int) =~= a);
    assert(s.skip(a.len() as int + 1) =~= b);
    assert forall|j: int| 0 <= j < a.len() implies a[j] != '\n' by {
        if a[j] == '\n' {
            assert(a.contains('\n'));
        }
    }
    lemma_index_of_is(a, '\n', a.len() as int);
}

/// Every specifier found on a line is relative: it starts with a dot.
pub proof fn lemma_line_imports_relative(raw: Seq<char>)
    ensures
        forall|k: int| 0 <= k < line_imports(raw).len() ==> (#[trigger] line_imports(raw)[k]).len() > 0
            && line_imports(raw)[k][0] == '.',
{
}

/// Every specifier `parse_imports` returns is relative: it starts with a dot.
pub proof fn lemma_imports_relative(s: Seq<char>)
    ensures
        forall|k: int| 0 <= k < text_imports(s).len() ==> (#[trigger] text_imports(s)[k]).len() > 0
            && text_imports(s)[k][0] == '.',
    decreases s.len(),
{
    let k = index_of(s, '\n');
    lemma_index_of_bounds(s, '\n');
    if k < s.len() {
        lemma_line_imports_relative(s.take(k));
        lemma_imports_relative(s.skip(k + 1));
        let a = line_imports(s.take(k));
        let b = text_imports(s.skip(k + 1));
        assert forall|j: int| 0 <= j < text_imports(s).len() implies (#[trigger] text_imports(s)[j]).len() > 0
            && text_imports(s)[j][0] == '.' by {
            if j < a.len() {
                assert(text_imports(s)[j] == a[j]);
            } else {
                assert(text_imports(s)[j] == b[j - a.len()]);
            }
        }
    } else {
        lemma_line_imports_relative(s);
    }
}

fn quoted_chars(v: &Vec<char>) -> (r: Option<Vec<char>>)
    ensures
        match r {
            Some(x) => quoted(v@) == Some(x@),
            None => quoted(v@) is None,
        },
{
    let mut k: usize = 0;
    assert(v@.subrange(0, v.len() as int) =~= v@);
    while k < v.len() && (v[k] == '(' || v[k] == ' ')
        invariant
            k <= v.len(),
            strip_open(v@) == strip_open(v@.subrange(k as int, v.len() as int)),
        decreases v.len() - k,
    {
        assert(v@.subrange(k as int, v.len() as int).drop_first() =~= v@.subrange(
            k + 1,
            v.len() as int,
        ));
        k += 1;
    }
    let t = sub_chars(v, k, v.len());
    if t.len() > 0 && (t[0] == '"' || t[0] == '\'') {
        let rest = sub_chars(&t, 1, t.len());
        assert(rest@ =~= t@.drop_first());
        let q = vec![t[0]];
        assert(q@ =~= seq![t@[0]]);
        match find_chars(&rest, &q) {
            Some(e) => {
                let x = sub_chars(&rest, 0, e);
                assert(x@ =~= rest@.take(e as int));
                Some(x)
            },
            None => None,
        }
    } else {
        None
    }
}

/// The quoted text at the start of `s`, after any `(` and spaces.
pub fn extract_quoted(s: &str) -> (r: Option<String>)
    ensures
        match r {
            Some(x) => quoted(s@) == Some(x@),
            None => quoted(s@) is None,
        },
{
    let v = chars_of(s);
    match quoted_chars(&v) {
        Some(x) => Some(string_from_chars(&x)),
        None => None,
    }
}

fn after_marker_chars(line: &Vec<char>, marker: &Vec<char>) -> (r: Option<Vec<char>>)
    ensures
        match r {
            Some(x) => after_marker(line@, marker@) == Some(x@),
            None => after_marker(line@, marker@) is None,
        },
{
    match find_chars(line, marker) {
        Some(i) => {
            let rest = sub_chars(line, i + marker.len(), line.len());
            assert(rest@ =~= line@.skip(i + marker@.len()));
            match quoted_chars(&rest) {
                Some(q) => {
                    if q.len() > 0 && q[0] == '.' {
                        Some(q)
                    } else {
                        None
                    }
                },
                None => None,
            }
        },
        None => None,
    }
}

fn push_opt(acc: &mut Vec<String>, o: Option<Vec<char>>)
    ensures
        strs(final(acc)@) == strs(old(acc)@) + opt_seq(
            match o {
                Some(x) => Some(x@),
                None => None,
            },
        ),
{
    match o {
        Some(x) => {
            let s = string_from_chars(&x);
            acc.push(s);
            assert(strs(acc@) =~= strs(old(acc)@) + seq![x@]);
        },
        None => {
            assert(strs(acc@) =~= strs(old(acc)@) + seq![]);
        },
    }
}

fn line_specs(raw: &Vec<char>, acc: &mut Vec<String>)
    ensures
        strs(final(acc)@) == strs(old(acc)@) + line_imports(raw@),
{
    let line = trim_chars(raw);
    let from_m = chars_of("from ");
    let import_m = chars_of("import ");
    let require_m = chars_of("require(");
    let a = after_marker_chars(&line, &from_m);
    push_opt(acc, a);
    let b = after_marker_chars(&line, &import_m);
    push_opt(acc, b);
    let c = after_marker_chars(&line, &require_m);
    push_opt(acc, c);
    assert(strs(acc@) =~= strs(old(acc)@) + line_imports(raw@));
}

/// The relative import specifiers of `code`, in order of appearance.
pub fn parse_imports(code: &str) -> (r: Vec<String>)
    ensures
        strs(r@) == text_imports(code@),
{
    let v = chars_of(code);
    let mut acc: Vec<String> = Vec::new();
    let mut p: usize = 0;
    assert(v@.skip(0) =~= v@);
    assert(strs(acc@) =~= seq![]);
    loop
        invariant
            p <= v.len(),
            v@ == code@,
            text_imports(v@) == strs(acc@) + text_imports(v@.skip(p as int)),
        decreases v.len() - p,
    {
        let mut q = p;
        while q < v.len() && v[q] != '\n'
            invariant
                p <= q <= v.len(),
                forall|j: int| p <= j < q ==> v@[j] != '\n',
            decreases v.len() - q,
        {
            q += 1;
        }
        let ghost t = v@.skip(p as int);
        proof {
            lemma_index_of_is(t, '\n', (q - p) as int);
        }
        let line = sub_chars(&v, p, q);
        let ghost before = strs(acc@);
        line_specs(&line, &mut acc);
        if q == v.len() {
            assert(line@ =~= t);
            assert(strs(acc@) =~= before + text_imports(t));
            return acc;
        }
        assert(t.take((q - p) as int) =~= line@);
        assert(t.skip((q - p) as int + 1) =~= v@.skip(q + 1));
        assert(strs(acc@) + text_imports(v@.skip(q + 1)) =~= before + text_imports(t));
        p = q + 1;
    }
}

} // verus!
