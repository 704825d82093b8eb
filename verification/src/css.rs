//! Extraction of class tokens from selector-like lines in CSS text.
//!
//! The document is split into physical lines. A line is selector-like when,
//! after trimming surrounding whitespace, it ends with `{` or starts with
//! `.`. Each `.` on such a line yields the maximal run of alphanumeric, `-`
//! or `_` characters immediately after it as one class token; a `.` followed
//! by no such character yields nothing. Lines inside rule bodies that do not
//! match the heuristic are not scanned.

use vstd::prelude::*;

use crate::text::{
    check_class_char, chars_of, is_class_char, lemma_concat_contains, string_of,
    unicode_whitespace,
};

verus! {

/// Drops a final carriage return, as line splitting does for `\r\n` endings.
pub open spec fn strip_cr(s: Seq<char>) -> Seq<char> {
    if s.len() > 0 && s[s.len() - 1] == '\r' {
        s.drop_last()
    } else {
        s
    }
}

/// The physical lines of `cs` from position `i` on, with `cur` the line read
/// so far: split at `\n`, a preceding `\r` dropped, the terminator not
/// included, and no final empty line. This is how `str::lines` splits.
pub open spec fn lines_from(cs: Seq<char>, i: int, cur: Seq<char>) -> Seq<Seq<char>>
    decreases cs.len() - i,
{
    if i < 0 || i >= cs.len() {
        if cur.len() > 0 {
            seq![cur]
        } else {
            Seq::empty()
        }
    } else if cs[i] == '\n' {
        seq![strip_cr(cur)] + lines_from(cs, i + 1, Seq::empty())
    } else {
        lines_from(cs, i + 1, cur.push(cs[i]))
    }
}

/// The physical lines of a document.
pub open spec fn lines_spec(cs: Seq<char>) -> Seq<Seq<char>> {
    lines_from(cs, 0, Seq::empty())
}

/// `cs` with leading and trailing whitespace removed.
pub open spec fn trim_spec(s: Seq<char>) -> Seq<char>
    decreases s.len(),
{
    if s.len() == 0 {
        s
    } else if unicode_whitespace(s[0]) {
        trim_spec(s.drop_first())
    } else if unicode_whitespace(s[s.len() - 1]) {
        trim_spec(s.drop_last())
    } else {
        s
    }
}

/// Whether a trimmed line is scanned for class tokens: it ends with `{` or
/// starts with `.`.
pub open spec fn selector_like(t: Seq<char>) -> bool {
    (t.len() > 0 && t[t.len() - 1] == '{') || (t.len() > 0 && t[0] == '.')
}

/// The maximal run of class characters starting at position `i`.
pub open spec fn class_run(cs: Seq<char>, i: int) -> Seq<char>
    decreases cs.len() - i,
{
    if i < 0 || i >= cs.len() {
        Seq::empty()
    } else if is_class_char(cs[i]) {
        seq![cs[i]] + class_run(cs, i + 1)
    } else {
        Seq::empty()
    }
}

/// The class tokens of one line from position `i` on: each `.` yields the
/// run of class characters after it, when that run is non-empty.
pub open spec fn line_classes(cs: Seq<char>, i: int) -> Seq<Seq<char>>
    decreases cs.len() - i,
{
    if i < 0 || i >= cs.len() {
        Seq::empty()
    } else if cs[i] == '.' && class_run(cs, i + 1).len() > 0 {
        seq![class_run(cs, i + 1)] + line_classes(cs, i + 1)
    } else {
        line_classes(cs, i + 1)
    }
}

/// What one physical line contributes: its class tokens when its trimmed
/// form is selector-like, nothing otherwise.
pub open spec fn css_line_contrib(line: Seq<char>) -> Seq<Seq<char>> {
    if selector_like(trim_spec(line)) {
        line_classes(trim_spec(line), 0)
    } else {
        Seq::empty()
    }
}

/// The concatenated contributions of the lines `ls[i..]`.
pub open spec fn css_lines_from(ls: Seq<Seq<char>>, i: int) -> Seq<Seq<char>>
    decreases ls.len() - i,
{
    if i < 0 || i >= ls.len() {
        Seq::empty()
    } else {
        css_line_contrib(ls[i]) + css_lines_from(ls, i + 1)
    }
}

/// All class tokens of one CSS document, in order of appearance.
pub open spec fn css_classes_spec(cs: Seq<char>) -> Seq<Seq<char>> {
    css_lines_from(lines_spec(cs), 0)
}

/// The concatenated class tokens of the documents `files[i..]`.
pub open spec fn css_classes_from(files: Seq<Seq<char>>, i: int) -> Seq<Seq<char>>
    decreases files.len() - i,
{
    if i < 0 || i >= files.len() {
        Seq::empty()
    } else {
        css_classes_spec(files[i]) + css_classes_from(files, i + 1)
    }
}

/// The concatenated class tokens of all the documents, in order.
pub open spec fn css_classes_of_files(files: Seq<Seq<char>>) -> Seq<Seq<char>> {
    css_classes_from(files, 0)
}

fn split_lines(chars: &Vec<char>) -> (lines: Vec<Vec<char>>)
    ensures
        lines.deep_view() == lines_spec(chars@),
{
    let ghost cs = chars@;
    let mut lines: Vec<Vec<char>> = Vec::new();
    let mut cur: Vec<char> = Vec::new();
    let mut i: usize = 0;
    while i < chars.len()
        invariant
            chars@ == cs,
            i <= cs.len(),
            lines_spec(cs) == lines.deep_view() + lines_from(cs, i as int, cur@),
        decreases cs.len() - i,
    {
        let c = chars[i];
        if c == '\n' {
            let ghost l0 = lines.deep_view();
            let ghost cur0 = cur@;
            if cur.len() > 0 && cur[cur.len() - 1] == '\r' {
                cur.pop();
            }
            assert(cur@ =~= strip_cr(cur0));
            lines.push(cur);
            cur = Vec::new();
            assert(lines.deep_view() =~~= l0.push(strip_cr(cur0)));
            assert(l0.push(strip_cr(cur0)) + lines_from(cs, i as int + 1, Seq::empty()) =~= l0 + (
            seq![strip_cr(cur0)] + lines_from(cs, i as int + 1, Seq::empty())));
        } else {
            let ghost cur0 = cur@;
            cur.push(c);
            assert(cur@ =~= cur0.push(c));
        }
        i += 1;
    }
    if cur.len() > 0 {
        let ghost l0 = lines.deep_view();
        let ghost cur0 = cur@;
        lines.push(cur);
        assert(lines.deep_view() =~~= l0.push(cur0));
        assert(l0.push(cur0) =~= l0 + seq![cur0]);
    } else {
        assert(cur@ =~= Seq::<char>::empty());
        assert(lines.deep_view() =~= lines.deep_view() + Seq::<Seq<char>>::empty());
    }
    lines
}

fn is_ws_at(chars: &Vec<char>, i: usize) -> (r: bool)
    requires
        i < chars@.len(),
    ensures
        r == unicode_whitespace(chars@[i as int]),
{
    let c = chars[i];
    c.is_whitespace()
}

fn trim_chars(s: &Vec<char>) -> (r: Vec<char>)
    ensures
        r@ == trim_spec(s@),
{
    let ghost cs = s@;
    let n: usize = s.len();
    assert(cs.subrange(0, n as int) =~= cs);
    let mut lo: usize = 0;
    while lo < n && is_ws_at(s, lo)
        invariant
            s@ == cs,
            n == cs.len(),
            lo <= n,
            trim_spec(cs) == trim_spec(cs.subrange(lo as int, n as int)),
        decreases n - lo,
    {
        assert(cs.subrange(lo as int, n as int).drop_first() =~= cs.subrange(
            lo as int + 1,
            n as int,
        ));
        lo += 1;
    }
    let mut hi: usize = n;
    while hi > lo && is_ws_at(s, hi - 1)
        invariant
            s@ == cs,
            n == cs.len(),
            lo <= hi <= n,
            trim_spec(cs) == trim_spec(cs.subrange(lo as int, hi as int)),
            lo < n ==> !unicode_whitespace(cs[lo as int]),
        decreases hi,
    {
        assert(cs.subrange(lo as int, hi as int).drop_last() =~= cs.subrange(
            lo as int,
            hi as int - 1,
        ));
        hi -= 1;
    }
    let mut r: Vec<char> = Vec::new();
    let mut j: usize = lo;
    while j < hi
        invariant
            s@ == cs,
            lo <= j <= hi <= cs.len(),
            r@ == cs.subrange(lo as int, j as int),
        decreases hi - j,
    {
        r.push(s[j]);
        assert(r@ =~= cs.subrange(lo as int, j as int + 1));
        j += 1;
    }
    assert(r@ =~= cs.subrange(lo as int, hi as int));
    r
}

fn is_selector_like(t: &Vec<char>) -> (r: bool)
    ensures
        r == selector_like(t@),
{
    (t.len() > 0 && t[t.len() - 1] == '{') || (t.len() > 0 && t[0] == '.')
}

/// The maximal run of class characters in `chars` starting at `start`, as a
/// class token, or `None` when that run is empty: a `.` followed by no class
/// character contributes no token.
pub fn extract_class_name_from_pos(chars: &Vec<char>, start: usize) -> (r: Option<String>)
    ensures
        match r {
            Some(s) => s@ == class_run(chars@, start as int) && s@.len() > 0,
            None => class_run(chars@, start as int).len() == 0,
        },
        r is None <==> !(start < chars@.len() && is_class_char(chars@[start as int])),
{
    let ghost cs = chars@;
    let mut name: Vec<char> = Vec::new();
    let mut i: usize = start;
    if start >= chars.len() {
        return None;
    }
    while i < chars.len() && check_class_char(chars[i])
        invariant
            chars@ == cs,
            start <= i <= cs.len(),
            class_run(cs, start as int) == name@ + class_run(cs, i as int),
        decreases cs.len() - i,
    {
        let ghost n0 = name@;
        name.push(chars[i]);
        assert(name@ =~= n0.push(cs[i as int]));
        assert(n0.push(cs[i as int]) + class_run(cs, i as int + 1) =~= n0 + (seq![cs[i as int]]
            + class_run(cs, i as int + 1)));
        i += 1;
    }
    assert(name@ =~= name@ + Seq::<char>::empty());
    if name.len() > 0 {
        Some(string_of(&name))
    } else {
        None
    }
}

fn line_classes_of(t: &Vec<char>) -> (r: Vec<String>)
    ensures
        r.deep_view() == line_classes(t@, 0),
{
    let ghost cs = t@;
    let mut r: Vec<String> = Vec::new();
    let mut i: usize = 0;
    while i < t.len()
        invariant
            t@ == cs,
            i <= cs.len(),
            line_classes(cs, 0) == r.deep_view() + line_classes(cs, i as int),
        decreases cs.len() - i,
    {
        if t[i] == '.' {
            let found = extract_class_name_from_pos(t, i + 1);
            match found {
                Some(s) => {
                    let ghost r0 = r.deep_view();
                    r.push(s);
                    assert(r.deep_view() =~= r0.push(s@));
                    assert(r0.push(s@) + line_classes(cs, i as int + 1) =~= r0 + (seq![s@]
                        + line_classes(cs, i as int + 1)));
                },
                None => {},
            }
        }
        i += 1;
    }
    assert(r.deep_view() =~= r.deep_view() + Seq::<Seq<char>>::empty());
    r
}

/// The class tokens of one selector line: each `.` yields the run of class
/// characters after it, when that run is non-empty.
pub fn extract_all_classes_from_line(line: &str) -> (r: Vec<String>)
    ensures
        r.deep_view() == line_classes(line@, 0),
{
    let chars = chars_of(line);
    line_classes_of(&chars)
}

/// All class tokens found on selector-like lines of one CSS document, in
/// order of appearance.
pub fn extract_css_classes(content: &str) -> (classes: Vec<String>)
    ensures
        classes.deep_view() == css_classes_spec(content@),
{
    let chars = chars_of(content);
    let lines = split_lines(&chars);
    let ghost ls = lines.deep_view();
    let mut classes: Vec<String> = Vec::new();
    let mut i: usize = 0;
    while i < lines.len()
        invariant
            ls == lines.deep_view(),
            i <= ls.len(),
            css_lines_from(ls, 0) == classes.deep_view() + css_lines_from(ls, i as int),
        decreases ls.len() - i,
    {
        let ghost c0 = classes.deep_view();
        let trimmed = trim_chars(&lines[i]);
        assert(lines@[i as int]@ =~= ls[i as int]);
        assert(trimmed@ == trim_spec(ls[i as int]));
        if is_selector_like(&trimmed) {
            let mut part = line_classes_of(&trimmed);
            classes.append(&mut part);
            assert(classes.deep_view() =~= c0 + css_line_contrib(ls[i as int]));
        } else {
            assert(css_line_contrib(ls[i as int]) =~= Seq::<Seq<char>>::empty());
            assert(classes.deep_view() =~= c0 + css_line_contrib(ls[i as int]));
        }
        assert(c0 + (css_line_contrib(ls[i as int]) + css_lines_from(ls, i as int + 1)) =~= (c0
            + css_line_contrib(ls[i as int])) + css_lines_from(ls, i as int + 1));
        i += 1;
    }
    assert(classes.deep_view() =~= classes.deep_view() + Seq::<Seq<char>>::empty());
    classes
}

/// All class tokens of a collection of CSS documents, concatenated in order.
pub fn collect_css_classes(files: &Vec<String>) -> (classes: Vec<String>)
    ensures
        classes.deep_view() == css_classes_of_files(files.deep_view()),
{
    let ghost fs = files.deep_view();
    let mut classes: Vec<String> = Vec::new();
    let mut i: usize = 0;
    while i < files.len()
        invariant
            fs == files.deep_view(),
            i <= fs.len(),
            css_classes_of_files(fs) == classes.deep_view() + css_classes_from(fs, i as int),
        decreases fs.len() - i,
    {
        let ghost c0 = classes.deep_view();
        let mut part = extract_css_classes(files[i].as_str());
        assert(part.deep_view() == css_classes_spec(fs[i as int]));
        classes.append(&mut part);
        assert(classes.deep_view() =~= c0 + css_classes_spec(fs[i as int]));
        assert(c0 + (css_classes_spec(fs[i as int]) + css_classes_from(fs, i as int + 1)) =~= (c0
            + css_classes_spec(fs[i as int])) + css_classes_from(fs, i as int + 1));
        i += 1;
    }
    assert(classes.deep_view() =~= classes.deep_view() + Seq::<Seq<char>>::empty());
    classes
}


proof fn lemma_css_lines_from_contains(ls: Seq<Seq<char>>, i: int, k: int, t: Seq<char>)
    requires
        0 <= i <= k < ls.len(),
        css_line_contrib(ls[k]).contains(t),
    ensures
        css_lines_from(ls, i).contains(t),
    decreases k - i,
{
    if i < k {
        lemma_css_lines_from_contains(ls, i + 1, k, t);
    }
    lemma_concat_contains(css_line_contrib(ls[i]), css_lines_from(ls, i + 1), t);
}

/// Every class token of every line of a CSS document is among the document's
/// extracted class tokens, whatever the rest of the document holds.
pub proof fn lemma_css_line_tokens_extracted(cs: Seq<char>, k: int, t: Seq<char>)
    requires
        0 <= k < lines_spec(cs).len(),
        css_line_contrib(lines_spec(cs)[k]).contains(t),
    ensures
        css_classes_spec(cs).contains(t),
{
    lemma_css_lines_from_contains(lines_spec(cs), 0, k, t);
}

proof fn lemma_css_files_from_contains(files: Seq<Seq<char>>, i: int, k: int, t: Seq<char>)
    requires
        0 <= i <= k < files.len(),
        css_classes_spec(files[k]).contains(t),
    ensures
        css_classes_from(files, i).contains(t),
    decreases k - i,
{
    if i < k {
        lemma_css_files_from_contains(files, i + 1, k, t);
    }
    lemma_concat_contains(css_classes_spec(files[i]), css_classes_from(files, i + 1), t);
}

/// Every class token extracted from one stylesheet is among the tokens
/// collected over any set of stylesheets holding it, whatever the others say.
pub proof fn lemma_css_file_tokens_collected(files: Seq<Seq<char>>, k: int, t: Seq<char>)
    requires
        0 <= k < files.len(),
        css_classes_spec(files[k]).contains(t),
    ensures
        css_classes_of_files(files).contains(t),
{
    lemma_css_files_from_contains(files, 0, k, t);
}


/// Whether `block` stands contiguously inside `s` at offset `o`.
pub open spec fn block_at(s: Seq<Seq<char>>, block: Seq<Seq<char>>, o: int) -> bool {
    &&& 0 <= o
    &&& o + block.len() <= s.len()
    &&& s.subrange(o, o + block.len()) == block
}

proof fn lemma_css_lines_block(ls: Seq<Seq<char>>, i: int, k: int)
    requires
        0 <= i <= k < ls.len(),
    ensures
        exists|o: int| block_at(css_lines_from(ls, i), css_line_contrib(ls[k]), o),
    decreases k - i,
{
    let block = css_line_contrib(ls[k]);
    if i == k {
        assert((block + css_lines_from(ls, i + 1)).subrange(0, block.len() as int) =~= block);
        assert(block_at(css_lines_from(ls, i), block, 0));
    } else {
        lemma_css_lines_block(ls, i + 1, k);
        let o = choose|o: int| #[trigger] block_at(css_lines_from(ls, i + 1), block, o);
        let a = css_line_contrib(ls[i]);
        let rest = css_lines_from(ls, i + 1);
        assert((a + rest).subrange(a.len() + o, a.len() + o + block.len()) =~= rest.subrange(
            o,
            o + block.len(),
        ));
        assert(block_at(css_lines_from(ls, i), block, a.len() + o));
    }
}

/// A line that trims to `.foo, .bar {` contributes exactly the tokens `foo`
/// and `bar`, adjacent and in that order, to the document's extracted class
/// tokens, whatever the rest of the document holds. The class standing of
/// the characters involved is a hypothesis, since the library fixes it only
/// through `char::is_alphanumeric`.
pub proof fn lemma_selector_pair_line(cs: Seq<char>, k: int)
    requires
        0 <= k < lines_spec(cs).len(),
        trim_spec(lines_spec(cs)[k]) == ".foo, .bar {"@,
        is_class_char('f'),
        is_class_char('o'),
        is_class_char('b'),
        is_class_char('a'),
        is_class_char('r'),
        !is_class_char('.'),
        !is_class_char(','),
        !is_class_char(' '),
        !is_class_char('{'),
    ensures
        exists|o: int| block_at(css_classes_spec(cs), seq!["foo"@, "bar"@], o),
{
    let t = ".foo, .bar {"@;
    reveal_strlit(".foo, .bar {");
    reveal_strlit("foo");
    reveal_strlit("bar");
    assert(t.len() == 12);
    assert(selector_like(t));
    assert(class_run(t, 4) =~= Seq::<char>::empty());
    assert(class_run(t, 3) =~= seq!['o']);
    assert(class_run(t, 2) =~= seq!['o', 'o']);
    assert(class_run(t, 1) =~= "foo"@);
    assert(class_run(t, 10) =~= Seq::<char>::empty());
    assert(class_run(t, 9) =~= seq!['r']);
    assert(class_run(t, 8) =~= seq!['a', 'r']);
    assert(class_run(t, 7) =~= "bar"@);
    assert(line_classes(t, 12) =~= Seq::<Seq<char>>::empty());
    assert(line_classes(t, 11) =~= Seq::<Seq<char>>::empty());
    assert(line_classes(t, 10) =~= Seq::<Seq<char>>::empty());
    assert(line_classes(t, 9) =~= Seq::<Seq<char>>::empty());
    assert(line_classes(t, 8) =~= Seq::<Seq<char>>::empty());
    assert(line_classes(t, 7) =~= Seq::<Seq<char>>::empty());
    assert(line_classes(t, 6) =~= seq!["bar"@]);
    assert(line_classes(t, 5) =~= seq!["bar"@]);
    assert(line_classes(t, 4) =~= seq!["bar"@]);
    assert(line_classes(t, 3) =~= seq!["bar"@]);
    assert(line_classes(t, 2) =~= seq!["bar"@]);
    assert(line_classes(t, 1) =~= seq!["bar"@]);
    assert(line_classes(t, 0) =~= seq!["foo"@, "bar"@]);
    assert(css_line_contrib(lines_spec(cs)[k]) == seq!["foo"@, "bar"@]);
    let ls = lines_spec(cs);
    lemma_css_lines_block(ls, 0, k);
    let o = choose|o: int| #[trigger] block_at(css_lines_from(ls, 0), css_line_contrib(ls[k]), o);
    assert(block_at(css_classes_spec(cs), seq!["foo"@, "bar"@], o));
}

} // verus!
