//! Extraction of class tokens from `class="..."` attributes in HTML text.
//!
//! The scan is a single left-to-right pass with small explicit state: whether
//! the position lies inside a tag (between `<` and the next `>`), whether a
//! `class=` attribute has been seen in the current tag, and where the quoted
//! attribute value opened. After `class=`, the next quote character (`"` or
//! `'`) opens the value and the following quote character of either kind
//! closes it; the text between the quotes is split on whitespace into tokens.
//! Leaving the tag at `>` abandons an unclosed value without emitting tokens.

use vstd::prelude::*;

use crate::text::{check_class_char, chars_of, lemma_concat_contains, string_of, unicode_whitespace};

verus! {

/// The whitespace split of `cs` from position `i` on, with `cur` the token
/// read so far: maximal runs of non-whitespace characters, in order, with
/// empty runs dropped. This is how `str::split_whitespace` tokenizes.
pub open spec fn split_ws_from(cs: Seq<char>, i: int, cur: Seq<char>) -> Seq<Seq<char>>
    decreases cs.len() - i,
{
    if i < 0 || i >= cs.len() {
        if cur.len() > 0 {
            seq![cur]
        } else {
            Seq::empty()
        }
    } else if unicode_whitespace(cs[i]) {
        if cur.len() > 0 {
            seq![cur] + split_ws_from(cs, i + 1, Seq::empty())
        } else {
            split_ws_from(cs, i + 1, Seq::empty())
        }
    } else {
        split_ws_from(cs, i + 1, cur.push(cs[i]))
    }
}

/// The whitespace-separated tokens of `cs`, in order.
pub open spec fn split_whitespace(cs: Seq<char>) -> Seq<Seq<char>> {
    split_ws_from(cs, 0, Seq::empty())
}

/// Whether the six characters starting at `i` read `class=`, the whole
/// keyword lying within the text.
pub open spec fn class_kw_at(cs: Seq<char>, i: int) -> bool {
    &&& i + 5 < cs.len()
    &&& cs[i] == 'c'
    &&& cs[i + 1] == 'l'
    &&& cs[i + 2] == 'a'
    &&& cs[i + 3] == 's'
    &&& cs[i + 4] == 's'
    &&& cs[i + 5] == '='
}

/// The class tokens that the scan emits from position `i` on, given the
/// scan state: `in_tag` (between `<` and `>`), `in_attr` (a `class=` was seen
/// and its value has not closed), and `start`, the position one past the
/// opening quote, with `0` meaning that no quote has opened yet. Entering or
/// leaving a tag resets all attribute tracking, `start` included, so an
/// unclosed value is abandoned whole and later tags are scanned afresh.
pub open spec fn html_scan(cs: Seq<char>, i: int, in_tag: bool, in_attr: bool, start: int) -> Seq<
    Seq<char>,
>
    decreases cs.len() - i,
{
    if i < 0 || i >= cs.len() {
        Seq::empty()
    } else if cs[i] == '<' {
        html_scan(cs, i + 1, true, false, 0)
    } else if cs[i] == '>' {
        html_scan(cs, i + 1, false, false, 0)
    } else if in_tag && class_kw_at(cs, i) {
        html_scan(cs, i + 5, in_tag, true, start)
    } else if in_tag && in_attr && (cs[i] == '"' || cs[i] == '\'') {
        if start == 0 {
            html_scan(cs, i + 1, in_tag, in_attr, i + 1)
        } else {
            split_whitespace(cs.subrange(start, i)) + html_scan(cs, i + 1, in_tag, false, 0)
        }
    } else {
        html_scan(cs, i + 1, in_tag, in_attr, start)
    }
}

/// All class tokens of one HTML document, in order of appearance.
pub open spec fn html_classes_spec(cs: Seq<char>) -> Seq<Seq<char>> {
    html_scan(cs, 0, false, false, 0)
}

/// The concatenated class tokens of the documents `files[i..]`.
pub open spec fn html_classes_from(files: Seq<Seq<char>>, i: int) -> Seq<Seq<char>>
    decreases files.len() - i,
{
    if i < 0 || i >= files.len() {
        Seq::empty()
    } else {
        html_classes_spec(files[i]) + html_classes_from(files, i + 1)
    }
}

/// The concatenated class tokens of all the documents, in order.
pub open spec fn html_classes_of_files(files: Seq<Seq<char>>) -> Seq<Seq<char>> {
    html_classes_from(files, 0)
}

/// Splits an attribute value on whitespace into the class tokens it holds.
pub fn parse_class_list(class_content: &str) -> (r: Vec<String>)
    ensures
        r.deep_view() == split_whitespace(class_content@),
{
    let chars = chars_of(class_content);
    split_ws_vec(&chars)
}

fn split_ws_vec(chars: &Vec<char>) -> (r: Vec<String>)
    ensures
        r.deep_view() == split_whitespace(chars@),
{
    let ghost cs = chars@;
    let mut r: Vec<String> = Vec::new();
    let mut cur: Vec<char> = Vec::new();
    let mut i: usize = 0;
    while i < chars.len()
        invariant
            chars@ == cs,
            i <= cs.len(),
            split_whitespace(cs) == r.deep_view() + split_ws_from(cs, i as int, cur@),
        decreases cs.len() - i,
    {
        let c = chars[i];
        if c.is_whitespace() {
            if cur.len() > 0 {
                let ghost r0 = r.deep_view();
                let s = string_of(&cur);
                r.push(s);
                cur = Vec::new();
                assert(r.deep_view() =~= r0.push(s@));
                assert(r0.push(s@) + split_ws_from(cs, i as int + 1, Seq::empty()) =~= r0 + (seq![
                    s@,
                ] + split_ws_from(cs, i as int + 1, Seq::empty())));
            } else {
                assert(cur@ =~= Seq::<char>::empty());
            }
        } else {
            let ghost cur0 = cur@;
            cur.push(c);
            assert(cur@ =~= cur0.push(c));
        }
        i += 1;
    }
    if cur.len() > 0 {
        let ghost r0 = r.deep_view();
        let s = string_of(&cur);
        r.push(s);
        assert(r.deep_view() =~= r0.push(s@));
        assert(r0.push(s@) =~= r0 + seq![s@]);
    } else {
        assert(r.deep_view() =~= r.deep_view() + Seq::<Seq<char>>::empty());
    }
    r
}

fn class_kw_here(chars: &Vec<char>, i: usize) -> (r: bool)
    requires
        i < chars@.len(),
    ensures
        r == class_kw_at(chars@, i as int),
{
    chars.len() - i > 5 && chars[i] == 'c' && chars[i + 1] == 'l' && chars[i + 2] == 'a'
        && chars[i + 3] == 's' && chars[i + 4] == 's' && chars[i + 5] == '='
}

/// Copies `chars[from..to]` and splits it on whitespace into class tokens.
fn parse_range(chars: &Vec<char>, from: usize, to: usize) -> (r: Vec<String>)
    requires
        from <= to <= chars@.len(),
    ensures
        r.deep_view() == split_whitespace(chars@.subrange(from as int, to as int)),
{
    let mut part: Vec<char> = Vec::new();
    let mut j: usize = from;
    while j < to
        invariant
            from <= j <= to <= chars@.len(),
            part@ == chars@.subrange(from as int, j as int),
        decreases to - j,
    {
        part.push(chars[j]);
        assert(part@ =~= chars@.subrange(from as int, j as int + 1));
        j += 1;
    }
    split_ws_vec(&part)
}

/// All class tokens found in the `class` attributes of one HTML document,
/// in order of appearance.
pub fn extract_html_classes(content: &str) -> (classes: Vec<String>)
    ensures
        classes.deep_view() == html_classes_spec(content@),
{
    let chars = chars_of(content);
    let ghost cs = content@;
    let mut classes: Vec<String> = Vec::new();
    let mut i: usize = 0;
    let mut in_tag = false;
    let mut in_class_attr = false;
    let mut class_start: usize = 0;
    while i < chars.len()
        invariant
            chars@ == cs,
            i <= cs.len(),
            class_start <= i,
            html_classes_spec(cs) == classes.deep_view() + html_scan(
                cs,
                i as int,
                in_tag,
                in_class_attr,
                class_start as int,
            ),
        decreases cs.len() - i,
    {
        let c = chars[i];
        if c == '<' {
            in_tag = true;
            in_class_attr = false;
            class_start = 0;
            i += 1;
        } else if c == '>' {
            in_tag = false;
            in_class_attr = false;
            class_start = 0;
            i += 1;
        } else if in_tag && class_kw_here(&chars, i) {
            in_class_attr = true;
            i += 5;
        } else {
            if in_tag && in_class_attr && (c == '"' || c == '\'') {
                if class_start == 0 {
                    class_start = i + 1;
                } else {
                    let ghost c0 = classes.deep_view();
                    let ghost toks = split_whitespace(cs.subrange(class_start as int, i as int));
                    let mut part = parse_range(&chars, class_start, i);
                    classes.append(&mut part);
                    assert(classes.deep_view() =~= c0 + toks);
                    assert(c0 + (toks + html_scan(cs, i as int + 1, in_tag, false, 0)) =~= (c0
                        + toks) + html_scan(cs, i as int + 1, in_tag, false, 0));
                    class_start = 0;
                    in_class_attr = false;
                }
            }
            i += 1;
        }
    }
    assert(classes.deep_view() =~= classes.deep_view() + Seq::<Seq<char>>::empty());
    classes
}

/// All class tokens of a collection of HTML documents, concatenated in order.
pub fn collect_html_classes(files: &Vec<String>) -> (classes: Vec<String>)
    ensures
        classes.deep_view() == html_classes_of_files(files.deep_view()),
{
    let ghost fs = files.deep_view();
    let mut classes: Vec<String> = Vec::new();
    let mut i: usize = 0;
    while i < files.len()
        invariant
            fs == files.deep_view(),
            i <= fs.len(),
            html_classes_of_files(fs) == classes.deep_view() + html_classes_from(fs, i as int),
        decreases fs.len() - i,
    {
        let ghost c0 = classes.deep_view();
        let mut part = extract_html_classes(files[i].as_str());
        assert(part.deep_view() == html_classes_spec(fs[i as int]));
        classes.append(&mut part);
        assert(classes.deep_view() =~= c0 + html_classes_spec(fs[i as int]));
        assert(c0 + (html_classes_spec(fs[i as int]) + html_classes_from(fs, i as int + 1)) =~= (c0
            + html_classes_spec(fs[i as int])) + html_classes_from(fs, i as int + 1));
        i += 1;
    }
    assert(classes.deep_view() =~= classes.deep_view() + Seq::<Seq<char>>::empty());
    classes
}


proof fn lemma_html_files_from_contains(files: Seq<Seq<char>>, i: int, k: int, t: Seq<char>)
    requires
        0 <= i <= k < files.len(),
        html_classes_spec(files[k]).contains(t),
    ensures
        html_classes_from(files, i).contains(t),
    decreases k - i,
{
    if i < k {
        lemma_html_files_from_contains(files, i + 1, k, t);
    }
    lemma_concat_contains(html_classes_spec(files[i]), html_classes_from(files, i + 1), t);
}

/// Every class token extracted from one HTML document is among the tokens
/// collected over any set of documents holding it, whatever the others say.
pub proof fn lemma_html_file_tokens_collected(files: Seq<Seq<char>>, k: int, t: Seq<char>)
    requires
        0 <= k < files.len(),
        html_classes_spec(files[k]).contains(t),
    ensures
        html_classes_of_files(files).contains(t),
{
    lemma_html_files_from_contains(files, 0, k, t);
}


/// At a tag boundary the scan discards its attribute state whole: from a `<`
/// or a `>` on, the tokens emitted do not depend on anything seen before it,
/// so an unclosed attribute value is abandoned without corrupting later tags.
pub proof fn lemma_scan_reset_at_tag_boundary(
    cs: Seq<char>,
    j: int,
    a_tag: bool,
    a_attr: bool,
    a_start: int,
    b_tag: bool,
    b_attr: bool,
    b_start: int,
)
    requires
        0 <= j < cs.len(),
        cs[j] == '<' || cs[j] == '>',
    ensures
        html_scan(cs, j, a_tag, a_attr, a_start) == html_scan(cs, j, b_tag, b_attr, b_start),
{
}

} // verus!
