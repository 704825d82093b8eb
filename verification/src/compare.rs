//! Deduplication of extracted class tokens and the two-way set comparison.
//!
//! Each side of the check (classes used in HTML, classes defined in CSS) is
//! deduplicated into a set of class names, and the report consists of the two
//! set differences: classes used but never defined, and classes defined but
//! never used.

use vstd::prelude::*;

use crate::css::css_classes_of_files;
use crate::html::html_classes_of_files;

verus! {

/// The set of class names used by a collection of HTML documents.
pub open spec fn html_side(files: Seq<Seq<char>>) -> Set<Seq<char>> {
    html_classes_of_files(files).to_set()
}

/// The set of class names defined by a collection of CSS documents.
pub open spec fn css_side(files: Seq<Seq<char>>) -> Set<Seq<char>> {
    css_classes_of_files(files).to_set()
}

/// The classes used in the HTML documents but defined in none of the CSS
/// documents.
pub open spec fn html_only_spec(html_files: Seq<Seq<char>>, css_files: Seq<Seq<char>>) -> Set<
    Seq<char>,
> {
    html_side(html_files).difference(css_side(css_files))
}

/// The classes defined in the CSS documents but used in none of the HTML
/// documents.
pub open spec fn css_only_spec(html_files: Seq<Seq<char>>, css_files: Seq<Seq<char>>) -> Set<
    Seq<char>,
> {
    css_side(css_files).difference(html_side(html_files))
}

fn vec_contains(v: &Vec<String>, s: &String) -> (r: bool)
    ensures
        r == v.deep_view().contains(s@),
{
    let mut i: usize = 0;
    while i < v.len()
        invariant
            i <= v@.len(),
            forall|k: int| 0 <= k < i ==> v.deep_view()[k] != s@,
        decreases v@.len() - i,
    {
        if v[i] == *s {
            assert(v.deep_view()[i as int] == s@);
            return true;
        }
        i += 1;
    }
    assert(!v.deep_view().contains(s@));
    false
}

/// Deduplicates a sequence of class names into a list without repetitions
/// holding the same set of names.
pub fn class_set(classes: &Vec<String>) -> (r: Vec<String>)
    ensures
        r.deep_view().to_set() == classes.deep_view().to_set(),
        r.deep_view().no_duplicates(),
{
    let ghost cl = classes.deep_view();
    let mut r: Vec<String> = Vec::new();
    let mut i: usize = 0;
    while i < classes.len()
        invariant
            cl == classes.deep_view(),
            i <= cl.len(),
            r.deep_view().no_duplicates(),
            forall|x: Seq<char>|
                #[trigger] r.deep_view().contains(x) <==> cl.subrange(0, i as int).contains(x),
        decreases cl.len() - i,
    {
        let s = classes[i].clone();
        assert(s@ == cl[i as int]);
        let ghost r0 = r.deep_view();
        if !vec_contains(&r, &s) {
            r.push(s);
            assert(r.deep_view() =~= r0.push(cl[i as int]));
        }
        assert forall|x: Seq<char>| #[trigger]
            r.deep_view().contains(x) <==> cl.subrange(0, i as int + 1).contains(x) by {
            broadcast use vstd::seq_lib::lemma_seq_contains_after_push;

            let pre = cl.subrange(0, i as int);
            let post = cl.subrange(0, i as int + 1);
            assert(post =~= pre.push(cl[i as int]));
            if post.contains(x) {
                let k = choose|k: int| 0 <= k < post.len() && post[k] == x;
                if k < pre.len() {
                    assert(pre.contains(x));
                } else {
                    assert(x == cl[i as int]);
                }
                assert(r.deep_view().contains(x));
            }
            if r.deep_view().contains(x) {
                let k = choose|k: int| 0 <= k < r.deep_view().len() && r.deep_view()[k] == x;
                if k < r0.len() {
                    assert(r0[k] == x);
                    assert(r0.contains(x));
                    assert(pre.contains(x));
                    let j = choose|j: int| 0 <= j < pre.len() && pre[j] == x;
                    assert(post[j] == x);
                } else {
                    assert(x == cl[i as int]);
                    assert(post[i as int] == x);
                }
                assert(post.contains(x));
            }
        }
        i += 1;
    }
    assert(cl.subrange(0, cl.len() as int) =~= cl);
    assert(r.deep_view().to_set() =~= cl.to_set());
    r
}

/// Keeps the entries of `a` whose name occurs nowhere in `b`, preserving
/// order; a list without repetitions stays without repetitions.
pub fn class_difference(a: &Vec<String>, b: &Vec<String>) -> (r: Vec<String>)
    ensures
        forall|x: Seq<char>|
            #[trigger] r.deep_view().contains(x) <==> (a.deep_view().contains(x)
                && !b.deep_view().contains(x)),
        a.deep_view().no_duplicates() ==> r.deep_view().no_duplicates(),
{
    let ghost av = a.deep_view();
    let ghost bv = b.deep_view();
    let mut r: Vec<String> = Vec::new();
    let mut i: usize = 0;
    while i < a.len()
        invariant
            av == a.deep_view(),
            bv == b.deep_view(),
            i <= av.len(),
            av.no_duplicates() ==> r.deep_view().no_duplicates(),
            forall|x: Seq<char>|
                #[trigger] r.deep_view().contains(x) <==> (av.subrange(0, i as int).contains(x)
                    && !bv.contains(x)),
        decreases av.len() - i,
    {
        let s = a[i].clone();
        assert(s@ == av[i as int]);
        let ghost r0 = r.deep_view();
        if !vec_contains(b, &s) {
            proof {
                if av.no_duplicates() {
                    if r0.contains(av[i as int]) {
                        assert(av.subrange(0, i as int).contains(av[i as int]));
                        let k = choose|k: int|
                            0 <= k < i && av.subrange(0, i as int)[k] == av[i as int];
                        assert(av[k] == av[i as int]);
                        assert(false);
                    }
                }
            }
            r.push(s);
            assert(r.deep_view() =~= r0.push(av[i as int]));
        }
        assert forall|x: Seq<char>| #[trigger]
            r.deep_view().contains(x) <==> (av.subrange(0, i as int + 1).contains(x)
                && !bv.contains(x)) by {
            broadcast use vstd::seq_lib::lemma_seq_contains_after_push;

            let pre = av.subrange(0, i as int);
            let post = av.subrange(0, i as int + 1);
            assert(post =~= pre.push(av[i as int]));
            if post.contains(x) && !bv.contains(x) {
                let k = choose|k: int| 0 <= k < post.len() && post[k] == x;
                if k < pre.len() {
                    assert(pre.contains(x));
                } else {
                    assert(x == av[i as int]);
                }
                assert(r.deep_view().contains(x));
            }
            if r.deep_view().contains(x) {
                let k = choose|k: int| 0 <= k < r.deep_view().len() && r.deep_view()[k] == x;
                if k < r0.len() {
                    assert(r0[k] == x);
                    assert(r0.contains(x));
                    assert(pre.contains(x));
                    let j = choose|j: int| 0 <= j < pre.len() && pre[j] == x;
                    assert(post[j] == x);
                } else {
                    assert(x == av[i as int]);
                    assert(post[i as int] == x);
                }
                assert(post.contains(x) && !bv.contains(x));
            }
        }
        i += 1;
    }
    assert(av.subrange(0, av.len() as int) =~= av);
    r
}

/// Builds the two difference lists from the raw extracted tokens: classes
/// used in HTML but not defined in CSS, and classes defined in CSS but not
/// used in HTML. Each list holds each name once.
pub fn compare_classes(html_classes: &Vec<String>, css_classes: &Vec<String>) -> (r: (
    Vec<String>,
    Vec<String>,
))
    ensures
        r.0.deep_view().to_set() == html_classes.deep_view().to_set().difference(
            css_classes.deep_view().to_set(),
        ),
        r.1.deep_view().to_set() == css_classes.deep_view().to_set().difference(
            html_classes.deep_view().to_set(),
        ),
        r.0.deep_view().no_duplicates(),
        r.1.deep_view().no_duplicates(),
{
    let html_set = class_set(html_classes);
    let css_set = class_set(css_classes);
    let html_only = class_difference(&html_set, &css_set);
    let css_only = class_difference(&css_set, &html_set);
    assert(html_only.deep_view().to_set() =~= html_classes.deep_view().to_set().difference(
        css_classes.deep_view().to_set(),
    ));
    assert(css_only.deep_view().to_set() =~= css_classes.deep_view().to_set().difference(
        html_classes.deep_view().to_set(),
    ));
    (html_only, css_only)
}

/// The whole check on in-memory documents: extracts the class tokens of both
/// sides and reports the two set differences.
pub fn check_classes(html_files: &Vec<String>, css_files: &Vec<String>) -> (r: (
    Vec<String>,
    Vec<String>,
))
    ensures
        r.0.deep_view().to_set() == html_only_spec(html_files.deep_view(), css_files.deep_view()),
        r.1.deep_view().to_set() == css_only_spec(html_files.deep_view(), css_files.deep_view()),
        r.0.deep_view().no_duplicates(),
        r.1.deep_view().no_duplicates(),
{
    let html_classes = crate::html::collect_html_classes(html_files);
    let css_classes = crate::css::collect_css_classes(css_files);
    compare_classes(&html_classes, &css_classes)
}

/// Scanning unchanged documents twice reports identical sets: the report is
/// a function of the file contents alone.
pub proof fn lemma_report_deterministic(
    html_a: Seq<Seq<char>>,
    css_a: Seq<Seq<char>>,
    html_b: Seq<Seq<char>>,
    css_b: Seq<Seq<char>>,
)
    requires
        html_a == html_b,
        css_a == css_b,
    ensures
        html_only_spec(html_a, css_a) == html_only_spec(html_b, css_b),
        css_only_spec(html_a, css_a) == css_only_spec(html_b, css_b),
{
}

/// A side with no documents uses no classes, so nothing is reported as used
/// but undefined, and every class defined on the other side is reported as
/// unused.
pub proof fn lemma_empty_html_side(html_files: Seq<Seq<char>>, css_files: Seq<Seq<char>>)
    requires
        html_files.len() == 0,
    ensures
        html_side(html_files) == Set::<Seq<char>>::empty(),
        html_only_spec(html_files, css_files) == Set::<Seq<char>>::empty(),
        css_only_spec(html_files, css_files) == css_side(css_files),
{
    assert(html_classes_of_files(html_files) =~= Seq::<Seq<char>>::empty());
    assert(html_side(html_files) =~= Set::<Seq<char>>::empty());
    assert(html_only_spec(html_files, css_files) =~= Set::<Seq<char>>::empty());
    assert(css_only_spec(html_files, css_files) =~= css_side(css_files));
}

/// A side with no stylesheets defines no classes, so nothing is reported as
/// defined but unused, and every class used on the other side is reported as
/// undefined.
pub proof fn lemma_empty_css_side(html_files: Seq<Seq<char>>, css_files: Seq<Seq<char>>)
    requires
        css_files.len() == 0,
    ensures
        css_side(css_files) == Set::<Seq<char>>::empty(),
        css_only_spec(html_files, css_files) == Set::<Seq<char>>::empty(),
        html_only_spec(html_files, css_files) == html_side(html_files),
{
    assert(css_classes_of_files(css_files) =~= Seq::<Seq<char>>::empty());
    assert(css_side(css_files) =~= Set::<Seq<char>>::empty());
    assert(css_only_spec(html_files, css_files) =~= Set::<Seq<char>>::empty());
    assert(html_only_spec(html_files, css_files) =~= html_side(html_files));
}

} // verus!
