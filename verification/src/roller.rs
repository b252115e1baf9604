//! The roller: locating a section by a path of headline titles, deciding
//! whether it is ready to be released, stamping it with a version,
//! inserting numbered items, and diffing its visible content.
//!
//! Each operation is a function over the outline of a text, with an exact
//! contract, and a function over the text that reads its outline with
//! orgize first and answers as the outline function does on that outline
//! (`reads_outline`).  Rolled and inserted texts are the source text with
//! one byte range replaced; the new text is not parsed again, since nothing
//! reads its tree.

use vstd::prelude::*;

use crate::outline::{
    all_fit, content_end, last_content_end, lemma_all_fit_each, outline_of, reads_outline,
    tree_fits, Heading, Item, ListNode, Outline, Part, SectionNode,
};
use crate::text::{
    bullet_number, bullet_number_spec, decimal, decimal_string, is_char_range, splice, splice_spec,
    str_trim, str_trim_end, trim_end_spec, trim_spec, utf8,
};
use vstd::utf8::is_char_boundary;

verus! {

/// The error the roller reports.
#[derive(Debug)]
pub enum RollError {
    /// No headline matched the path segment `heading`.
    HeadingNotFound { heading: String },
}

/// The missing heading that an error names.
pub open spec fn error_view(e: RollError) -> Seq<char> {
    match e {
        RollError::HeadingNotFound { heading } => heading@,
    }
}

/// A path of headline titles, as character sequences.
pub open spec fn path_view(path: Seq<String>) -> Seq<Seq<char>> {
    path.map_values(|s: String| s@)
}

/// Whether the trimmed title of `h` is `target`.
pub open spec fn title_matches(h: Heading, target: Seq<char>) -> bool {
    trim_spec(h.title@) == target
}

/// The first headline of `h`'s subtree, in document order and `h` itself
/// included, whose trimmed title is `target`.
pub open spec fn search_heading(h: Heading, target: Seq<char>) -> Option<Heading>
    decreases h,
{
    if title_matches(h, target) {
        Some(h)
    } else {
        search_headings(h.subs@, target)
    }
}

/// The first headline of the subtrees of `hs`, in document order, whose
/// trimmed title is `target`.
pub open spec fn search_headings(hs: Seq<Heading>, target: Seq<char>) -> Option<Heading>
    decreases hs,
{
    if hs.len() == 0 {
        None
    } else {
        match search_heading(hs[0], target) {
            Some(x) => Some(x),
            None => search_headings(hs.drop_first(), target),
        }
    }
}

/// The first of `hs` whose trimmed title is `target`.
pub open spec fn child_titled(hs: Seq<Heading>, target: Seq<char>) -> Option<Heading>
    decreases hs.len(),
{
    if hs.len() == 0 {
        None
    } else if title_matches(hs[0], target) {
        Some(hs[0])
    } else {
        child_titled(hs.drop_first(), target)
    }
}

/// Walks down from `cur` through direct children titled by the segments of
/// `rest`; fails with the first segment that no child matches.
pub open spec fn drill(cur: Heading, rest: Seq<Seq<char>>) -> Result<Heading, Seq<char>>
    decreases rest.len(),
{
    if rest.len() == 0 {
        Ok(cur)
    } else {
        match child_titled(cur.subs@, rest[0]) {
            Some(c) => drill(c, rest.drop_first()),
            None => Err(rest[0]),
        }
    }
}

/// The section that `path` names: its first segment is searched anywhere in
/// the document, the rest drill into direct children.  An empty path names
/// nothing and fails with an empty heading.
pub open spec fn find_section_spec(o: Outline, path: Seq<Seq<char>>) -> Result<Heading, Seq<char>> {
    if path.len() == 0 {
        Err(Seq::empty())
    } else {
        match search_headings(o.headings@, path[0]) {
            Some(root) => drill(root, path.drop_first()),
            None => Err(path[0]),
        }
    }
}

/// Whether two strings hold the same characters.
pub fn str_eq(a: &str, b: &str) -> (r: bool)
    ensures
        r == (a@ == b@),
{
    a.to_owned() == b.to_owned()
}

fn titled(h: &Heading, target: &str) -> (b: bool)
    ensures
        b == title_matches(*h, target@),
{
    str_eq(str_trim(h.title.as_str()), target)
}

proof fn lemma_skip_step<A>(s: Seq<A>, i: int)
    requires
        0 <= i < s.len(),
    ensures
        s.skip(i).len() > 0,
        s.skip(i)[0] == s[i],
        s.skip(i).drop_first() =~= s.skip(i + 1),
{
}

fn search<'a>(h: &'a Heading, target: &str) -> (r: Option<&'a Heading>)
    ensures
        search_heading(*h, target@) == match r {
            Some(x) => Some(*x),
            None => None::<Heading>,
        },
    decreases h,
{
    if titled(h, target) {
        return Some(h);
    }
    search_all(&h.subs, target)
}

fn search_all<'a>(hs: &'a Vec<Heading>, target: &str) -> (r: Option<&'a Heading>)
    ensures
        search_headings(hs@, target@) == match r {
            Some(x) => Some(*x),
            None => None::<Heading>,
        },
    decreases hs,
{
    let mut i: usize = 0;
    proof {
        assert(hs@.skip(0) =~= hs@);
    }
    while i < hs.len()
        invariant
            i <= hs.len(),
            search_headings(hs@, target@) == search_headings(hs@.skip(i as int), target@),
        decreases hs.len() - i,
    {
        proof {
            lemma_skip_step(hs@, i as int);
        }
        match search(&hs[i], target) {
            Some(x) => {
                return Some(x);
            },
            None => {},
        }
        i = i + 1;
    }
    proof {
        assert(hs@.skip(i as int).len() == 0);
    }
    None
}

fn child_named<'a>(hs: &'a Vec<Heading>, target: &str) -> (r: Option<&'a Heading>)
    ensures
        child_titled(hs@, target@) == match r {
            Some(x) => Some(*x),
            None => None::<Heading>,
        },
{
    let mut i: usize = 0;
    proof {
        assert(hs@.skip(0) =~= hs@);
    }
    while i < hs.len()
        invariant
            i <= hs.len(),
            child_titled(hs@, target@) == child_titled(hs@.skip(i as int), target@),
        decreases hs.len() - i,
    {
        proof {
            lemma_skip_step(hs@, i as int);
        }
        if titled(&hs[i], target) {
            return Some(&hs[i]);
        }
        i = i + 1;
    }
    None
}

/// Locates the section that `path` names (see `find_section_spec`).
pub fn find_section_at_path<'a>(o: &'a Outline, path: &[String]) -> (r: Result<&'a Heading, RollError>)
    ensures
        match (r, find_section_spec(*o, path_view(path@))) {
            (Ok(x), Ok(y)) => *x == y,
            (Err(e), Err(s)) => error_view(e) == s,
            _ => false,
        },
{
    let ghost pv = path_view(path@);
    if path.len() == 0 {
        let heading = String::new();
        return Err(RollError::HeadingNotFound { heading });
    }
    let root = match search_all(&o.headings, path[0].as_str()) {
        Some(root) => root,
        None => {
            return Err(RollError::HeadingNotFound { heading: path[0].clone() });
        },
    };
    let mut cur = root;
    let mut i: usize = 1;
    proof {
        assert(pv.drop_first() =~= pv.skip(1));
        assert(pv[0] == path@[0]@);
    }
    while i < path.len()
        invariant
            1 <= i <= path.len(),
            pv == path_view(path@),
            pv.len() == path@.len(),
            pv.drop_first() == pv.skip(1),
            find_section_spec(*o, pv) == drill(*root, pv.skip(1)),
            drill(*root, pv.skip(1)) == drill(*cur, pv.skip(i as int)),
        decreases path.len() - i,
    {
        proof {
            lemma_skip_step(pv, i as int);
        }
        match child_named(&cur.subs, path[i].as_str()) {
            Some(c) => {
                cur = c;
            },
            None => {
                assert(pv[i as int] == path@[i as int]@);
                return Err(RollError::HeadingNotFound { heading: path[i].clone() });
            },
        }
        i = i + 1;
    }
    proof {
        assert(pv.skip(i as int).len() == 0);
    }
    Ok(cur)
}

proof fn lemma_search_fits(h: Heading, target: Seq<char>, t: Seq<char>)
    requires
        tree_fits(h, t),
    ensures
        search_heading(h, target) matches Some(x) ==> tree_fits(x, t),
    decreases h,
{
    if !title_matches(h, target) {
        lemma_all_fit_each(h.subs@, t);
        lemma_search_all_fits(h.subs@, target, t);
    }
}

proof fn lemma_search_all_fits(hs: Seq<Heading>, target: Seq<char>, t: Seq<char>)
    requires
        forall|i: int| 0 <= i < hs.len() ==> tree_fits(#[trigger] hs[i], t),
    ensures
        search_headings(hs, target) matches Some(x) ==> tree_fits(x, t),
    decreases hs,
{
    if hs.len() > 0 {
        lemma_search_fits(hs[0], target, t);
        assert forall|i: int| 0 <= i < hs.drop_first().len() implies tree_fits(
            #[trigger] hs.drop_first()[i],
            t,
        ) by {
            assert(hs.drop_first()[i] == hs[i + 1]);
        }
        lemma_search_all_fits(hs.drop_first(), target, t);
    }
}

pub proof fn lemma_child_fits(hs: Seq<Heading>, target: Seq<char>, t: Seq<char>)
    requires
        forall|i: int| 0 <= i < hs.len() ==> tree_fits(#[trigger] hs[i], t),
    ensures
        child_titled(hs, target) matches Some(x) ==> tree_fits(x, t),
    decreases hs.len(),
{
    if hs.len() > 0 && !title_matches(hs[0], target) {
        assert forall|i: int| 0 <= i < hs.drop_first().len() implies tree_fits(
            #[trigger] hs.drop_first()[i],
            t,
        ) by {
            assert(hs.drop_first()[i] == hs[i + 1]);
        }
        lemma_child_fits(hs.drop_first(), target, t);
    }
}

/// The child that `child_titled` finds is one of the headlines.
pub proof fn lemma_child_titled_member(hs: Seq<Heading>, target: Seq<char>)
    ensures
        child_titled(hs, target) matches Some(c) ==> exists|i: int|
            0 <= i < hs.len() && #[trigger] hs[i] == c,
    decreases hs.len(),
{
    if hs.len() > 0 {
        if title_matches(hs[0], target) {
            assert(hs[0] == hs[0]);
        } else {
            lemma_child_titled_member(hs.drop_first(), target);
            match child_titled(hs, target) {
                Some(c) => {
                    let i = choose|i: int|
                        0 <= i < hs.drop_first().len() && #[trigger] hs.drop_first()[i] == c;
                    assert(hs[i + 1] == c);
                },
                None => {},
            }
        }
    }
}

proof fn lemma_drill_fits(cur: Heading, rest: Seq<Seq<char>>, t: Seq<char>)
    requires
        tree_fits(cur, t),
    ensures
        drill(cur, rest) matches Ok(x) ==> tree_fits(x, t),
    decreases rest.len(),
{
    if rest.len() > 0 {
        lemma_all_fit_each(cur.subs@, t);
        lemma_child_fits(cur.subs@, rest[0], t);
        match child_titled(cur.subs@, rest[0]) {
            Some(c) => lemma_drill_fits(c, rest.drop_first(), t),
            None => {},
        }
    }
}

/// Every headline of an outline fits the text, so the section that a path
/// names does too.
pub proof fn lemma_found_section_fits(o: Outline, path: Seq<Seq<char>>, t: Seq<char>)
    requires
        all_fit(o.headings@, t),
    ensures
        find_section_spec(o, path) matches Ok(s) ==> tree_fits(s, t),
{
    if path.len() > 0 {
        lemma_all_fit_each(o.headings@, t);
        lemma_search_all_fits(o.headings@, path[0], t);
        match search_headings(o.headings@, path[0]) {
            Some(root) => lemma_drill_fits(root, path.drop_first(), t),
            None => {},
        }
    }
}

/// A result of the roller, its error taken as the missing heading.
pub open spec fn result_view<T>(r: Result<T, RollError>) -> Result<T, Seq<char>> {
    match r {
        Ok(v) => Ok(v),
        Err(e) => Err(error_view(e)),
    }
}

// ---------------------------------------------------------------------------
// Readiness
// ---------------------------------------------------------------------------

/// Whether the headline `h` has content: a section of its own, or a
/// sub-headline with content.
pub open spec fn has_content(h: Heading) -> bool
    decreases h,
{
    h.section is Some || any_content(h.subs@)
}

/// Whether some headline among `hs` has content.
pub open spec fn any_content(hs: Seq<Heading>) -> bool
    decreases hs,
{
    hs.len() > 0 && (any_content(hs.drop_last()) || has_content(hs.last()))
}

/// Whether the section that `path` names is ready to be released: some
/// direct child headline of it has content.
pub open spec fn ready_spec(o: Outline, path: Seq<Seq<char>>) -> Result<bool, Seq<char>> {
    match find_section_spec(o, path) {
        Ok(h) => Ok(any_content(h.subs@)),
        Err(e) => Err(e),
    }
}

fn has_content_exec(h: &Heading) -> (b: bool)
    ensures
        b == has_content(*h),
    decreases h,
{
    if h.section.is_some() {
        return true;
    }
    any_content_exec(&h.subs)
}

fn any_content_exec(hs: &Vec<Heading>) -> (b: bool)
    ensures
        b == any_content(hs@),
    decreases hs,
{
    let mut found = false;
    let mut i: usize = 0;
    assert(hs@.take(0).len() == 0);
    while i < hs.len()
        invariant
            i <= hs.len(),
            found == any_content(hs@.take(i as int)),
        decreases hs.len() - i,
    {
        proof {
            assert(hs@.take(i + 1).drop_last() =~= hs@.take(i as int));
            assert(hs@.take(i + 1).last() == hs@[i as int]);
        }
        let c = has_content_exec(&hs[i]);
        found = found || c;
        i = i + 1;
    }
    assert(hs@.take(i as int) =~= hs@);
    found
}

/// Whether the section that `path` names in `o` has a direct child headline
/// with content.
pub fn ready_in_outline(o: &Outline, path: &[String]) -> (r: Result<bool, RollError>)
    ensures
        result_view(r) == ready_spec(*o, path_view(path@)),
{
    let section = match find_section_at_path(o, path) {
        Ok(h) => h,
        Err(e) => {
            return Err(e);
        },
    };
    Ok(any_content_exec(&section.subs))
}

/// The readiness answer for the text `t`: what `ready_spec` gives on its
/// outline.
pub open spec fn ready_on_text(t: Seq<char>, path: Seq<Seq<char>>, r: Result<bool, Seq<char>>) -> bool {
    exists|o: Outline| #[trigger] reads_outline(o, t) && ready_spec(o, path) == r
}

/// Returns `true` if the section at `path` has at least one direct child
/// heading with content, `false` if every child heading is empty, and
/// `HeadingNotFound` naming the first segment of `path` that does not
/// resolve.  The text is parsed with orgize; the answer is the one that
/// `ready_in_outline` gives on that parse.
pub fn is_ready_to_roll(org_text: &str, path: &[String]) -> (r: Result<bool, RollError>)
    ensures
        ready_on_text(org_text@, path_view(path@), result_view(r)),
{
    let o = outline_of(org_text);
    let r = ready_in_outline(&o, path);
    assert(reads_outline(o, org_text@) && ready_spec(o, path_view(path@)) == result_view(r));
    r
}

// ---------------------------------------------------------------------------
// Visible content
// ---------------------------------------------------------------------------

/// The tag that hides a subtree.
pub open spec fn noexport() -> Seq<char> {
    seq!['n', 'o', 'e', 'x', 'p', 'o', 'r', 't']
}

/// Whether a sub-headline's content counts as visible: it is neither
/// commented out nor tagged `noexport`.
pub open spec fn is_shown(h: Heading) -> bool {
    &&& !h.commented
    &&& !(exists|i: int| 0 <= i < h.tags@.len() && (#[trigger] h.tags@[i])@ == noexport())
}

/// The character sequences of a sequence of strings.
pub open spec fn strs(v: Seq<String>) -> Seq<Seq<char>> {
    v.map_values(|s: String| s@)
}

/// The entry a piece of text makes: the text itself, unless it is empty.
pub open spec fn entry(e: Seq<char>) -> Seq<Seq<char>> {
    if e.len() > 0 {
        seq![e]
    } else {
        seq![]
    }
}

/// The items of a list, each without trailing white space, empty ones left
/// out.
pub open spec fn item_entries(items: Seq<Item>) -> Seq<Seq<char>>
    decreases items.len(),
{
    if items.len() == 0 {
        seq![]
    } else {
        item_entries(items.drop_last()) + entry(trim_end_spec(items.last().raw@))
    }
}

/// The entries of a child of a section: the items of a list, the text of a
/// paragraph, nothing for anything else.
pub open spec fn part_entries(p: Part) -> Seq<Seq<char>> {
    match p {
        Part::List(l) => item_entries(l.items@),
        Part::Paragraph(text) => entry(trim_end_spec(text@)),
        Part::Other => seq![],
    }
}

/// The entries of the children of a section, in document order.
pub open spec fn parts_entries(ps: Seq<Part>) -> Seq<Seq<char>>
    decreases ps.len(),
{
    if ps.len() == 0 {
        seq![]
    } else {
        parts_entries(ps.drop_last()) + part_entries(ps.last())
    }
}

/// The list items and paragraphs of a section, in document order.
pub open spec fn section_entries(s: Option<SectionNode>) -> Seq<Seq<char>> {
    match s {
        Some(sec) => parts_entries(sec.parts@),
        None => seq![],
    }
}

/// The visible content beneath `h`: its own section's list items and
/// paragraphs, then the visible content of each shown sub-headline.
pub open spec fn visible(h: Heading) -> Seq<Seq<char>>
    decreases h,
{
    section_entries(h.section) + visible_subs(h.subs@)
}

/// The visible content of the shown headlines among `hs`, in order.
pub open spec fn visible_subs(hs: Seq<Heading>) -> Seq<Seq<char>>
    decreases hs,
{
    if hs.len() == 0 {
        seq![]
    } else {
        visible_subs(hs.drop_last()) + if is_shown(hs.last()) {
            visible(hs.last())
        } else {
            seq![]
        }
    }
}

/// The visible content of the section that `path` names, or nothing when
/// some segment of `path` does not resolve.
pub open spec fn section_visible(o: Outline, path: Seq<Seq<char>>) -> Seq<Seq<char>> {
    match find_section_spec(o, path) {
        Ok(h) => visible(h),
        Err(_) => seq![],
    }
}

/// Whether `head` holds a visible entry under `path` that `base` does not
/// hold there.
pub open spec fn additions_spec(base: Outline, head: Outline, path: Seq<Seq<char>>) -> bool {
    let b = section_visible(base, path);
    let h = section_visible(head, path);
    exists|i: int| 0 <= i < h.len() && !b.contains(#[trigger] h[i])
}

fn push_entry(out: &mut Vec<String>, s: &String)
    ensures
        strs(final(out)@) == strs(old(out)@) + entry(trim_end_spec(s@)),
{
    let t = str_trim_end(s.as_str());
    if !t.is_empty() {
        out.push(t.to_owned());
    }
    assert(strs(out@) =~= strs(old(out)@) + entry(trim_end_spec(s@)));
}

fn collect_items(items: &Vec<Item>, out: &mut Vec<String>)
    ensures
        strs(final(out)@) == strs(old(out)@) + item_entries(items@),
{
    let mut j: usize = 0;
    assert(strs(out@) =~= strs(old(out)@) + item_entries(items@.take(0)));
    while j < items.len()
        invariant
            j <= items.len(),
            strs(out@) == strs(old(out)@) + item_entries(items@.take(j as int)),
        decreases items.len() - j,
    {
        proof {
            assert(items@.take(j + 1).drop_last() =~= items@.take(j as int));
            assert(items@.take(j + 1).last() == items@[j as int]);
        }
        push_entry(out, &items[j].raw);
        j = j + 1;
    }
    assert(items@.take(j as int) =~= items@);
}

fn collect_section(sec: &SectionNode, out: &mut Vec<String>)
    ensures
        strs(final(out)@) == strs(old(out)@) + section_entries(Some(*sec)),
{
    let mut i: usize = 0;
    assert(strs(out@) =~= strs(old(out)@) + parts_entries(sec.parts@.take(0)));
    while i < sec.parts.len()
        invariant
            i <= sec.parts.len(),
            strs(out@) == strs(old(out)@) + parts_entries(sec.parts@.take(i as int)),
        decreases sec.parts.len() - i,
    {
        proof {
            assert(sec.parts@.take(i + 1).drop_last() =~= sec.parts@.take(i as int));
            assert(sec.parts@.take(i + 1).last() == sec.parts@[i as int]);
        }
        match &sec.parts[i] {
            Part::List(l) => collect_items(&l.items, out),
            Part::Paragraph(text) => push_entry(out, text),
            Part::Other => {},
        }
        i = i + 1;
    }
    assert(sec.parts@.take(i as int) =~= sec.parts@);
}

fn is_shown_exec(h: &Heading) -> (b: bool)
    ensures
        b == is_shown(*h),
{
    if h.commented {
        return false;
    }
    let mut i: usize = 0;
    while i < h.tags.len()
        invariant
            i <= h.tags.len(),
            forall|j: int| 0 <= j < i ==> (#[trigger] h.tags@[j])@ != noexport(),
        decreases h.tags.len() - i,
    {
        proof {
            reveal_strlit("noexport");
            assert("noexport"@ =~= noexport());
        }
        if str_eq(h.tags[i].as_str(), "noexport") {
            return false;
        }
        i = i + 1;
    }
    true
}

fn collect_visible(h: &Heading, out: &mut Vec<String>)
    ensures
        strs(final(out)@) == strs(old(out)@) + visible(*h),
    decreases h,
{
    match &h.section {
        Some(sec) => collect_section(sec, out),
        None => {},
    }
    collect_visible_subs(&h.subs, out);
}

fn collect_visible_subs(hs: &Vec<Heading>, out: &mut Vec<String>)
    ensures
        strs(final(out)@) == strs(old(out)@) + visible_subs(hs@),
    decreases hs,
{
    let mut i: usize = 0;
    while i < hs.len()
        invariant
            i <= hs.len(),
            strs(out@) == strs(old(out)@) + visible_subs(hs@.take(i as int)),
        decreases hs.len() - i,
    {
        proof {
            assert(hs@.take(i + 1).drop_last() =~= hs@.take(i as int));
            assert(hs@.take(i + 1).last() == hs@[i as int]);
        }
        if is_shown_exec(&hs[i]) {
            collect_visible(&hs[i], out);
        }
        i = i + 1;
    }
    assert(hs@.take(i as int) =~= hs@);
}

/// The visible content under the section that `path` names in `o`, or
/// nothing when some segment of `path` does not resolve.
pub fn visible_content_at(o: &Outline, path: &[String]) -> (r: Vec<String>)
    ensures
        strs(r@) == section_visible(*o, path_view(path@)),
{
    let mut out: Vec<String> = Vec::new();
    match find_section_at_path(o, path) {
        Ok(h) => {
            collect_visible(h, &mut out);
        },
        Err(_) => {},
    }
    assert(strs(out@) =~= section_visible(*o, path_view(path@)));
    out
}

fn contains_str(v: &Vec<String>, s: &String) -> (b: bool)
    ensures
        b == strs(v@).contains(s@),
{
    let mut i: usize = 0;
    while i < v.len()
        invariant
            i <= v.len(),
            forall|j: int| 0 <= j < i ==> (#[trigger] v@[j])@ != s@,
        decreases v.len() - i,
    {
        if v[i] == *s {
            assert(strs(v@)[i as int] == s@);
            return true;
        }
        i = i + 1;
    }
    assert forall|j: int| 0 <= j < strs(v@).len() implies strs(v@)[j] != s@ by {
        assert(strs(v@)[j] == v@[j]@);
    }
    false
}

/// Whether `head` holds visible entries under `path` that `base` does not
/// hold there.
pub fn additions_between(base: &Outline, head: &Outline, path: &[String]) -> (r: bool)
    ensures
        r == additions_spec(*base, *head, path_view(path@)),
{
    let b = visible_content_at(base, path);
    let h = visible_content_at(head, path);
    let ghost hv = strs(h@);
    let mut i: usize = 0;
    while i < h.len()
        invariant
            i <= h.len(),
            hv == strs(h@),
            hv == section_visible(*head, path_view(path@)),
            strs(b@) == section_visible(*base, path_view(path@)),
            forall|j: int| 0 <= j < i ==> strs(b@).contains(#[trigger] hv[j]),
        decreases h.len() - i,
    {
        assert(hv[i as int] == h@[i as int]@);
        if !contains_str(&b, &h[i]) {
            return true;
        }
        i = i + 1;
    }
    false
}

/// The additions answer for the texts `base` and `head`: what
/// `additions_spec` gives on their outlines.
pub open spec fn additions_on_texts(base: Seq<char>, head: Seq<char>, path: Seq<Seq<char>>, r: bool) -> bool {
    exists|bo: Outline, ho: Outline|
        #[trigger] reads_outline(bo, base) && #[trigger] reads_outline(ho, head) && additions_spec(
            bo,
            ho,
            path,
        ) == r
}

/// Returns `true` if `head_text` contains visible-content entries under the
/// section at `path` that are not present in `base_text`.  Both texts are
/// parsed with orgize; the answer is the one that `additions_between`
/// gives on those parses.
pub fn has_section_additions(base_text: &str, head_text: &str, path: &[String]) -> (r: bool)
    ensures
        additions_on_texts(base_text@, head_text@, path_view(path@), r),
{
    let base = outline_of(base_text);
    let head = outline_of(head_text);
    let r = additions_between(&base, &head, path);
    assert(reads_outline(base, base_text@) && reads_outline(head, head_text@) && additions_spec(
        base,
        head,
        path_view(path@),
    ) == r);
    r
}


// ---------------------------------------------------------------------------
// Rolling
// ---------------------------------------------------------------------------

/// `n` stars.
pub open spec fn stars(n: nat) -> Seq<char> {
    Seq::new(n, |i: int| '*')
}

/// A headline line: `level` stars, a space, the title and a newline.
pub open spec fn heading_line(level: nat, title: Seq<char>) -> Seq<char> {
    stars(level) + seq![' '] + title + seq!['\n']
}

/// Empty copies of the headlines `subs` at `level`: one title line each,
/// titles without trailing white space.
pub open spec fn fresh_sub_lines(subs: Seq<Heading>, level: nat) -> Seq<char>
    decreases subs.len(),
{
    if subs.len() == 0 {
        seq![]
    } else {
        fresh_sub_lines(subs.drop_last(), level) + heading_line(
            level,
            trim_end_spec(subs.last().title@),
        )
    }
}

/// The headlines among `subs` that have content, in order.
pub open spec fn kept_subs(subs: Seq<Heading>) -> Seq<Heading>
    decreases subs.len(),
{
    if subs.len() == 0 {
        seq![]
    } else if has_content(subs.last()) {
        kept_subs(subs.drop_last()).push(subs.last())
    } else {
        kept_subs(subs.drop_last())
    }
}

/// The raw text of the headlines, one after another.
pub open spec fn raws(hs: Seq<Heading>) -> Seq<char>
    decreases hs.len(),
{
    if hs.len() == 0 {
        seq![]
    } else {
        raws(hs.drop_last()) + hs.last().raw@
    }
}

/// The text of a section, or nothing when there is none.
pub open spec fn section_text(s: Option<SectionNode>) -> Seq<char> {
    match s {
        Some(sec) => sec.raw@,
        None => seq![],
    }
}

/// What replaces the section `s` when it is rolled to `version`: a fresh
/// copy of `s` with an empty child for each of its children, then `s`
/// under the title `version`, with its own text and the children that have
/// content.
pub open spec fn rolled_block(s: Heading, version: Seq<char>) -> Seq<char> {
    heading_line(s.level as nat, trim_end_spec(s.title@)) + fresh_sub_lines(
        s.subs@,
        (s.level + 1) as nat,
    ) + heading_line(s.level as nat, version) + section_text(s.section) + raws(
        kept_subs(s.subs@),
    )
}

/// The section `s` can be rolled within the text `t`: its span is a range
/// of whole characters and its children's level is representable.
pub open spec fn roll_fits(t: Seq<char>, s: Heading) -> bool {
    &&& is_char_range(t, s.start as int, s.end as int)
    &&& s.level < usize::MAX
}

/// The bytes of `t` after rolling the section that `path` names to
/// `version`, or the missing heading.
pub open spec fn roll_spec(t: Seq<char>, o: Outline, version: Seq<char>, path: Seq<Seq<char>>) -> Result<
    Seq<u8>,
    Seq<char>,
> {
    match find_section_spec(o, path) {
        Ok(s) => Ok(
            splice_spec(utf8(t), s.start as int, s.end as int, utf8(rolled_block(s, version))),
        ),
        Err(e) => Err(e),
    }
}

/// A text result of the roller, taken as bytes.
pub open spec fn bytes_view(r: Result<String, RollError>) -> Result<Seq<u8>, Seq<char>> {
    match r {
        Ok(s) => Ok(utf8(s@)),
        Err(e) => Err(error_view(e)),
    }
}

fn push_str(out: &mut String, s: &str)
    ensures
        final(out)@ == old(out)@ + s@,
{
    out.append(s);
}

fn push_stars(out: &mut String, n: usize)
    ensures
        final(out)@ == old(out)@ + stars(n as nat),
{
    let ghost start = out@;
    let mut i: usize = 0;
    while i < n
        invariant
            i <= n,
            out@ == start + stars(i as nat),
        decreases n - i,
    {
        proof {
            reveal_strlit("*");
        }
        push_str(out, "*");
        assert(out@ =~= start + stars((i + 1) as nat));
        i = i + 1;
    }
}

fn push_heading_line(out: &mut String, level: usize, title: &str)
    ensures
        final(out)@ == old(out)@ + heading_line(level as nat, title@),
{
    let ghost start = out@;
    push_stars(out, level);
    proof {
        reveal_strlit(" ");
        reveal_strlit("\n");
    }
    push_str(out, " ");
    push_str(out, title);
    push_str(out, "\n");
    assert(out@ =~= start + heading_line(level as nat, title@));
}

fn rolled_text(s: &Heading, version: &str) -> (r: String)
    requires
        s.level < usize::MAX,
    ensures
        r@ == rolled_block(*s, version@),
{
    let mut out = String::new();
    push_heading_line(&mut out, s.level, str_trim_end(s.title.as_str()));
    let ghost head = out@;
    let mut i: usize = 0;
    while i < s.subs.len()
        invariant
            i <= s.subs.len(),
            s.level < usize::MAX,
            out@ == head + fresh_sub_lines(s.subs@.take(i as int), (s.level + 1) as nat),
        decreases s.subs.len() - i,
    {
        push_heading_line(&mut out, s.level + 1, str_trim_end(s.subs[i].title.as_str()));
        assert(s.subs@.take(i + 1).drop_last() =~= s.subs@.take(i as int));
        i = i + 1;
    }
    assert(s.subs@.take(i as int) =~= s.subs@);
    push_heading_line(&mut out, s.level, version);
    match &s.section {
        Some(sec) => push_str(&mut out, sec.raw.as_str()),
        None => {},
    }
    let ghost mid = out@;
    let mut j: usize = 0;
    while j < s.subs.len()
        invariant
            j <= s.subs.len(),
            out@ == mid + raws(kept_subs(s.subs@.take(j as int))),
        decreases s.subs.len() - j,
    {
        proof {
            assert(s.subs@.take(j + 1).drop_last() =~= s.subs@.take(j as int));
            assert(s.subs@.take(j + 1).last() == s.subs@[j as int]);
        }
        if has_content_exec(&s.subs[j]) {
            push_str(&mut out, s.subs[j].raw.as_str());
            proof {
                let k = kept_subs(s.subs@.take(j as int)).push(s.subs@[j as int]);
                assert(k.drop_last() =~= kept_subs(s.subs@.take(j as int)));
            }
        }
        j = j + 1;
    }
    assert(s.subs@.take(j as int) =~= s.subs@);
    assert(out@ =~= rolled_block(*s, version@));
    out
}

/// Rolls the section that `path` names in the outline `o` of `text` to
/// `version` (see `roll_spec`).
pub fn roll_in_outline(text: &str, o: &Outline, version: &str, path: &[String]) -> (r: Result<
    String,
    RollError,
>)
    requires
        find_section_spec(*o, path_view(path@)) matches Ok(s) ==> roll_fits(text@, s),
    ensures
        bytes_view(r) == roll_spec(text@, *o, version@, path_view(path@)),
{
    let s = match find_section_at_path(o, path) {
        Ok(s) => s,
        Err(e) => {
            return Err(e);
        },
    };
    let block = rolled_text(s, version);
    Ok(splice(text, s.start, s.end, block.as_str()))
}

/// The rolled text for the text `t`: what `roll_spec` gives on its
/// outline, whose headlines all fit `t`.
pub open spec fn rolled_on_text(
    t: Seq<char>,
    version: Seq<char>,
    path: Seq<Seq<char>>,
    r: Result<Seq<u8>, Seq<char>>,
) -> bool {
    exists|o: Outline|
        #[trigger] reads_outline(o, t) && all_fit(o.headings@, t) && roll_spec(t, o, version, path)
            == r
}

/// Rolls a changelog forward by stamping the section at `path` as
/// `new_version` and inserting a fresh empty replica above it.  The
/// versioned entry keeps the section's own text and the subsections with
/// content; empty subsections are pruned from it.  The fresh replica
/// carries every subsection heading.  The text is parsed with orgize and
/// rolled as `roll_in_outline` rolls that parse.
pub fn roll(org_text: String, new_version: &str, path: &[String]) -> (r: Result<String, RollError>)
    ensures
        rolled_on_text(org_text@, new_version@, path_view(path@), bytes_view(r)),
{
    let o = outline_of(org_text.as_str());
    proof {
        lemma_found_section_fits(o, path_view(path@), org_text@);
    }
    let r = roll_in_outline(org_text.as_str(), &o, new_version, path);
    assert(reads_outline(o, org_text@) && all_fit(o.headings@, org_text@) && roll_spec(
        org_text@,
        o,
        new_version@,
        path_view(path@),
    ) == bytes_view(r));
    r
}

// ---------------------------------------------------------------------------
// Inserting items
// ---------------------------------------------------------------------------

/// The largest number among the bullets of `items` (0 when none is
/// numbered).
pub open spec fn max_bullet(items: Seq<Item>) -> nat
    decreases items.len(),
{
    if items.len() == 0 {
        0
    } else {
        let m: nat = max_bullet(items.drop_last());
        match bullet_number_spec(items.last().bullet@) {
            Some(n) => if n > m {
                n as nat
            } else {
                m
            },
            None => m,
        }
    }
}

/// The first list among the children `ps` of a section.
pub open spec fn first_list_in(ps: Seq<Part>) -> Option<ListNode>
    decreases ps.len(),
{
    if ps.len() == 0 {
        None
    } else {
        match ps[0] {
            Part::List(l) => Some(l),
            _ => first_list_in(ps.drop_first()),
        }
    }
}

/// The first list of a section, if it has one.
pub open spec fn first_list(sec: Option<SectionNode>) -> Option<ListNode> {
    match sec {
        Some(s) => first_list_in(s.parts@),
        None => None,
    }
}

/// The first list of a section whose lists end on character boundaries
/// within `lo..hi` ends on one too.
pub proof fn lemma_first_list_boundary(ps: Seq<Part>, t: Seq<char>, lo: int, hi: int)
    requires
        forall|j: int|
            0 <= j < ps.len() ==> ((#[trigger] ps[j]) matches Part::List(l) ==> lo <= l.end <= hi
                && is_char_boundary(utf8(t), l.end as int)),
    ensures
        first_list_in(ps) matches Some(l) ==> lo <= l.end <= hi && is_char_boundary(
            utf8(t),
            l.end as int,
        ),
    decreases ps.len(),
{
    if ps.len() > 0 && !(ps[0] is List) {
        assert forall|j: int| 0 <= j < ps.drop_first().len() implies ((
        #[trigger] ps.drop_first()[j]) matches Part::List(l) ==> lo <= l.end <= hi
            && is_char_boundary(utf8(t), l.end as int)) by {
            assert(ps.drop_first()[j] == ps[j + 1]);
        }
        lemma_first_list_boundary(ps.drop_first(), t, lo, hi);
    }
}

/// An ordered-list item numbered `n`.
pub open spec fn item_line(n: nat, body: Seq<char>) -> Seq<char> {
    decimal(n) + seq!['.', ' '] + body + seq!['\n']
}

/// A new headline one level below `level`, holding a single item.
pub open spec fn new_block(level: nat, heading: Seq<char>, body: Seq<char>) -> Seq<char> {
    heading_line(level + 1, heading) + item_line(1, body)
}

/// The bytes of `t` after inserting an item with `body` under the child
/// titled `heading` of the section `s`.
///
/// When the child exists, the item goes after its first list, numbered one
/// above the largest number there, or, when it has no list, at the child's
/// end, numbered 1.  Otherwise a new child holding the item is added: after
/// the content of the last child (before its trailing blank lines), or at
/// the end of `s` when it has no children.
pub open spec fn insert_bytes(t: Seq<char>, s: Heading, heading: Seq<char>, body: Seq<char>) -> Seq<u8> {
    match child_titled(s.subs@, heading) {
        Some(sub) => match first_list(sub.section) {
            Some(l) => splice_spec(
                utf8(t),
                l.end as int,
                l.end as int,
                utf8(item_line(max_bullet(l.items@) + 1, body)),
            ),
            None => splice_spec(utf8(t), sub.end as int, sub.end as int, utf8(item_line(1, body))),
        },
        None => {
            let block = utf8(new_block(s.level as nat, heading, body));
            if s.subs@.len() > 0 {
                let last = s.subs@.last();
                let split: int = content_end(last) - last.start;
                splice_spec(
                    utf8(t),
                    last.start as int,
                    last.end as int,
                    splice_spec(utf8(last.raw@), split, split, block),
                )
            } else {
                splice_spec(utf8(t), s.end as int, s.end as int, block)
            }
        },
    }
}

/// The positions that inserting into the section `s` splices at are
/// character boundaries, and the numbers it writes are representable.
pub open spec fn insert_fits(t: Seq<char>, s: Heading, heading: Seq<char>) -> bool {
    match child_titled(s.subs@, heading) {
        Some(sub) => match first_list(sub.section) {
            Some(l) => is_char_range(t, l.end as int, l.end as int) && max_bullet(l.items@)
                < u32::MAX,
            None => is_char_range(t, sub.end as int, sub.end as int),
        },
        None => {
            &&& s.level < usize::MAX
            &&& if s.subs@.len() > 0 {
                let last = s.subs@.last();
                let split: int = content_end(last) - last.start;
                &&& is_char_range(t, last.start as int, last.end as int)
                &&& last.start <= content_end(last)
                &&& is_char_range(last.raw@, split, split)
            } else {
                is_char_range(t, s.end as int, s.end as int)
            }
        },
    }
}

/// The bytes of `t` after inserting into the section that `path` names,
/// or the missing heading.
pub open spec fn insert_spec(
    t: Seq<char>,
    o: Outline,
    path: Seq<Seq<char>>,
    heading: Seq<char>,
    body: Seq<char>,
) -> Result<Seq<u8>, Seq<char>> {
    match find_section_spec(o, path) {
        Ok(s) => Ok(insert_bytes(t, s, heading, body)),
        Err(e) => Err(e),
    }
}

/// The largest bullet number of `items`.
fn max_bullet_exec(items: &Vec<Item>) -> (m: u32)
    ensures
        m == max_bullet(items@),
{
    let mut m: u32 = 0;
    let mut i: usize = 0;
    while i < items.len()
        invariant
            i <= items.len(),
            m == max_bullet(items@.take(i as int)),
        decreases items.len() - i,
    {
        proof {
            assert(items@.take(i + 1).drop_last() =~= items@.take(i as int));
            assert(items@.take(i + 1).last() == items@[i as int]);
        }
        match bullet_number(items[i].bullet.as_str()) {
            Some(n) => {
                if n > m {
                    m = n;
                }
            },
            None => {},
        }
        i = i + 1;
    }
    assert(items@.take(i as int) =~= items@);
    m
}

fn content_end_exec(h: &Heading) -> (e: usize)
    ensures
        e == content_end(*h),
{
    let mut i: usize = h.tokens.len();
    assert(h.tokens@.take(i as int) =~= h.tokens@);
    while i > 0
        invariant
            i <= h.tokens.len(),
            content_end(*h) == last_content_end(h.tokens@.take(i as int), h.end as nat),
        decreases i,
    {
        proof {
            assert(h.tokens@.take(i as int).drop_last() =~= h.tokens@.take(i - 1));
            assert(h.tokens@.take(i as int).last() == h.tokens@[i - 1]);
        }
        if !h.tokens[i - 1].blank_line {
            return h.tokens[i - 1].end;
        }
        i = i - 1;
    }
    h.end
}

fn item_text(n: u32, body: &str) -> (r: String)
    ensures
        r@ == item_line(n as nat, body@),
{
    let mut out = decimal_string(n as u64);
    proof {
        reveal_strlit(". ");
        reveal_strlit("\n");
    }
    push_str(&mut out, ". ");
    push_str(&mut out, body);
    push_str(&mut out, "\n");
    assert(out@ =~= item_line(n as nat, body@));
    out
}

fn first_list_exec(sec: &Option<SectionNode>) -> (r: Option<&ListNode>)
    ensures
        first_list(*sec) == match r {
            Some(l) => Some(*l),
            None => None::<ListNode>,
        },
{
    match sec {
        Some(s) => {
            let mut i: usize = 0;
            assert(s.parts@.skip(0) =~= s.parts@);
            while i < s.parts.len()
                invariant
                    i <= s.parts.len(),
                    first_list(*sec) == first_list_in(s.parts@),
                    first_list_in(s.parts@) == first_list_in(s.parts@.skip(i as int)),
                decreases s.parts.len() - i,
            {
                proof {
                    lemma_skip_step(s.parts@, i as int);
                }
                match &s.parts[i] {
                    Part::List(l) => {
                        return Some(l);
                    },
                    _ => {},
                }
                i = i + 1;
            }
            assert(s.parts@.skip(i as int).len() == 0);
            None
        },
        None => None,
    }
}

/// Whether the next number for the list that inserting into `s` extends
/// would not fit a `u32`.
pub open spec fn insert_overflows(s: Heading, heading: Seq<char>) -> bool {
    &&& child_titled(s.subs@, heading) matches Some(sub)
    &&& first_list(sub.section) matches Some(l)
    &&& max_bullet(l.items@) >= u32::MAX
}

fn insert_overflows_exec(s: &Heading, heading: &str) -> (b: bool)
    ensures
        b == insert_overflows(*s, heading@),
{
    match child_named(&s.subs, heading) {
        Some(sub) => match first_list_exec(&sub.section) {
            Some(l) => max_bullet_exec(&l.items) == u32::MAX,
            None => false,
        },
        None => false,
    }
}

/// A section whose headlines fit the text can take an item, unless the
/// next number would not fit a `u32`.
proof fn lemma_insert_fits(t: Seq<char>, s: Heading, heading: Seq<char>)
    requires
        tree_fits(s, t),
        !insert_overflows(s, heading),
    ensures
        insert_fits(t, s, heading),
{
    lemma_all_fit_each(s.subs@, t);
    lemma_child_fits(s.subs@, heading, t);
    match child_titled(s.subs@, heading) {
        Some(sub) => {
            match sub.section {
                Some(sec) => lemma_first_list_boundary(
                    sec.parts@,
                    t,
                    sub.start as int,
                    sub.end as int,
                ),
                None => {},
            }
        },
        None => {
            if s.subs@.len() > 0 {
                assert(tree_fits(s.subs@[s.subs@.len() - 1], t));
            }
        },
    }
}

/// Inserts an item with `body` under the child titled `item_heading` of the
/// section that `parent_path` names in the outline `o` of `text` (see
/// `insert_spec`).
pub fn insert_in_outline(
    text: &str,
    o: &Outline,
    parent_path: &[String],
    item_heading: &str,
    body: &str,
) -> (r: Result<String, RollError>)
    requires
        find_section_spec(*o, path_view(parent_path@)) matches Ok(s) ==> insert_fits(
            text@,
            s,
            item_heading@,
        ),
    ensures
        bytes_view(r) == insert_spec(text@, *o, path_view(parent_path@), item_heading@, body@),
{
    let s = match find_section_at_path(o, parent_path) {
        Ok(s) => s,
        Err(e) => {
            return Err(e);
        },
    };
    match child_named(&s.subs, item_heading) {
        Some(sub) => match first_list_exec(&sub.section) {
            Some(l) => {
                let n: u32 = max_bullet_exec(&l.items) + 1;
                let line = item_text(n, body);
                Ok(splice(text, l.end, l.end, line.as_str()))
            },
            None => {
                let line = item_text(1, body);
                Ok(splice(text, sub.end, sub.end, line.as_str()))
            },
        },
        None => {
            let mut block = String::new();
            push_heading_line(&mut block, s.level + 1, item_heading);
            let line = item_text(1, body);
            push_str(&mut block, line.as_str());
            if s.subs.len() > 0 {
                let last = &s.subs[s.subs.len() - 1];
                let split: usize = content_end_exec(last) - last.start;
                let new_text = splice(last.raw.as_str(), split, split, block.as_str());
                Ok(splice(text, last.start, last.end, new_text.as_str()))
            } else {
                Ok(splice(text, s.end, s.end, block.as_str()))
            }
        },
    }
}

/// What `insert_item` answers for the outline `o` of `t`: the missing
/// heading, `t` itself where the next number would not fit a `u32`, or the
/// text with the item inserted.
pub open spec fn insert_outcome(
    t: Seq<char>,
    o: Outline,
    path: Seq<Seq<char>>,
    heading: Seq<char>,
    body: Seq<char>,
    r: Result<Seq<u8>, Seq<char>>,
) -> bool {
    match find_section_spec(o, path) {
        Err(e) => r == Err::<Seq<u8>, Seq<char>>(e),
        Ok(s) => if insert_overflows(s, heading) {
            r == Ok::<Seq<u8>, Seq<char>>(utf8(t))
        } else {
            r == insert_spec(t, o, path, heading, body)
        },
    }
}

/// The answer of `insert_item` for the text `t`: `insert_outcome` on its
/// outline, whose headlines all fit `t`.
pub open spec fn inserted_on_text(
    t: Seq<char>,
    path: Seq<Seq<char>>,
    heading: Seq<char>,
    body: Seq<char>,
    r: Result<Seq<u8>, Seq<char>>,
) -> bool {
    exists|o: Outline|
        #[trigger] reads_outline(o, t) && all_fit(o.headings@, t) && insert_outcome(
            t,
            o,
            path,
            heading,
            body,
            r,
        )
}

/// Inserts a new ordered-list item under a subheading of the section at
/// `parent_path`.  The item follows the subheading's first list, numbered
/// one above the largest number there (1 when nothing is numbered); a
/// missing subheading is created at the end of the section, holding the
/// item.  Matching is exact on the trimmed title, among direct children
/// only.  The text is parsed with orgize and changed as `insert_in_outline`
/// changes that parse; where the largest number is already `u32::MAX`,
/// the text is returned unchanged.
pub fn insert_item(org_text: String, parent_path: &[String], item_heading: &str, body: &str) -> (r:
    Result<String, RollError>)
    ensures
        inserted_on_text(
            org_text@,
            path_view(parent_path@),
            item_heading@,
            body@,
            bytes_view(r),
        ),
{
    let o = outline_of(org_text.as_str());
    proof {
        lemma_found_section_fits(o, path_view(parent_path@), org_text@);
    }
    let over = match find_section_at_path(&o, parent_path) {
        Ok(s) => insert_overflows_exec(s, item_heading),
        Err(_) => false,
    };
    if over {
        assert(insert_outcome(
            org_text@,
            o,
            path_view(parent_path@),
            item_heading@,
            body@,
            bytes_view(Ok(org_text)),
        ));
        assert(reads_outline(o, org_text@) && all_fit(o.headings@, org_text@));
        return Ok(org_text);
    }
    proof {
        match find_section_spec(o, path_view(parent_path@)) {
            Ok(s) => lemma_insert_fits(org_text@, s, item_heading@),
            Err(_) => {},
        }
    }
    let r = insert_in_outline(org_text.as_str(), &o, parent_path, item_heading, body);
    assert(reads_outline(o, org_text@) && all_fit(o.headings@, org_text@) && insert_outcome(
        org_text@,
        o,
        path_view(parent_path@),
        item_heading@,
        body@,
        bytes_view(r),
    ));
    r
}

} // verus!
