//! A plain model of the parts of an Org document that the roller reads:
//! headlines with their titles, levels, spans, sections and sub-headlines.
//! The model is read from orgize's parse of the text, and `reads_outline`
//! says exactly what it holds in terms of what orgize reports.

use vstd::prelude::*;

use crate::org_syntax::{
    headline_child_count, headline_commented, headline_count, headline_level, headline_span,
    headline_subtree_size, headline_tags, headline_title, headline_tokens, list_item_bullets,
    list_item_spans, org_child_count, org_commented, org_headline_count, org_item_bullets,
    org_item_spans, org_level, org_section, org_span, org_subtree_size, org_tags, org_title,
    org_tokens, section_parts, string_views, token_views,
};
use crate::text::{is_char_range, lemma_slice_boundary, text_slice, utf8};
use vstd::utf8::is_char_boundary;

verus! {

/// The kind of a child of a section.
#[derive(Clone, Copy, Debug, PartialEq, Eq, Structural)]
pub enum PartKind {
    List,
    Paragraph,
    Other,
}

/// A child of a section as orgize reports it: its kind and byte range.
pub struct PartSpan {
    pub kind: PartKind,
    pub start: usize,
    pub end: usize,
}

/// A token of a headline's subtree: whether it is a blank line, and the
/// byte offset where it ends.
pub struct TokenEnd {
    pub blank_line: bool,
    pub end: usize,
}

/// An item of a plain list.
pub struct Item {
    /// The text the item spans.
    pub raw: String,
    /// The item's bullet, such as `"1. "` or `"- "`.
    pub bullet: String,
}

/// A plain list that is a direct child of a section.
pub struct ListNode {
    /// Byte offset where the list ends.
    pub end: usize,
    pub items: Vec<Item>,
}

/// A child of a section.
pub enum Part {
    List(ListNode),
    /// The text of a paragraph.
    Paragraph(String),
    /// Anything else: drawers, keywords, comments, tables and the like.
    Other,
}

/// The section that follows a headline's title line.
pub struct SectionNode {
    /// The text the section spans.
    pub raw: String,
    /// The children of the section, in document order.
    pub parts: Vec<Part>,
}

/// A headline together with its subtree.
pub struct Heading {
    /// The raw title text (everything between the stars and the tags).
    pub title: String,
    /// Number of leading stars.
    pub level: usize,
    /// Whether the title starts with the `COMMENT` keyword.
    pub commented: bool,
    pub tags: Vec<String>,
    /// Byte range of the headline in the document, sub-headlines included.
    pub start: usize,
    pub end: usize,
    /// The text of that range.
    pub raw: String,
    /// The tokens of the subtree, in document order.
    pub tokens: Vec<TokenEnd>,
    pub section: Option<SectionNode>,
    /// Direct child headlines, in order.
    pub subs: Vec<Heading>,
}

/// The top-level headlines of a document, in order.
pub struct Outline {
    pub headings: Vec<Heading>,
}

/// The bytes of `t` in `start..end`.
pub open spec fn slice_bytes(t: Seq<char>, start: int, end: int) -> Seq<u8> {
    utf8(t).subrange(start, end)
}

/// The document-order index of the `i`-th direct child of the `k`-th
/// headline: children follow their parent, each after the whole subtree of
/// the one before.
pub open spec fn kid_index(t: Seq<char>, k: nat, i: nat) -> nat
    decreases i,
{
    if i == 0 {
        k + 1
    } else {
        let p = kid_index(t, k, (i - 1) as nat);
        p + org_subtree_size(t, p)
    }
}

/// The document-order index of the `i`-th top-level headline.
pub open spec fn top_index(t: Seq<char>, i: nat) -> nat
    decreases i,
{
    if i == 0 {
        0
    } else {
        let p = top_index(t, (i - 1) as nat);
        p + org_subtree_size(t, p)
    }
}

/// `n` is the number of direct children of the `k`-th headline that lie
/// within its subtree.
pub open spec fn kids_cut(t: Seq<char>, k: nat, n: nat) -> bool {
    &&& n <= org_child_count(t, k)
    &&& forall|i: nat| i < n ==> #[trigger] kid_index(t, k, i) < k + org_subtree_size(t, k)
    &&& n == org_child_count(t, k) || kid_index(t, k, n) >= k + org_subtree_size(t, k)
}

/// `n` is the number of top-level headlines of the document.
pub open spec fn tops_cut(t: Seq<char>, n: nat) -> bool {
    &&& forall|i: nat| i < n ==> #[trigger] top_index(t, i) < org_headline_count(t)
    &&& top_index(t, n) >= org_headline_count(t)
}

/// The item holds the text of the range `span` and the bullet `bullet`.
pub open spec fn item_reads(it: Item, t: Seq<char>, span: (nat, nat), bullet: Seq<char>) -> bool {
    &&& utf8(it.raw@) == slice_bytes(t, span.0 as int, span.1 as int)
    &&& it.bullet@ == bullet
}

/// The list is the `j`-th child of the `k`-th headline's section, which ends
/// at `end`.
pub open spec fn list_reads(l: ListNode, t: Seq<char>, k: nat, j: nat, end: nat) -> bool {
    let spans = org_item_spans(t, k, j);
    let bullets = org_item_bullets(t, k, j);
    &&& l.end == end
    &&& l.items@.len() == spans.len()
    &&& forall|i: int|
        0 <= i < spans.len() ==> item_reads(#[trigger] l.items@[i], t, spans[i], bullets[i])
}

/// The part is the `j`-th child of the `k`-th headline's section, reported
/// as `pv`.
pub open spec fn part_reads(p: Part, t: Seq<char>, k: nat, j: nat, pv: (PartKind, nat, nat)) -> bool {
    match pv.0 {
        PartKind::List => p matches Part::List(l) && list_reads(l, t, k, j, pv.2),
        PartKind::Paragraph => p matches Part::Paragraph(s) && utf8(s@) == slice_bytes(
            t,
            pv.1 as int,
            pv.2 as int,
        ),
        PartKind::Other => p is Other,
    }
}

/// The section is that of the `k`-th headline.
pub open spec fn section_reads(s: Option<SectionNode>, t: Seq<char>, k: nat) -> bool {
    match org_section(t, k) {
        None => s is None,
        Some((span, parts)) => s matches Some(sec) && {
            &&& utf8(sec.raw@) == slice_bytes(t, span.0 as int, span.1 as int)
            &&& sec.parts@.len() == parts.len()
            &&& forall|j: int|
                0 <= j < parts.len() ==> part_reads(
                    #[trigger] sec.parts@[j],
                    t,
                    k,
                    j as nat,
                    parts[j],
                )
        },
    }
}

/// `h` is the `k`-th headline of `t` as orgize reports it, with its whole
/// subtree.
pub open spec fn reads(h: Heading, t: Seq<char>, k: nat) -> bool
    decreases h,
{
    &&& h.title@ == org_title(t, k)
    &&& h.level as nat == org_level(t, k)
    &&& h.commented == org_commented(t, k)
    &&& string_views(h.tags@) == org_tags(t, k)
    &&& (h.start as nat, h.end as nat) == org_span(t, k)
    &&& utf8(h.raw@) == slice_bytes(t, h.start as int, h.end as int)
    &&& token_views(h.tokens@) == org_tokens(t, k)
    &&& section_reads(h.section, t, k)
    &&& kids_cut(t, k, h.subs@.len())
    &&& reads_kids(h.subs@, t, k)
}

/// Each of `hs` is the corresponding direct child of the `k`-th headline.
pub open spec fn reads_kids(hs: Seq<Heading>, t: Seq<char>, k: nat) -> bool
    decreases hs,
{
    hs.len() == 0 || (reads_kids(hs.drop_last(), t, k) && reads(
        hs.last(),
        t,
        kid_index(t, k, (hs.len() - 1) as nat),
    ))
}

/// Each of `hs` is the corresponding top-level headline.
pub open spec fn reads_tops(hs: Seq<Heading>, t: Seq<char>) -> bool
    decreases hs.len(),
{
    hs.len() == 0 || (reads_tops(hs.drop_last(), t) && reads(
        hs.last(),
        t,
        top_index(t, (hs.len() - 1) as nat),
    ))
}

/// `o` is the outline of `t` as orgize parses it.
pub open spec fn reads_outline(o: Outline, t: Seq<char>) -> bool {
    &&& tops_cut(t, o.headings@.len())
    &&& reads_tops(o.headings@, t)
}

/// Where the last non-blank-line token among `tokens` ends, or `end` when
/// every token is a blank line.
pub open spec fn last_content_end(tokens: Seq<TokenEnd>, end: nat) -> nat
    decreases tokens.len(),
{
    if tokens.len() == 0 {
        end
    } else if !tokens.last().blank_line {
        tokens.last().end as nat
    } else {
        last_content_end(tokens.drop_last(), end)
    }
}

/// Where the content of the headline `h` ends, trailing blank lines aside.
pub open spec fn content_end(h: Heading) -> nat {
    last_content_end(h.tokens@, h.end as nat)
}

/// Where the `i`-th token of `h` starts: where the one before it ends, or
/// at the headline's start for the first.
pub open spec fn token_start(h: Heading, i: int) -> nat {
    if i == 0 {
        h.start as nat
    } else {
        h.tokens@[i - 1].end as nat
    }
}

/// The tokens of `h` tile its span in order: the `i`-th covers
/// `token_start(h, i)..h.tokens@[i].end`, the ends never decrease, and the
/// last one ends where `h` ends.
pub open spec fn tokens_tile(h: Heading) -> bool {
    &&& h.tokens@.len() > 0
    &&& h.tokens@.last().end == h.end
    &&& forall|i: int, j: int|
        0 <= i <= j < h.tokens@.len() ==> (#[trigger] h.tokens@[i]).end <= (
        #[trigger] h.tokens@[j]).end
}

/// The facts of orgize's tree that splicing into `t` at `h` relies on: the
/// span of `h` is a range of whole characters, its text is that range, its
/// level is below the span's length, its content ends on a character
/// boundary within the span, its section's lists end on character
/// boundaries within the span, and its tokens tile the span.
pub open spec fn node_fits(h: Heading, t: Seq<char>) -> bool {
    &&& is_char_range(t, h.start as int, h.end as int)
    &&& tokens_tile(h)
    &&& utf8(h.raw@) == slice_bytes(t, h.start as int, h.end as int)
    &&& h.level + h.start < h.end
    &&& h.start <= content_end(h) <= h.end
    &&& is_char_boundary(utf8(t), content_end(h) as int)
    &&& is_char_range(h.raw@, content_end(h) - h.start, content_end(h) - h.start)
    &&& h.section matches Some(sec) ==> forall|j: int|
        0 <= j < sec.parts@.len() ==> ((#[trigger] sec.parts@[j]) matches Part::List(l)
            ==> h.start <= l.end <= h.end && is_char_boundary(utf8(t), l.end as int))
}

/// The direct children of `h` lie within its span.
pub open spec fn kids_within(h: Heading) -> bool {
    forall|i: int|
        0 <= i < h.subs@.len() ==> h.start <= (#[trigger] h.subs@[i]).start && h.subs@[i].end
            <= h.end
}

/// `node_fits` holds throughout the subtree of `h`, and each headline's
/// children lie within it.
pub open spec fn tree_fits(h: Heading, t: Seq<char>) -> bool
    decreases h,
{
    node_fits(h, t) && kids_within(h) && all_fit(h.subs@, t)
}

/// `tree_fits` holds of each of `hs`.
pub open spec fn all_fit(hs: Seq<Heading>, t: Seq<char>) -> bool
    decreases hs,
{
    hs.len() == 0 || (all_fit(hs.drop_last(), t) && tree_fits(hs.last(), t))
}

/// `all_fit` holds exactly when each headline's subtree fits.
pub proof fn lemma_all_fit_each(hs: Seq<Heading>, t: Seq<char>)
    ensures
        all_fit(hs, t) <==> forall|i: int| 0 <= i < hs.len() ==> tree_fits(#[trigger] hs[i], t),
    decreases hs.len(),
{
    if hs.len() > 0 {
        let init = hs.drop_last();
        lemma_all_fit_each(init, t);
        assert forall|i: int| 0 <= i < init.len() implies init[i] == hs[i] by {}
        if forall|i: int| 0 <= i < hs.len() ==> tree_fits(#[trigger] hs[i], t) {
            assert forall|i: int| 0 <= i < init.len() implies tree_fits(#[trigger] init[i], t) by {
                assert(init[i] == hs[i]);
            }
            assert(tree_fits(hs[hs.len() - 1], t));
        }
        if all_fit(hs, t) {
            assert forall|i: int| 0 <= i < hs.len() implies tree_fits(#[trigger] hs[i], t) by {
                if i < hs.len() - 1 {
                    assert(init[i] == hs[i]);
                }
            }
        }
    }
}

proof fn lemma_last_content_end_bounds(tokens: Seq<TokenEnd>, end: nat, t: Seq<char>, lo: nat)
    requires
        lo <= end,
        is_char_boundary(utf8(t), end as int),
        forall|i: int|
            0 <= i < tokens.len() ==> {
                &&& lo <= (#[trigger] tokens[i]).end <= end
                &&& is_char_boundary(utf8(t), tokens[i].end as int)
            },
    ensures
        lo <= last_content_end(tokens, end) <= end,
        is_char_boundary(utf8(t), last_content_end(tokens, end) as int),
    decreases tokens.len(),
{
    if tokens.len() > 0 && tokens.last().blank_line {
        assert forall|i: int| 0 <= i < tokens.drop_last().len() implies {
            &&& lo <= (#[trigger] tokens.drop_last()[i]).end <= end
            &&& is_char_boundary(utf8(t), tokens.drop_last()[i].end as int)
        } by {
            assert(tokens.drop_last()[i] == tokens[i]);
        }
        lemma_last_content_end_bounds(tokens.drop_last(), end, t, lo);
    } else if tokens.len() > 0 {
        assert(tokens.last() == tokens[tokens.len() - 1]);
    }
}

fn build_list(text: &str, k: usize, j: usize, end: usize) -> (r: ListNode)
    requires
        k < org_headline_count(text@),
        org_section(text@, k as nat) matches Some((_, parts)) && j < parts.len() && parts[j as int].0
            == PartKind::List,
    ensures
        list_reads(r, text@, k as nat, j as nat, end as nat),
{
    let spans = list_item_spans(text, k, j);
    let bullets = list_item_bullets(text, k, j);
    let ghost sv = org_item_spans(text@, k as nat, j as nat);
    let ghost bv = org_item_bullets(text@, k as nat, j as nat);
    let mut items: Vec<Item> = Vec::new();
    let mut i: usize = 0;
    while i < spans.len()
        invariant
            i <= spans.len(),
            spans@.len() == sv.len(),
            bullets@.len() == sv.len(),
            items@.len() == i,
            sv == org_item_spans(text@, k as nat, j as nat),
            bv == org_item_bullets(text@, k as nat, j as nat),
            range_views_eq(spans@, sv),
            string_views(bullets@) == bv,
            forall|a: int|
                0 <= a < spans@.len() ==> is_char_range(
                    text@,
                    (#[trigger] spans@[a]).0 as int,
                    spans@[a].1 as int,
                ),
            forall|a: int| 0 <= a < i ==> item_reads(#[trigger] items@[a], text@, sv[a], bv[a]),
        decreases spans.len() - i,
    {
        let (s, e) = spans[i];
        assert(sv[i as int] == (s as nat, e as nat));
        assert(bv[i as int] == bullets@[i as int]@);
        let raw = text_slice(text, s, e);
        items.push(Item { raw, bullet: bullets[i].clone() });
        i = i + 1;
    }
    ListNode { end, items }
}

/// Pairs of machine integers read as pairs of naturals.
pub open spec fn range_views_eq(v: Seq<(usize, usize)>, w: Seq<(nat, nat)>) -> bool {
    &&& v.len() == w.len()
    &&& forall|i: int| 0 <= i < v.len() ==> w[i] == ((#[trigger] v[i]).0 as nat, v[i].1 as nat)
}

fn build_section(text: &str, k: usize) -> (r: Option<SectionNode>)
    requires
        k < org_headline_count(text@),
    ensures
        section_reads(r, text@, k as nat),
        r matches Some(sec) ==> forall|j: int|
            0 <= j < sec.parts@.len() ==> ((#[trigger] sec.parts@[j]) matches Part::List(l)
                ==> org_span(text@, k as nat).0 <= l.end <= org_span(text@, k as nat).1
                && is_char_boundary(utf8(text@), l.end as int)),
{
    let (span, parts) = match section_parts(text, k) {
        Some(x) => x,
        None => {
            return None;
        },
    };
    let ghost pv = crate::org_syntax::part_views(parts@);
    let raw = text_slice(text, span.0, span.1);
    let mut out: Vec<Part> = Vec::new();
    let mut j: usize = 0;
    while j < parts.len()
        invariant
            j <= parts.len(),
            out@.len() == j,
            k < org_headline_count(text@),
            org_section(text@, k as nat) == Some(
                ((span.0 as nat, span.1 as nat), crate::org_syntax::part_views(parts@)),
            ),
            pv == crate::org_syntax::part_views(parts@),
            forall|a: int|
                0 <= a < parts@.len() ==> is_char_range(
                    text@,
                    (#[trigger] parts@[a]).start as int,
                    parts@[a].end as int,
                ),
            forall|a: int|
                0 <= a < j ==> part_reads(#[trigger] out@[a], text@, k as nat, a as nat, pv[a]),
            forall|a: int|
                0 <= a < parts@.len() ==> org_span(text@, k as nat).0 <= (#[trigger] parts@[a]).start
                    && parts@[a].end <= org_span(text@, k as nat).1,
            forall|a: int|
                0 <= a < j ==> ((#[trigger] out@[a]) matches Part::List(l) ==> org_span(
                    text@,
                    k as nat,
                ).0 <= l.end <= org_span(text@, k as nat).1 && is_char_boundary(
                    utf8(text@),
                    l.end as int,
                )),
        decreases parts.len() - j,
    {
        let p = &parts[j];
        assert(pv[j as int] == (p.kind, p.start as nat, p.end as nat));
        let part = match p.kind {
            PartKind::List => Part::List(build_list(text, k, j, p.end)),
            PartKind::Paragraph => Part::Paragraph(text_slice(text, p.start, p.end)),
            PartKind::Other => Part::Other,
        };
        out.push(part);
        j = j + 1;
    }
    Some(SectionNode { raw, parts: out })
}

/// Reads the `k`-th headline of `text` with its subtree.  Children come
/// after their parent in document order, so the recursion ends.
fn build_heading(text: &str, k: usize, count: usize) -> (r: Heading)
    requires
        count as nat == org_headline_count(text@),
        k < count,
    ensures
        reads(r, text@, k as nat),
        tree_fits(r, text@),
    decreases org_headline_count(text@) - k,
{
    let (start, end) = headline_span(text, k);
    let level = headline_level(text, k);
    let tokens = headline_tokens(text, k);
    let raw = text_slice(text, start, end);
    let section = build_section(text, k);
    let mut subs: Vec<Heading> = Vec::new();
    {
        let n = headline_child_count(text, k);
        let size_k = headline_subtree_size(text, k);
        let mut i: usize = 0;
        let mut idx: usize = k + 1;
        while i < n && idx < k + size_k
            invariant
                k < idx,
                i <= n,
                n as nat == org_child_count(text@, k as nat),
                size_k as nat == org_subtree_size(text@, k as nat),
                count as nat == org_headline_count(text@),
                k < count,
                k + size_k <= count,
                (start as nat, end as nat) == org_span(text@, k as nat),
                forall|j: nat|
                    k <= j < k + size_k ==> start <= (#[trigger] org_span(text@, j)).0
                        && org_span(text@, j).1 <= end,
                subs@.len() == i,
                idx as nat == kid_index(text@, k as nat, i as nat),
                forall|a: nat|
                    a < i ==> #[trigger] kid_index(text@, k as nat, a) < k + size_k,
                forall|a: int|
                    0 <= a < subs@.len() ==> start <= (#[trigger] subs@[a]).start
                        && subs@[a].end <= end,
                reads_kids(subs@, text@, k as nat),
                all_fit(subs@, text@),
            decreases n - i,
        {
            let sub = build_heading(text, idx, count);
            let size = headline_subtree_size(text, idx);
            proof {
                assert(subs@.push(sub).drop_last() =~= subs@);
                assert(kid_index(text@, k as nat, (i + 1) as nat) == idx + size);
            }
            subs.push(sub);
            idx = idx + size;
            i = i + 1;
        }
    }
    let r = Heading {
        title: headline_title(text, k),
        level,
        commented: headline_commented(text, k),
        tags: headline_tags(text, k),
        start,
        end,
        raw,
        tokens,
        section,
        subs,
    };
    proof {
        lemma_last_content_end_bounds(r.tokens@, end as nat, text@, start as nat);
        assert forall|i: int| 0 <= i < r.tokens@.len() implies {
            &&& start <= (#[trigger] r.tokens@[i]).end <= end
            &&& is_char_boundary(utf8(text@), r.tokens@[i].end as int)
        } by {
            assert(token_views(r.tokens@)[i] == (r.tokens@[i].blank_line, r.tokens@[i].end as nat));
        }
        lemma_last_content_end_bounds(r.tokens@, end as nat, text@, start as nat);
        lemma_slice_boundary(text@, raw@, start as int, end as int, content_end(r) as int);
    }
    r
}

/// Parses `text` with orgize and reads its headline tree; the result is the
/// outline of `text` (`reads_outline`), and every headline fits the text.
pub fn outline_of(text: &str) -> (r: Outline)
    ensures
        reads_outline(r, text@),
        all_fit(r.headings@, text@),
{
    let count = headline_count(text);
    let mut headings: Vec<Heading> = Vec::new();
    let mut idx: usize = 0;
    let ghost mut i: nat = 0;
    while idx < count
        invariant
            count as nat == org_headline_count(text@),
            headings@.len() == i,
            idx as nat == top_index(text@, i),
            forall|a: nat| a < i ==> #[trigger] top_index(text@, a) < count,
            reads_tops(headings@, text@),
            all_fit(headings@, text@),
        decreases count - idx,
    {
        let h = build_heading(text, idx, count);
        let size = headline_subtree_size(text, idx);
        proof {
            assert(headings@.push(h).drop_last() =~= headings@);
            assert(top_index(text@, i + 1) == idx + size);
        }
        headings.push(h);
        idx = idx + size;
        proof {
            i = i + 1;
        }
    }
    Outline { headings }
}

/// Two items hold the same text and bullet.
pub open spec fn same_item(a: Item, b: Item) -> bool {
    a.raw@ == b.raw@ && a.bullet@ == b.bullet@
}

/// Two sequences of items agree item by item.
pub open spec fn same_items(a: Seq<Item>, b: Seq<Item>) -> bool {
    &&& a.len() == b.len()
    &&& forall|i: int| 0 <= i < a.len() ==> same_item(#[trigger] a[i], b[i])
}

/// Two children of sections agree in kind and content.
pub open spec fn same_part(a: Part, b: Part) -> bool {
    match a {
        Part::List(x) => b matches Part::List(y) && x.end == y.end && same_items(
            x.items@,
            y.items@,
        ),
        Part::Paragraph(x) => b matches Part::Paragraph(y) && x@ == y@,
        Part::Other => b is Other,
    }
}

/// Two optional sections agree: both absent, or both present with the same
/// text and children.
pub open spec fn same_section(a: Option<SectionNode>, b: Option<SectionNode>) -> bool {
    match a {
        None => b is None,
        Some(x) => b matches Some(y) && x.raw@ == y.raw@ && x.parts@.len() == y.parts@.len()
            && forall|j: int| 0 <= j < x.parts@.len() ==> same_part(#[trigger] x.parts@[j], y.parts@[j]),
    }
}

/// Two headlines hold the same values throughout their subtrees.
pub open spec fn same_heading(a: Heading, b: Heading) -> bool
    decreases a,
{
    &&& a.title@ == b.title@
    &&& a.level == b.level
    &&& a.commented == b.commented
    &&& string_views(a.tags@) == string_views(b.tags@)
    &&& a.start == b.start
    &&& a.end == b.end
    &&& a.raw@ == b.raw@
    &&& a.tokens@ == b.tokens@
    &&& same_section(a.section, b.section)
    &&& a.subs@.len() == b.subs@.len()
    &&& forall|i: int| 0 <= i < a.subs@.len() ==> same_heading(#[trigger] a.subs@[i], b.subs@[i])
}

/// Two sequences of headlines agree headline by headline.
pub open spec fn same_headings(a: Seq<Heading>, b: Seq<Heading>) -> bool {
    &&& a.len() == b.len()
    &&& forall|i: int| 0 <= i < a.len() ==> same_heading(#[trigger] a[i], b[i])
}

/// UTF-8 encoding loses nothing.
pub proof fn lemma_utf8_injective(x: Seq<char>, y: Seq<char>)
    requires
        utf8(x) == utf8(y),
    ensures
        x == y,
{
    vstd::utf8::encode_utf8_decode_utf8(x);
    vstd::utf8::encode_utf8_decode_utf8(y);
}

proof fn lemma_kids_cut_unique(t: Seq<char>, k: nat, n1: nat, n2: nat)
    requires
        kids_cut(t, k, n1),
        kids_cut(t, k, n2),
    ensures
        n1 == n2,
{
    if n1 < n2 {
        assert(kid_index(t, k, n1) < k + org_subtree_size(t, k));
    } else if n2 < n1 {
        assert(kid_index(t, k, n2) < k + org_subtree_size(t, k));
    }
}

proof fn lemma_tops_cut_unique(t: Seq<char>, n1: nat, n2: nat)
    requires
        tops_cut(t, n1),
        tops_cut(t, n2),
    ensures
        n1 == n2,
{
    if n1 < n2 {
        assert(top_index(t, n1) < org_headline_count(t));
    } else if n2 < n1 {
        assert(top_index(t, n2) < org_headline_count(t));
    }
}

proof fn lemma_reads_kids_each(hs: Seq<Heading>, t: Seq<char>, k: nat)
    requires
        reads_kids(hs, t, k),
    ensures
        forall|i: int| 0 <= i < hs.len() ==> reads(#[trigger] hs[i], t, kid_index(t, k, i as nat)),
    decreases hs.len(),
{
    if hs.len() > 0 {
        lemma_reads_kids_each(hs.drop_last(), t, k);
        assert forall|i: int| 0 <= i < hs.len() implies reads(#[trigger] hs[i], t, kid_index(t, k, i as nat)) by {
            if i < hs.len() - 1 {
                assert(hs.drop_last()[i] == hs[i]);
            }
        }
    }
}

proof fn lemma_reads_tops_each(hs: Seq<Heading>, t: Seq<char>)
    requires
        reads_tops(hs, t),
    ensures
        forall|i: int| 0 <= i < hs.len() ==> reads(#[trigger] hs[i], t, top_index(t, i as nat)),
    decreases hs.len(),
{
    if hs.len() > 0 {
        lemma_reads_tops_each(hs.drop_last(), t);
        assert forall|i: int| 0 <= i < hs.len() implies reads(#[trigger] hs[i], t, top_index(t, i as nat)) by {
            if i < hs.len() - 1 {
                assert(hs.drop_last()[i] == hs[i]);
            }
        }
    }
}

proof fn lemma_section_reads_same(a: Option<SectionNode>, b: Option<SectionNode>, t: Seq<char>, k: nat)
    requires
        section_reads(a, t, k),
        section_reads(b, t, k),
    ensures
        same_section(a, b),
{
    match org_section(t, k) {
        None => {},
        Some((span, parts)) => {
            let x = a->0;
            let y = b->0;
            lemma_utf8_injective(x.raw@, y.raw@);
            assert forall|j: int| 0 <= j < x.parts@.len() implies same_part(#[trigger] x.parts@[j], y.parts@[j]) by {
                assert(part_reads(x.parts@[j], t, k, j as nat, parts[j]));
                assert(part_reads(y.parts@[j], t, k, j as nat, parts[j]));
                match x.parts@[j] {
                    Part::List(lx) => {
                        let ly = y.parts@[j]->List_0;
                        assert forall|i: int| 0 <= i < lx.items@.len() implies same_item(#[trigger] lx.items@[i], ly.items@[i]) by {
                            let sp = org_item_spans(t, k, j as nat);
                            let bu = org_item_bullets(t, k, j as nat);
                            assert(item_reads(lx.items@[i], t, sp[i], bu[i]));
                            assert(item_reads(ly.items@[i], t, sp[i], bu[i]));
                            lemma_utf8_injective(lx.items@[i].raw@, ly.items@[i].raw@);
                        }
                    },
                    Part::Paragraph(px) => {
                        let py = y.parts@[j]->Paragraph_0;
                        lemma_utf8_injective(px@, py@);
                    },
                    Part::Other => {},
                }
            }
        },
    }
}

/// Two headlines that both read the `k`-th headline of `t` hold the same
/// values throughout.
pub proof fn lemma_reads_same(a: Heading, b: Heading, t: Seq<char>, k: nat)
    requires
        reads(a, t, k),
        reads(b, t, k),
    ensures
        same_heading(a, b),
    decreases a,
{
    lemma_utf8_injective(a.raw@, b.raw@);
    assert(a.tokens@ =~= b.tokens@) by {
        assert(token_views(a.tokens@).len() == a.tokens@.len());
        assert(token_views(b.tokens@).len() == b.tokens@.len());
        assert forall|i: int| 0 <= i < a.tokens@.len() implies a.tokens@[i] == b.tokens@[i] by {
            assert(token_views(a.tokens@)[i] == token_views(b.tokens@)[i]);
            assert(a.tokens@[i].blank_line == b.tokens@[i].blank_line);
            assert(a.tokens@[i].end == b.tokens@[i].end);
        }
    }
    lemma_section_reads_same(a.section, b.section, t, k);
    lemma_kids_cut_unique(t, k, a.subs@.len(), b.subs@.len());
    lemma_reads_kids_each(a.subs@, t, k);
    lemma_reads_kids_each(b.subs@, t, k);
    assert forall|i: int| 0 <= i < a.subs@.len() implies same_heading(#[trigger] a.subs@[i], b.subs@[i]) by {
        lemma_reads_same(a.subs@[i], b.subs@[i], t, kid_index(t, k, i as nat));
    }
}

/// Two outlines of the same text hold the same headlines.
pub proof fn lemma_outlines_same(a: Outline, b: Outline, t: Seq<char>)
    requires
        reads_outline(a, t),
        reads_outline(b, t),
    ensures
        same_headings(a.headings@, b.headings@),
{
    lemma_tops_cut_unique(t, a.headings@.len(), b.headings@.len());
    lemma_reads_tops_each(a.headings@, t);
    lemma_reads_tops_each(b.headings@, t);
    assert forall|i: int| 0 <= i < a.headings@.len() implies same_heading(#[trigger] a.headings@[i], b.headings@[i]) by {
        lemma_reads_same(a.headings@[i], b.headings@[i], t, top_index(t, i as nat));
    }
}

} // verus!
