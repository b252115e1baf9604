//! The Org-mode parser.  Each wrapper parses the text with orgize, takes the
//! `k`-th headline of the document in document order (orgize's
//! `descendants` of the document node, cast to `Headline`), and reports one
//! thing orgize computes of it.  What orgize computes is named by a spec
//! function of the text and `k`, so the same text always reads the same.
//! Besides the names, the wrappers state the facts that orgize's lossless
//! syntax tree gives: every range it reports is a range of whole characters
//! of the text, and the pieces of a headline lie within the headline.

use vstd::prelude::*;
use orgize::ast::{Headline, List};
use orgize::rowan::ast::AstNode;
use orgize::{Org, SyntaxKind};

use crate::outline::{PartKind, PartSpan, TokenEnd};
use crate::text::{is_char_range, utf8};
use vstd::utf8::is_char_boundary;

verus! {

/// The number of headlines in the document `text`.
pub uninterp spec fn org_headline_count(text: Seq<char>) -> nat;

/// The raw title of the `k`-th headline (`Headline::title_raw`).
pub uninterp spec fn org_title(text: Seq<char>, k: nat) -> Seq<char>;

/// The level of the `k`-th headline (`Headline::level`).
pub uninterp spec fn org_level(text: Seq<char>, k: nat) -> nat;

/// Whether the `k`-th headline is commented out (`Headline::is_commented`).
pub uninterp spec fn org_commented(text: Seq<char>, k: nat) -> bool;

/// The tags of the `k`-th headline (`Headline::tags`).
pub uninterp spec fn org_tags(text: Seq<char>, k: nat) -> Seq<Seq<char>>;

/// The byte range of the `k`-th headline, sub-headlines included
/// (`Headline::text_range`).
pub uninterp spec fn org_span(text: Seq<char>, k: nat) -> (nat, nat);

/// The tokens of the `k`-th headline's subtree: whether each is a blank
/// line, and where it ends (`descendants_with_tokens`).
pub uninterp spec fn org_tokens(text: Seq<char>, k: nat) -> Seq<(bool, nat)>;

/// The number of direct child headlines of the `k`-th headline
/// (`Headline::headlines`).
pub uninterp spec fn org_child_count(text: Seq<char>, k: nat) -> nat;

/// The number of headlines in the `k`-th headline's subtree, itself
/// included (`descendants` of its node, cast to `Headline`).
pub uninterp spec fn org_subtree_size(text: Seq<char>, k: nat) -> nat;

/// The byte range of the `k`-th headline's section and the children of the
/// section's node, each with its kind and byte range, or `None` when it has
/// no section (`Headline::section`, then `children` of its node).
pub uninterp spec fn org_section(text: Seq<char>, k: nat) -> Option<((nat, nat), Seq<(PartKind, nat, nat)>)>;

/// The byte ranges of the items of the list that is the `j`-th child of the
/// `k`-th headline's section (`List::items`).
pub uninterp spec fn org_item_spans(text: Seq<char>, k: nat, j: nat) -> Seq<(nat, nat)>;

/// The bullets of the items of that list (`ListItem::bullet`).
pub uninterp spec fn org_item_bullets(text: Seq<char>, k: nat, j: nat) -> Seq<Seq<char>>;

/// The character sequences of a sequence of strings.
pub open spec fn string_views(v: Seq<String>) -> Seq<Seq<char>> {
    v.map_values(|s: String| s@)
}

/// Tokens as plain pairs.
pub open spec fn token_views(v: Seq<TokenEnd>) -> Seq<(bool, nat)> {
    v.map_values(|t: TokenEnd| (t.blank_line, t.end as nat))
}

/// Parts as plain triples.
pub open spec fn part_views(v: Seq<PartSpan>) -> Seq<(PartKind, nat, nat)> {
    v.map_values(|p: PartSpan| (p.kind, p.start as nat, p.end as nat))
}

/// Ranges as pairs of naturals.
pub open spec fn range_views(v: Seq<(usize, usize)>) -> Seq<(nat, nat)> {
    v.map_values(|r: (usize, usize)| (r.0 as nat, r.1 as nat))
}

/// Calls `Org::parse` and counts the headlines that `descendants` of the
/// document node yields.
#[verifier::external_body]
pub(crate) fn headline_count(text: &str) -> (r: usize)
    ensures
        r as nat == org_headline_count(text@),
{
    Org::parse(text).document().syntax().descendants().filter_map(Headline::cast).count()
}

/// Calls `Headline::title_raw` on the `k`-th headline.
#[verifier::external_body]
pub(crate) fn headline_title(text: &str, k: usize) -> (r: String)
    requires
        k < org_headline_count(text@),
    ensures
        r@ == org_title(text@, k as nat),
{
    let org = Org::parse(text);
    let h = org.document().syntax().descendants().filter_map(Headline::cast).nth(k).unwrap();
    h.title_raw()
}

/// Calls `Headline::level` on the `k`-th headline.  The level counts the
/// leading stars, at least one and followed by a space, all within the
/// headline's range.
#[verifier::external_body]
pub(crate) fn headline_level(text: &str, k: usize) -> (r: usize)
    requires
        k < org_headline_count(text@),
    ensures
        r as nat == org_level(text@, k as nat),
        1 <= r,
        r + org_span(text@, k as nat).0 < org_span(text@, k as nat).1,
{
    let org = Org::parse(text);
    let h = org.document().syntax().descendants().filter_map(Headline::cast).nth(k).unwrap();
    h.level()
}

/// Calls `Headline::is_commented` on the `k`-th headline.
#[verifier::external_body]
pub(crate) fn headline_commented(text: &str, k: usize) -> (r: bool)
    requires
        k < org_headline_count(text@),
    ensures
        r == org_commented(text@, k as nat),
{
    let org = Org::parse(text);
    let h = org.document().syntax().descendants().filter_map(Headline::cast).nth(k).unwrap();
    h.is_commented()
}

/// Calls `Headline::tags` on the `k`-th headline, each tag as text.
#[verifier::external_body]
pub(crate) fn headline_tags(text: &str, k: usize) -> (r: Vec<String>)
    requires
        k < org_headline_count(text@),
    ensures
        string_views(r@) == org_tags(text@, k as nat),
{
    let org = Org::parse(text);
    let h = org.document().syntax().descendants().filter_map(Headline::cast).nth(k).unwrap();
    h.tags().map(|t| t.to_string()).collect()
}

/// Calls `Headline::text_range` on the `k`-th headline: a range of whole
/// characters of the text.
#[verifier::external_body]
pub(crate) fn headline_span(text: &str, k: usize) -> (r: (usize, usize))
    requires
        k < org_headline_count(text@),
    ensures
        (r.0 as nat, r.1 as nat) == org_span(text@, k as nat),
        is_char_range(text@, r.0 as int, r.1 as int),
{
    let org = Org::parse(text);
    let h = org.document().syntax().descendants().filter_map(Headline::cast).nth(k).unwrap();
    (usize::from(h.start()), usize::from(h.end()))
}

/// Calls `descendants_with_tokens` on the `k`-th headline's node and keeps
/// its tokens: whether each is a `BLANK_LINE`, and where it ends.  Each
/// token ends on a character boundary within the headline's range.  The
/// syntax tree is lossless, so a node's text is its tokens' text in
/// document order: the tokens tile the headline's range, their ends never
/// decrease, and the last one (there is one: the stars) ends where the
/// headline ends.
#[verifier::external_body]
pub(crate) fn headline_tokens(text: &str, k: usize) -> (r: Vec<TokenEnd>)
    requires
        k < org_headline_count(text@),
    ensures
        token_views(r@) == org_tokens(text@, k as nat),
        r@.len() > 0,
        r@.last().end == org_span(text@, k as nat).1,
        forall|i: int, j: int| 0 <= i <= j < r@.len() ==> (#[trigger] r@[i]).end <= (#[trigger] r@[j]).end,
        forall|i: int|
            0 <= i < r@.len() ==> {
                &&& org_span(text@, k as nat).0 <= (#[trigger] r@[i]).end <= org_span(
                    text@,
                    k as nat,
                ).1
                &&& is_char_boundary(utf8(text@), r@[i].end as int)
            },
{
    let org = Org::parse(text);
    let h = org.document().syntax().descendants().filter_map(Headline::cast).nth(k).unwrap();
    h.syntax().descendants_with_tokens().filter_map(|e| e.into_token()).map(|t| TokenEnd {
        blank_line: t.kind() == SyntaxKind::BLANK_LINE,
        end: usize::from(t.text_range().end()),
    }).collect()
}

/// Calls `Headline::headlines` on the `k`-th headline and counts them.
#[verifier::external_body]
pub(crate) fn headline_child_count(text: &str, k: usize) -> (r: usize)
    requires
        k < org_headline_count(text@),
    ensures
        r as nat == org_child_count(text@, k as nat),
{
    let org = Org::parse(text);
    let h = org.document().syntax().descendants().filter_map(Headline::cast).nth(k).unwrap();
    h.headlines().count()
}

/// Counts the headlines among `descendants` of the `k`-th headline's node:
/// itself and the headlines that follow it in its subtree, which are the
/// next ones in document order.  Being descendants of its node, their
/// ranges lie within its range.
#[verifier::external_body]
pub(crate) fn headline_subtree_size(text: &str, k: usize) -> (r: usize)
    requires
        k < org_headline_count(text@),
    ensures
        r as nat == org_subtree_size(text@, k as nat),
        1 <= r,
        k + r <= org_headline_count(text@),
        forall|j: nat|
            k <= j < k + r ==> org_span(text@, k as nat).0 <= (#[trigger] org_span(text@, j)).0
                && org_span(text@, j).1 <= org_span(text@, k as nat).1,
{
    let org = Org::parse(text);
    let h = org.document().syntax().descendants().filter_map(Headline::cast).nth(k).unwrap();
    h.syntax().descendants().filter_map(Headline::cast).count()
}

/// Calls `Headline::section` on the `k`-th headline and reports the
/// section's range and the children of its node: lists, paragraphs and
/// anything else, each with its range.  Every range is a range of whole
/// characters of the text, and the children, being descendants of the
/// headline's node, lie within the headline's range.
#[verifier::external_body]
pub(crate) fn section_parts(text: &str, k: usize) -> (r: Option<((usize, usize), Vec<PartSpan>)>)
    requires
        k < org_headline_count(text@),
    ensures
        match r {
            Some((span, v)) => org_section(text@, k as nat) == Some(
                ((span.0 as nat, span.1 as nat), part_views(v@)),
            ),
            None => org_section(text@, k as nat) is None,
        },
        r matches Some((span, v)) ==> {
            &&& is_char_range(text@, span.0 as int, span.1 as int)
            &&& forall|i: int|
                0 <= i < v@.len() ==> is_char_range(
                    text@,
                    (#[trigger] v@[i]).start as int,
                    v@[i].end as int,
                )
            &&& forall|i: int|
                0 <= i < v@.len() ==> org_span(text@, k as nat).0 <= (#[trigger] v@[i]).start
                    && v@[i].end <= org_span(text@, k as nat).1
        },
{
    let org = Org::parse(text);
    let h = org.document().syntax().descendants().filter_map(Headline::cast).nth(k).unwrap();
    h.section().map(|s| ((usize::from(s.start()), usize::from(s.end())), s.syntax().children().map(|c| PartSpan {
        kind: match c.kind() {
            SyntaxKind::LIST => PartKind::List,
            SyntaxKind::PARAGRAPH => PartKind::Paragraph,
            _ => PartKind::Other,
        },
        start: usize::from(c.text_range().start()),
        end: usize::from(c.text_range().end()),
    }).collect()))
}

/// Calls `List::items` on the `j`-th child of the `k`-th headline's
/// section, a list, and reports each item's range, a range of whole
/// characters of the text.
#[verifier::external_body]
pub(crate) fn list_item_spans(text: &str, k: usize, j: usize) -> (r: Vec<(usize, usize)>)
    requires
        k < org_headline_count(text@),
        org_section(text@, k as nat) matches Some((_, parts)) && j < parts.len() && parts[j as int].0
            == PartKind::List,
    ensures
        range_views(r@) == org_item_spans(text@, k as nat, j as nat),
        forall|i: int|
            0 <= i < r@.len() ==> is_char_range(
                text@,
                (#[trigger] r@[i]).0 as int,
                r@[i].1 as int,
            ),
{
    let org = Org::parse(text);
    let h = org.document().syntax().descendants().filter_map(Headline::cast).nth(k).unwrap();
    let list = List::cast(h.section().unwrap().syntax().children().nth(j).unwrap()).unwrap();
    list.items().map(|i| (usize::from(i.start()), usize::from(i.end()))).collect()
}

/// Calls `ListItem::bullet` on each item of that list.  `bullet` expects
/// the item to hold a bullet token, which every item orgize's parser
/// builds does.
#[verifier::external_body]
pub(crate) fn list_item_bullets(text: &str, k: usize, j: usize) -> (r: Vec<String>)
    requires
        k < org_headline_count(text@),
        org_section(text@, k as nat) matches Some((_, parts)) && j < parts.len() && parts[j as int].0
            == PartKind::List,
    ensures
        string_views(r@) == org_item_bullets(text@, k as nat, j as nat),
        r@.len() == org_item_spans(text@, k as nat, j as nat).len(),
{
    let org = Org::parse(text);
    let h = org.document().syntax().descendants().filter_map(Headline::cast).nth(k).unwrap();
    let list = List::cast(h.section().unwrap().syntax().children().nth(j).unwrap()).unwrap();
    list.items().map(|i| i.bullet().to_string()).collect()
}

} // verus!
