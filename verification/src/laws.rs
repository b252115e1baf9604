//! Properties of the roller that relate its operations to one another, to
//! the text they change, or hold of every input.

use vstd::prelude::*;

use crate::outline::{
    all_fit, content_end, last_content_end, reads_outline, token_start, tree_fits, Heading, Item,
    Outline, Part, TokenEnd,
};
use crate::roller::{
    additions_spec, any_content, child_titled, drill, find_section_spec, first_list,
    has_content, insert_outcome, insert_overflows, insert_spec, inserted_on_text, item_line,
    kept_subs, lemma_child_fits, lemma_child_titled_member, lemma_first_list_boundary,
    lemma_found_section_fits, max_bullet, new_block, ready_on_text, ready_spec, roll_spec,
    rolled_block, rolled_on_text, search_heading, search_headings, section_visible,
    title_matches, additions_on_texts, entry, is_shown, item_entries, part_entries,
    parts_entries, section_entries, visible, visible_subs, first_list_in,
};
use crate::logging::{log_format_named, log_level_named, LogFormat, LogLevel};
use crate::outline::{lemma_all_fit_each, lemma_outlines_same};
use crate::congruence::{
    lemma_find_same, lemma_insert_same, lemma_ready_same, lemma_rolled_block_same,
    lemma_section_visible_same,
};
use crate::text::{
    bullet_number_spec, is_digit, is_white_space, lemma_boundary_in_range,
    lemma_bullet_reads_decimal, splice_spec, trim_end_spec, utf8,
};

verus! {

/// A changelog compared with itself has no additions, whatever the path.
pub proof fn lemma_no_additions_against_itself(o: Outline, path: Seq<Seq<char>>)
    ensures
        !additions_spec(o, o, path),
{
    let v = section_visible(o, path);
    assert forall|i: int| 0 <= i < v.len() implies v.contains(#[trigger] v[i]) by {}
}

/// When every visible entry of `head` under `path` is already visible in
/// `base`, `head` has no additions.
pub proof fn lemma_no_additions_when_covered(base: Outline, head: Outline, path: Seq<Seq<char>>)
    requires
        forall|i: int|
            0 <= i < section_visible(head, path).len() ==> section_visible(base, path).contains(
                #[trigger] section_visible(head, path)[i],
            ),
    ensures
        !additions_spec(base, head, path),
{
}

/// A section that does not exist in `head` has no additions there.
pub proof fn lemma_no_additions_without_section(base: Outline, head: Outline, path: Seq<Seq<char>>)
    requires
        find_section_spec(head, path) is Err,
    ensures
        !additions_spec(base, head, path),
{
}

/// An empty path names no section: every operation reports a missing
/// heading with an empty name.
pub proof fn lemma_empty_path_not_found(
    t: Seq<char>,
    o: Outline,
    version: Seq<char>,
    heading: Seq<char>,
    body: Seq<char>,
)
    ensures
        find_section_spec(o, seq![]) == Err::<Heading, Seq<char>>(seq![]),
        ready_spec(o, seq![]) == Err::<bool, Seq<char>>(seq![]),
        roll_spec(t, o, version, seq![]) == Err::<Seq<u8>, Seq<char>>(seq![]),
        insert_spec(t, o, seq![], heading, body) == Err::<Seq<u8>, Seq<char>>(seq![]),
{
}

/// `is_ready_to_roll`, `roll` and `insert_item` agree on whether the section
/// at `path` exists, and when it does not, name the same missing heading.
pub proof fn lemma_operations_agree_on_missing_heading(
    t: Seq<char>,
    o: Outline,
    path: Seq<Seq<char>>,
    version: Seq<char>,
    heading: Seq<char>,
    body: Seq<char>,
)
    ensures
        ready_spec(o, path) is Err <==> roll_spec(t, o, version, path) is Err,
        roll_spec(t, o, version, path) is Err <==> insert_spec(t, o, path, heading, body) is Err,
        find_section_spec(o, path) matches Err(e) ==> {
            &&& ready_spec(o, path) == Err::<bool, Seq<char>>(e)
            &&& roll_spec(t, o, version, path) == Err::<Seq<u8>, Seq<char>>(e)
            &&& insert_spec(t, o, path, heading, body) == Err::<Seq<u8>, Seq<char>>(e)
        },
{
}

proof fn lemma_search_heading_titled(h: Heading, target: Seq<char>)
    ensures
        search_heading(h, target) matches Some(x) ==> title_matches(x, target),
    decreases h,
{
    if !title_matches(h, target) {
        lemma_search_headings_titled(h.subs@, target);
    }
}

proof fn lemma_search_headings_titled(hs: Seq<Heading>, target: Seq<char>)
    ensures
        search_headings(hs, target) matches Some(x) ==> title_matches(x, target),
    decreases hs,
{
    if hs.len() > 0 {
        lemma_search_heading_titled(hs[0], target);
        lemma_search_headings_titled(hs.drop_first(), target);
    }
}

proof fn lemma_child_titled(hs: Seq<Heading>, target: Seq<char>)
    ensures
        child_titled(hs, target) matches Some(x) ==> title_matches(x, target),
    decreases hs.len(),
{
    if hs.len() > 0 && !title_matches(hs[0], target) {
        lemma_child_titled(hs.drop_first(), target);
    }
}

proof fn lemma_drill_titled(cur: Heading, rest: Seq<Seq<char>>, last: Seq<char>)
    requires
        rest.len() == 0 ==> title_matches(cur, last),
        rest.len() > 0 ==> rest.last() == last,
    ensures
        drill(cur, rest) matches Ok(x) ==> title_matches(x, last),
    decreases rest.len(),
{
    if rest.len() > 0 {
        lemma_child_titled(cur.subs@, rest[0]);
        match child_titled(cur.subs@, rest[0]) {
            Some(c) => {
                if rest.len() > 1 {
                    assert(rest.drop_first().last() == rest.last());
                }
                lemma_drill_titled(c, rest.drop_first(), last);
            },
            None => {},
        }
    }
}

/// The section that a path names carries the title of the path's last
/// segment.
pub proof fn lemma_found_section_titled(o: Outline, path: Seq<Seq<char>>)
    ensures
        find_section_spec(o, path) matches Ok(s) ==> title_matches(s, path.last()),
{
    if path.len() > 0 {
        lemma_search_headings_titled(o.headings@, path[0]);
        match search_headings(o.headings@, path[0]) {
            Some(root) => {
                if path.len() > 1 {
                    assert(path.drop_first().last() == path.last());
                }
                lemma_drill_titled(root, path.drop_first(), path.last());
            },
            None => {},
        }
    }
}

/// The subsections that rolling keeps under the new version are exactly
/// those with content, in the order they had; some are kept exactly when
/// some subsection has content.
pub proof fn lemma_kept_subs_have_content(subs: Seq<Heading>)
    ensures
        forall|k: int|
            0 <= k < kept_subs(subs).len() ==> has_content(#[trigger] kept_subs(subs)[k]),
        forall|i: int|
            0 <= i < subs.len() && has_content(#[trigger] subs[i]) ==> kept_subs(subs).contains(
                subs[i],
            ),
        kept_subs(subs).len() <= subs.len(),
        kept_subs(subs).len() > 0 <==> any_content(subs),
    decreases subs.len(),
{
    if subs.len() > 0 {
        let init = subs.drop_last();
        lemma_kept_subs_have_content(init);
        assert forall|i: int|
            0 <= i < subs.len() && has_content(#[trigger] subs[i]) implies kept_subs(
                subs,
            ).contains(subs[i]) by {
            if i < subs.len() - 1 {
                assert(init[i] == subs[i]);
                let j: int = choose|j: int|
                    0 <= j < kept_subs(init).len() && kept_subs(init)[j] == init[i];
                assert(kept_subs(subs)[j] == subs[i]);
            } else {
                assert(kept_subs(subs).last() == subs[i]);
            }
        }
    }
}

/// The changelog is ready to roll exactly when rolling it keeps at least one
/// subsection under the new version.
pub proof fn lemma_ready_iff_roll_keeps_a_subsection(o: Outline, path: Seq<Seq<char>>)
    ensures
        ready_spec(o, path) == Ok::<bool, Seq<char>>(true) <==> (find_section_spec(o, path) matches Ok(
            s,
        ) && kept_subs(s.subs@).len() > 0),
{
    match find_section_spec(o, path) {
        Ok(s) => {
            lemma_kept_subs_have_content(s.subs@);
        },
        Err(_) => {},
    }
}

/// An inserted item is numbered above every numbered item of its list.
pub proof fn lemma_inserted_number_is_largest(items: Seq<Item>)
    ensures
        forall|i: int|
            0 <= i < items.len() ==> match bullet_number_spec((#[trigger] items[i]).bullet@) {
                Some(n) => n < max_bullet(items) + 1,
                None => true,
            },
    decreases items.len(),
{
    if items.len() > 0 {
        lemma_inserted_number_is_largest(items.drop_last());
        assert forall|i: int| 0 <= i < items.len() implies match bullet_number_spec(
            (#[trigger] items[i]).bullet@,
        ) {
            Some(n) => n < max_bullet(items) + 1,
            None => true,
        } by {
            if i < items.len() - 1 {
                assert(items.drop_last()[i] == items[i]);
            }
        }
    }
}

/// The bullet of an item that `insert_item` writes numbered `n` reads back
/// as `n`.
pub proof fn lemma_item_bullet_reads_back(n: u32, body: Seq<char>)
    ensures
        bullet_number_spec(item_line(n as nat, body)) == Some(n),
{
    let rest = seq!['.', ' '] + body + seq!['\n'];
    assert(!is_digit(rest[0]));
    lemma_bullet_reads_decimal(n, rest);
    assert(item_line(n as nat, body) =~= crate::text::decimal(n as nat) + rest);
}

/// Splicing leaves the text before and after the replaced range as it was.
pub proof fn lemma_splice_keeps_outside(t: Seq<u8>, start: int, end: int, ins: Seq<u8>)
    requires
        0 <= start <= end <= t.len(),
    ensures
        splice_spec(t, start, end, ins).take(start) == t.take(start),
        splice_spec(t, start, end, ins).skip(start + ins.len()) == t.skip(end),
        splice_spec(t, start, end, ins).subrange(start, start + ins.len()) == ins,
{
    let r = splice_spec(t, start, end, ins);
    assert(r.take(start) =~= t.take(start));
    assert(r.skip(start + ins.len()) =~= t.skip(end));
    assert(r.subrange(start, start + ins.len()) =~= ins);
}

/// One more drill step below the section a path names.
pub open spec fn drill_step(found: Result<Heading, Seq<char>>, segment: Seq<char>) -> Result<
    Heading,
    Seq<char>,
> {
    match found {
        Ok(s) => match child_titled(s.subs@, segment) {
            Some(c) => Ok(c),
            None => Err(segment),
        },
        Err(e) => Err(e),
    }
}

proof fn lemma_drill_push(cur: Heading, rest: Seq<Seq<char>>, segment: Seq<char>)
    ensures
        drill(cur, rest.push(segment)) == drill_step(drill(cur, rest), segment),
    decreases rest.len(),
{
    let longer = rest.push(segment);
    if rest.len() == 0 {
        assert(longer[0] == segment);
        assert(longer.drop_first().len() == 0);
        match child_titled(cur.subs@, segment) {
            Some(c) => {
                assert(drill(c, longer.drop_first()) == Ok::<Heading, Seq<char>>(c));
            },
            None => {},
        }
    } else {
        assert(longer[0] == rest[0]);
        assert(longer.drop_first() =~= rest.drop_first().push(segment));
        match child_titled(cur.subs@, rest[0]) {
            Some(c) => {
                lemma_drill_push(c, rest.drop_first(), segment);
            },
            None => {},
        }
    }
}

/// Extending a path by a segment drills one level further: the section it
/// names is the direct child of the section the shorter path names whose
/// title is that segment, and a missing child is reported by that segment.
pub proof fn lemma_path_extension_drills_into_children(
    o: Outline,
    path: Seq<Seq<char>>,
    segment: Seq<char>,
)
    requires
        path.len() > 0,
    ensures
        find_section_spec(o, path.push(segment)) == drill_step(find_section_spec(o, path), segment),
{
    let longer = path.push(segment);
    assert(longer[0] == path[0]);
    assert(longer.drop_first() =~= path.drop_first().push(segment));
    match search_headings(o.headings@, path[0]) {
        Some(root) => {
            lemma_drill_push(root, path.drop_first(), segment);
        },
        None => {},
    }
}

proof fn lemma_last_content_end_shape(tokens: Seq<TokenEnd>, end: nat)
    ensures
        (forall|i: int| 0 <= i < tokens.len() ==> (#[trigger] tokens[i]).blank_line)
            ==> last_content_end(tokens, end) == end,
        (exists|i: int| 0 <= i < tokens.len() && !(#[trigger] tokens[i]).blank_line) ==> exists|
            j: int,
        |
            0 <= j < tokens.len() && !(#[trigger] tokens[j]).blank_line && last_content_end(
                tokens,
                end,
            ) == tokens[j].end && forall|i: int|
                j < i < tokens.len() ==> (#[trigger] tokens[i]).blank_line,
    decreases tokens.len(),
{
    if tokens.len() > 0 {
        let init = tokens.drop_last();
        let n = tokens.len() - 1;
        lemma_last_content_end_shape(init, end);
        assert forall|i: int| 0 <= i < n implies init[i] == tokens[i] by {}
        if !tokens[n].blank_line {
            assert(tokens.last() == tokens[n]);
            assert(!tokens[n].blank_line && last_content_end(tokens, end) == tokens[n].end);
        } else {
            assert(tokens.last() == tokens[n]);
            if forall|i: int| 0 <= i < tokens.len() ==> (#[trigger] tokens[i]).blank_line {
                assert forall|i: int| 0 <= i < init.len() implies (#[trigger] init[i]).blank_line by {
                    assert(init[i] == tokens[i]);
                }
            }
            if exists|i: int| 0 <= i < tokens.len() && !(#[trigger] tokens[i]).blank_line {
                let i0 = choose|i: int| 0 <= i < tokens.len() && !(#[trigger] tokens[i]).blank_line;
                assert(init[i0] == tokens[i0]);
                assert(!init[i0].blank_line);
                let j = choose|j: int|
                    0 <= j < init.len() && !(#[trigger] init[j]).blank_line && last_content_end(
                        init,
                        end,
                    ) == init[j].end && forall|i: int|
                        j < i < init.len() ==> (#[trigger] init[i]).blank_line;
                assert(tokens[j] == init[j]);
                assert forall|i: int| j < i < tokens.len() implies (#[trigger] tokens[i]).blank_line by {
                    if i < n {
                        assert(init[i] == tokens[i]);
                    }
                }
            }
        }
    }
}

/// Where the content of a headline ends lies within the headline; every
/// token after it is a blank line, and it is the headline's end when every
/// token is a blank line.  Since the tokens tile the headline's span, the
/// text from the content end to the headline's end is made of blank-line
/// tokens only: every non-empty token that starts at or after the content
/// end is a blank line.
pub proof fn lemma_content_end_within_headline(h: Heading, t: Seq<char>)
    requires
        tree_fits(h, t),
    ensures
        h.start <= content_end(h) <= h.end,
        h.tokens@.len() > 0 && h.tokens@.last().end == h.end,
        forall|i: int|
            0 <= i < h.tokens@.len() && content_end(h) <= token_start(h, i) < (
            #[trigger] h.tokens@[i]).end ==> h.tokens@[i].blank_line,
        (forall|i: int| 0 <= i < h.tokens@.len() ==> (#[trigger] h.tokens@[i]).blank_line)
            ==> content_end(h) == h.end,
        (exists|i: int| 0 <= i < h.tokens@.len() && !(#[trigger] h.tokens@[i]).blank_line)
            ==> exists|j: int|
            0 <= j < h.tokens@.len() && !(#[trigger] h.tokens@[j]).blank_line && content_end(h)
                == h.tokens@[j].end && forall|i: int|
                j < i < h.tokens@.len() ==> (#[trigger] h.tokens@[i]).blank_line,
{
    let toks = h.tokens@;
    lemma_last_content_end_shape(toks, h.end as nat);
    assert forall|i: int|
        0 <= i < toks.len() && content_end(h) <= token_start(h, i) < (
        #[trigger] toks[i]).end implies toks[i].blank_line by {
        if !toks[i].blank_line {
            let j = choose|j: int|
                0 <= j < toks.len() && !(#[trigger] toks[j]).blank_line && last_content_end(
                    toks,
                    h.end as nat,
                ) == toks[j].end && forall|k: int| j < k < toks.len() ==> (#[trigger] toks[k]).blank_line;
            assert(i <= j);
            assert(toks[i].end <= toks[j].end);
        }
    }
}

/// Rolling changes a text only within the span of the section that the
/// path names, in the text's outline: the bytes before and after the span
/// are kept, and the span, which holds the section's text, is replaced by
/// the rolled block.
pub proof fn lemma_roll_replaces_the_section(
    t: Seq<char>,
    version: Seq<char>,
    path: Seq<Seq<char>>,
    u: Seq<u8>,
)
    requires
        rolled_on_text(t, version, path, Ok(u)),
    ensures
        exists|o: Outline|
            #[trigger] reads_outline(o, t) && (find_section_spec(o, path) matches Ok(s) && {
                &&& s.start <= s.end <= utf8(t).len()
                &&& utf8(s.raw@) == utf8(t).subrange(s.start as int, s.end as int)
                &&& u == utf8(t).take(s.start as int) + utf8(rolled_block(s, version)) + utf8(
                    t,
                ).skip(s.end as int)
            }),
{
    let o = choose|o: Outline|
        #[trigger] reads_outline(o, t) && all_fit(o.headings@, t) && roll_spec(t, o, version, path)
            == Ok::<Seq<u8>, Seq<char>>(u);
    lemma_found_section_fits(o, path, t);
    match find_section_spec(o, path) {
        Ok(s) => {
            lemma_boundary_in_range(t, s.end as int);
            assert(reads_outline(o, t));
        },
        Err(_) => {},
    }
}

/// What inserting into the section `s` writes: the next numbered item for
/// an existing child, or a new child holding the item.
pub open spec fn inserted_piece(s: Heading, heading: Seq<char>, body: Seq<char>) -> Seq<char> {
    match child_titled(s.subs@, heading) {
        Some(c) => match first_list(c.section) {
            Some(l) => item_line(max_bullet(l.items@) + 1, body),
            None => item_line(1, body),
        },
        None => new_block(s.level as nat, heading, body),
    }
}

/// Inserting writes one piece at one position of the text, within the span
/// of the section that the path names in the text's outline, and within the
/// span of the child titled `heading` where there is one; the text is
/// returned unchanged only where the next number would not fit a `u32`.
pub proof fn lemma_insert_places_the_item(
    t: Seq<char>,
    path: Seq<Seq<char>>,
    heading: Seq<char>,
    body: Seq<char>,
    u: Seq<u8>,
)
    requires
        inserted_on_text(t, path, heading, body, Ok(u)),
    ensures
        exists|o: Outline|
            #[trigger] reads_outline(o, t) && (find_section_spec(o, path) matches Ok(s) && if insert_overflows(s, heading) {
                u == utf8(t)
            } else {
                exists|i: int|
                    s.start <= i <= s.end && (child_titled(s.subs@, heading) matches Some(c)
                        ==> c.start <= i <= c.end) && u == #[trigger] splice_spec(
                        utf8(t),
                        i,
                        i,
                        utf8(inserted_piece(s, heading, body)),
                    )
            }),
{
    let o = choose|o: Outline|
        #[trigger] reads_outline(o, t) && all_fit(o.headings@, t) && insert_outcome(
            t,
            o,
            path,
            heading,
            body,
            Ok::<Seq<u8>, Seq<char>>(u),
        );
    lemma_found_section_fits(o, path, t);
    match find_section_spec(o, path) {
        Ok(s) => {
            assert(reads_outline(o, t));
            if !insert_overflows(s, heading) {
                let b = utf8(t);
                let piece = utf8(inserted_piece(s, heading, body));
                lemma_all_fit_each(s.subs@, t);
                lemma_child_fits(s.subs@, heading, t);
                lemma_child_titled_member(s.subs@, heading);
                match child_titled(s.subs@, heading) {
                    Some(c) => {
                        let idx = choose|idx: int| 0 <= idx < s.subs@.len() && #[trigger] s.subs@[idx] == c;
                        assert(s.start <= s.subs@[idx].start && s.subs@[idx].end <= s.end);
                        match first_list(c.section) {
                            Some(l) => {
                                match c.section {
                                    Some(sec) => lemma_first_list_boundary(
                                        sec.parts@,
                                        t,
                                        c.start as int,
                                        c.end as int,
                                    ),
                                    None => {},
                                }
                                let i = l.end as int;
                                assert(u == splice_spec(b, i, i, piece));
                            },
                            None => {
                                let i = c.end as int;
                                assert(u == splice_spec(b, i, i, piece));
                            },
                        }
                    },
                    None => {
                        if s.subs@.len() > 0 {
                            let last = s.subs@.last();
                            assert(last == s.subs@[s.subs@.len() - 1]);
                            assert(tree_fits(last, t));
                            let ls = last.start as int;
                            let le = last.end as int;
                            let ce = content_end(last) as int;
                            lemma_boundary_in_range(t, le);
                            assert(utf8(last.raw@) == b.subrange(ls, le));
                            let raw = utf8(last.raw@);
                            let split = ce - ls;
                            assert(raw.take(split) =~= b.subrange(ls, ce));
                            assert(raw.skip(split) =~= b.subrange(ce, le));
                            assert(b.take(ls) + (raw.take(split) + piece + raw.skip(split)) + b.skip(le)
                                =~= b.take(ce) + piece + b.skip(ce));
                            assert(u == splice_spec(b, ce, ce, piece));
                        } else {
                            let i = s.end as int;
                            assert(u == splice_spec(b, i, i, piece));
                        }
                    },
                }
            }
        },
        Err(_) => {},
    }
}

/// A text has one readiness answer: whatever outline of it is read, the
/// answer under a path is the same, so `is_ready_to_roll` and the
/// `ready_to_roll` operation give the same answer for the same text.
pub proof fn lemma_readiness_is_determined(
    t: Seq<char>,
    path: Seq<Seq<char>>,
    x: Result<bool, Seq<char>>,
    y: Result<bool, Seq<char>>,
)
    requires
        ready_on_text(t, path, x),
        ready_on_text(t, path, y),
    ensures
        x == y,
{
    let o1 = choose|o: Outline| #[trigger] reads_outline(o, t) && ready_spec(o, path) == x;
    let o2 = choose|o: Outline| #[trigger] reads_outline(o, t) && ready_spec(o, path) == y;
    lemma_outlines_same(o1, o2, t);
    lemma_ready_same(o1, o2, path);
}

/// Two texts have one additions answer under a path, so
/// `has_section_additions` and the `check_additions` operation agree.
pub proof fn lemma_additions_are_determined(
    base: Seq<char>,
    head: Seq<char>,
    path: Seq<Seq<char>>,
    x: bool,
    y: bool,
)
    requires
        additions_on_texts(base, head, path, x),
        additions_on_texts(base, head, path, y),
    ensures
        x == y,
{
    let (b1, h1) = choose|bo: Outline, ho: Outline|
        #[trigger] reads_outline(bo, base) && #[trigger] reads_outline(ho, head) && additions_spec(
            bo,
            ho,
            path,
        ) == x;
    let (b2, h2) = choose|bo: Outline, ho: Outline|
        #[trigger] reads_outline(bo, base) && #[trigger] reads_outline(ho, head) && additions_spec(
            bo,
            ho,
            path,
        ) == y;
    lemma_outlines_same(b1, b2, base);
    lemma_outlines_same(h1, h2, head);
    lemma_section_visible_same(b1, b2, path);
    lemma_section_visible_same(h1, h2, path);
}

/// A text rolls to one result, so `roll` and the `roll` operation agree.
pub proof fn lemma_rolled_text_is_determined(
    t: Seq<char>,
    version: Seq<char>,
    path: Seq<Seq<char>>,
    x: Result<Seq<u8>, Seq<char>>,
    y: Result<Seq<u8>, Seq<char>>,
)
    requires
        rolled_on_text(t, version, path, x),
        rolled_on_text(t, version, path, y),
    ensures
        x == y,
{
    let o1 = choose|o: Outline|
        #[trigger] reads_outline(o, t) && all_fit(o.headings@, t) && roll_spec(t, o, version, path)
            == x;
    let o2 = choose|o: Outline|
        #[trigger] reads_outline(o, t) && all_fit(o.headings@, t) && roll_spec(t, o, version, path)
            == y;
    lemma_outlines_same(o1, o2, t);
    lemma_find_same(o1, o2, path);
    match find_section_spec(o1, path) {
        Ok(s1) => {
            lemma_rolled_block_same(s1, find_section_spec(o2, path)->Ok_0, version);
        },
        Err(_) => {},
    }
}

/// A text takes an inserted item in one way, so `insert_item` and the
/// `insert_item` operation agree.
pub proof fn lemma_inserted_text_is_determined(
    t: Seq<char>,
    path: Seq<Seq<char>>,
    heading: Seq<char>,
    body: Seq<char>,
    x: Result<Seq<u8>, Seq<char>>,
    y: Result<Seq<u8>, Seq<char>>,
)
    requires
        inserted_on_text(t, path, heading, body, x),
        inserted_on_text(t, path, heading, body, y),
    ensures
        x == y,
{
    let o1 = choose|o: Outline|
        #[trigger] reads_outline(o, t) && all_fit(o.headings@, t) && insert_outcome(
            t,
            o,
            path,
            heading,
            body,
            x,
        );
    let o2 = choose|o: Outline|
        #[trigger] reads_outline(o, t) && all_fit(o.headings@, t) && insert_outcome(
            t,
            o,
            path,
            heading,
            body,
            y,
        );
    lemma_outlines_same(o1, o2, t);
    lemma_find_same(o1, o2, path);
    match find_section_spec(o1, path) {
        Ok(s1) => {
            lemma_insert_same(t, s1, find_section_spec(o2, path)->Ok_0, heading, body);
        },
        Err(_) => {},
    }
}

/// Every entry is non-empty and has no trailing white space.
pub open spec fn clean_entries(v: Seq<Seq<char>>) -> bool {
    forall|i: int| 0 <= i < v.len() ==> (#[trigger] v[i]).len() > 0 && trim_end_spec(v[i]) == v[i]
}

proof fn lemma_trim_end_fixed(s: Seq<char>)
    ensures
        trim_end_spec(trim_end_spec(s)) == trim_end_spec(s),
    decreases s.len(),
{
    if s.len() > 0 && is_white_space(s.last()) {
        lemma_trim_end_fixed(s.drop_last());
    }
}

proof fn lemma_concat_clean(a: Seq<Seq<char>>, b: Seq<Seq<char>>)
    requires
        clean_entries(a),
        clean_entries(b),
    ensures
        clean_entries(a + b),
{
    assert forall|i: int| 0 <= i < (a + b).len() implies (#[trigger] (a + b)[i]).len() > 0
        && trim_end_spec((a + b)[i]) == (a + b)[i] by {
        if i < a.len() {
            assert((a + b)[i] == a[i]);
        } else {
            assert((a + b)[i] == b[i - a.len()]);
        }
    }
}

proof fn lemma_entry_clean(x: Seq<char>)
    ensures
        clean_entries(entry(trim_end_spec(x))),
{
    lemma_trim_end_fixed(x);
}

proof fn lemma_item_entries_clean(items: Seq<Item>)
    ensures
        clean_entries(item_entries(items)),
    decreases items.len(),
{
    if items.len() > 0 {
        lemma_item_entries_clean(items.drop_last());
        lemma_entry_clean(items.last().raw@);
        lemma_concat_clean(
            item_entries(items.drop_last()),
            entry(trim_end_spec(items.last().raw@)),
        );
    }
}

proof fn lemma_parts_entries_clean(ps: Seq<Part>)
    ensures
        clean_entries(parts_entries(ps)),
    decreases ps.len(),
{
    if ps.len() > 0 {
        lemma_parts_entries_clean(ps.drop_last());
        match ps.last() {
            Part::List(l) => lemma_item_entries_clean(l.items@),
            Part::Paragraph(p) => lemma_entry_clean(p@),
            Part::Other => {},
        }
        lemma_concat_clean(parts_entries(ps.drop_last()), part_entries(ps.last()));
    }
}

proof fn lemma_visible_clean(h: Heading)
    ensures
        clean_entries(visible(h)),
    decreases h,
{
    match h.section {
        Some(sec) => lemma_parts_entries_clean(sec.parts@),
        None => {},
    }
    lemma_visible_subs_clean(h.subs@);
    lemma_concat_clean(section_entries(h.section), visible_subs(h.subs@));
}

proof fn lemma_visible_subs_clean(hs: Seq<Heading>)
    ensures
        clean_entries(visible_subs(hs)),
    decreases hs,
{
    if hs.len() > 0 {
        lemma_visible_subs_clean(hs.drop_last());
        lemma_visible_clean(hs.last());
        let last = if is_shown(hs.last()) {
            visible(hs.last())
        } else {
            seq![]
        };
        lemma_concat_clean(visible_subs(hs.drop_last()), last);
    }
}

/// Every visible entry under a path is non-empty and has no trailing white
/// space; each is the end-trimmed text of a list item or a paragraph of a
/// section outside commented and `noexport` subtrees, in document order
/// (`visible`).
pub proof fn lemma_visible_entries_are_trimmed(o: Outline, path: Seq<Seq<char>>)
    ensures
        clean_entries(section_visible(o, path)),
{
    match find_section_spec(o, path) {
        Ok(h) => lemma_visible_clean(h),
        Err(_) => {},
    }
}

/// No part of `ps` before index `j` is a list.
pub open spec fn no_list_before(ps: Seq<Part>, j: int) -> bool {
    forall|i: int| 0 <= i < j ==> !(#[trigger] ps[i] is List)
}

/// The list that inserting extends is the first child of the section that
/// is a list, wherever it stands: paragraphs and other parts before it are
/// skipped; with no list among the children there is none.
pub proof fn lemma_first_list_is_the_first_list(ps: Seq<Part>)
    ensures
        forall|j: int|
            0 <= j < ps.len() && no_list_before(ps, j) ==> ((#[trigger] ps[j]) matches Part::List(l)
                ==> first_list_in(ps) == Some(l)),
        no_list_before(ps, ps.len() as int) ==> first_list_in(ps) is None,
    decreases ps.len(),
{
    if ps.len() > 0 {
        let rest = ps.drop_first();
        lemma_first_list_is_the_first_list(rest);
        assert forall|j: int|
            0 <= j < ps.len() && no_list_before(ps, j) implies ((#[trigger] ps[j]) matches Part::List(
            l,
        ) ==> first_list_in(ps) == Some(l)) by {
            if j > 0 {
                assert(!(ps[0] is List));
                assert(rest[j - 1] == ps[j]);
                assert forall|i: int| 0 <= i < j - 1 implies !(#[trigger] rest[i] is List) by {
                    assert(rest[i] == ps[i + 1]);
                }
                assert(no_list_before(rest, j - 1));
            }
        }
        if no_list_before(ps, ps.len() as int) {
            assert(!(ps[0] is List));
            assert forall|i: int| 0 <= i < rest.len() implies !(#[trigger] rest[i] is List) by {
                assert(rest[i] == ps[i + 1]);
            }
        }
    }
}

/// A headline with a section of its own has content, whatever the section
/// holds.
pub proof fn lemma_own_section_is_content(h: Heading)
    ensures
        h.section is Some ==> has_content(h),
{
}

/// A headline among `hs` with content makes `hs` have content.
proof fn lemma_member_content(hs: Seq<Heading>, i: int)
    requires
        0 <= i < hs.len(),
        has_content(hs[i]),
    ensures
        any_content(hs),
    decreases hs.len(),
{
    if i < hs.len() - 1 {
        assert(hs.drop_last()[i] == hs[i]);
        lemma_member_content(hs.drop_last(), i);
    } else {
        assert(hs.last() == hs[i]);
    }
}

/// Rolling keeps under the new version every direct subsection that has a
/// section of its own, whatever that section holds, and the changelog is
/// then ready to roll.
pub proof fn lemma_roll_keeps_subsections_with_sections(o: Outline, path: Seq<Seq<char>>)
    ensures
        find_section_spec(o, path) matches Ok(s) ==> {
            &&& forall|i: int|
                0 <= i < s.subs@.len() && (#[trigger] s.subs@[i]).section is Some ==> kept_subs(
                    s.subs@,
                ).contains(s.subs@[i])
            &&& (exists|i: int| 0 <= i < s.subs@.len() && (#[trigger] s.subs@[i]).section is Some)
                ==> ready_spec(o, path) == Ok::<bool, Seq<char>>(true)
        },
{
    match find_section_spec(o, path) {
        Ok(s) => {
            lemma_kept_subs_have_content(s.subs@);
            if exists|i: int| 0 <= i < s.subs@.len() && (#[trigger] s.subs@[i]).section is Some {
                let i = choose|i: int| 0 <= i < s.subs@.len() && (#[trigger] s.subs@[i]).section is Some;
                lemma_member_content(s.subs@, i);
            }
        },
        Err(_) => {},
    }
}

/// A sub-headline is shown exactly when it is not commented out and none of
/// its tags, at any position, is `noexport`.
pub proof fn lemma_shown_iff_not_commented_nor_noexport(h: Heading)
    ensures
        is_shown(h) <==> (!h.commented && forall|i: int|
            0 <= i < h.tags@.len() ==> (#[trigger] h.tags@[i])@ != seq![
                'n',
                'o',
                'e',
                'x',
                'p',
                'o',
                'r',
                't',
            ]),
{
    assert(crate::roller::noexport() =~= seq!['n', 'o', 'e', 'x', 'p', 'o', 'r', 't']);
}

/// A hidden sub-headline adds nothing to the visible content, neither from
/// its own section nor from anything beneath it; a shown one adds exactly
/// its own visible content.
pub proof fn lemma_hidden_subtree_adds_nothing(hs: Seq<Heading>, h: Heading)
    ensures
        !is_shown(h) ==> visible_subs(hs.push(h)) == visible_subs(hs),
        is_shown(h) ==> visible_subs(hs.push(h)) == visible_subs(hs) + visible(h),
{
    assert(hs.push(h).drop_last() =~= hs);
    assert(hs.push(h).last() == h);
}

/// The visible content of headlines that are all hidden is empty.
pub proof fn lemma_all_hidden_shows_nothing(hs: Seq<Heading>)
    requires
        forall|i: int| 0 <= i < hs.len() ==> !is_shown(#[trigger] hs[i]),
    ensures
        visible_subs(hs) == Seq::<Seq<char>>::empty(),
    decreases hs.len(),
{
    if hs.len() > 0 {
        assert forall|i: int| 0 <= i < hs.drop_last().len() implies !is_shown(
            #[trigger] hs.drop_last()[i],
        ) by {
            assert(hs.drop_last()[i] == hs[i]);
        }
        lemma_all_hidden_shows_nothing(hs.drop_last());
        assert(!is_shown(hs[hs.len() - 1]));
        assert(visible_subs(hs) =~= Seq::<Seq<char>>::empty());
    }
}

/// The name of a log level.
pub open spec fn level_name(l: LogLevel) -> Seq<char> {
    match l {
        LogLevel::Trace => seq!['t', 'r', 'a', 'c', 'e'],
        LogLevel::Debug => seq!['d', 'e', 'b', 'u', 'g'],
        LogLevel::Info => seq!['i', 'n', 'f', 'o'],
        LogLevel::Warn => seq!['w', 'a', 'r', 'n'],
        LogLevel::Error => seq!['e', 'r', 'r', 'o', 'r'],
    }
}

/// The name of a log format.
pub open spec fn format_name(f: LogFormat) -> Seq<char> {
    match f {
        LogFormat::Text => seq!['t', 'e', 'x', 't'],
        LogFormat::Json => seq!['j', 's', 'o', 'n'],
    }
}

/// Each level's name reads as that level, and a name reads as a level only
/// when it is that level's name: the five names and the five levels match
/// one to one.
pub proof fn lemma_level_names_read_back(name: Seq<char>, l: LogLevel)
    ensures
        log_level_named(level_name(l)) == Some(l),
        log_level_named(name) == Some(l) ==> name == level_name(l),
{
    assert(seq!['t', 'r', 'a', 'c', 'e'] != seq!['d', 'e', 'b', 'u', 'g']) by {
        assert(seq!['t', 'r', 'a', 'c', 'e'][0] != seq!['d', 'e', 'b', 'u', 'g'][0]);
    }
    assert(seq!['t', 'r', 'a', 'c', 'e'] != seq!['i', 'n', 'f', 'o']) by {
        assert(seq!['t', 'r', 'a', 'c', 'e'].len() != seq!['i', 'n', 'f', 'o'].len());
    }
    assert(seq!['t', 'r', 'a', 'c', 'e'] != seq!['w', 'a', 'r', 'n']) by {
        assert(seq!['t', 'r', 'a', 'c', 'e'].len() != seq!['w', 'a', 'r', 'n'].len());
    }
    assert(seq!['t', 'r', 'a', 'c', 'e'] != seq!['e', 'r', 'r', 'o', 'r']) by {
        assert(seq!['t', 'r', 'a', 'c', 'e'][0] != seq!['e', 'r', 'r', 'o', 'r'][0]);
    }
    assert(seq!['d', 'e', 'b', 'u', 'g'] != seq!['i', 'n', 'f', 'o']) by {
        assert(seq!['d', 'e', 'b', 'u', 'g'].len() != seq!['i', 'n', 'f', 'o'].len());
    }
    assert(seq!['d', 'e', 'b', 'u', 'g'] != seq!['w', 'a', 'r', 'n']) by {
        assert(seq!['d', 'e', 'b', 'u', 'g'].len() != seq!['w', 'a', 'r', 'n'].len());
    }
    assert(seq!['d', 'e', 'b', 'u', 'g'] != seq!['e', 'r', 'r', 'o', 'r']) by {
        assert(seq!['d', 'e', 'b', 'u', 'g'][0] != seq!['e', 'r', 'r', 'o', 'r'][0]);
    }
    assert(seq!['i', 'n', 'f', 'o'] != seq!['w', 'a', 'r', 'n']) by {
        assert(seq!['i', 'n', 'f', 'o'][0] != seq!['w', 'a', 'r', 'n'][0]);
    }
    assert(seq!['i', 'n', 'f', 'o'] != seq!['e', 'r', 'r', 'o', 'r']) by {
        assert(seq!['i', 'n', 'f', 'o'].len() != seq!['e', 'r', 'r', 'o', 'r'].len());
    }
    assert(seq!['w', 'a', 'r', 'n'] != seq!['e', 'r', 'r', 'o', 'r']) by {
        assert(seq!['w', 'a', 'r', 'n'].len() != seq!['e', 'r', 'r', 'o', 'r'].len());
    }
}

/// Each format's name reads as that format, and a name reads as a format
/// only when it is that format's name.
pub proof fn lemma_format_names_read_back(name: Seq<char>, f: LogFormat)
    ensures
        log_format_named(format_name(f)) == Some(f),
        log_format_named(name) == Some(f) ==> name == format_name(f),
{
    assert(seq!['t', 'e', 'x', 't'] != seq!['j', 's', 'o', 'n']) by {
        assert(seq!['t', 'e', 'x', 't'][0] != seq!['j', 's', 'o', 'n'][0]);
    }
}

} // verus!
