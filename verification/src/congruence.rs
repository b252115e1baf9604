//! Every answer the roller gives depends only on the values an outline
//! holds: two outlines that hold the same values (`same_headings`) give the
//! same answers.  With `lemma_outlines_same`, this makes each answer a
//! function of the text alone.

use vstd::prelude::*;

use crate::outline::{
    same_heading, same_headings, same_items, same_part, same_section, Heading, Item, Outline,
    Part,
};
use crate::org_syntax::string_views;
use crate::roller::{
    any_content, child_titled, drill, find_section_spec, first_list, first_list_in,
    fresh_sub_lines, has_content, insert_bytes, insert_overflows, is_shown, item_entries,
    kept_subs, max_bullet, noexport, part_entries, parts_entries, raws, ready_spec,
    rolled_block, search_heading, search_headings, section_entries, section_text,
    section_visible, title_matches, visible, visible_subs,
};

verus! {

/// Two search results agree: both absent, or both present and the same.
pub open spec fn same_found(a: Option<Heading>, b: Option<Heading>) -> bool {
    match a {
        None => b is None,
        Some(x) => b matches Some(y) && same_heading(x, y),
    }
}

/// Two located sections agree: the same section, or the same missing
/// heading.
pub open spec fn same_located(a: Result<Heading, Seq<char>>, b: Result<Heading, Seq<char>>) -> bool {
    match a {
        Ok(x) => b matches Ok(y) && same_heading(x, y),
        Err(e) => b == Err::<Heading, Seq<char>>(e),
    }
}

proof fn lemma_drop_first_same(a: Seq<Heading>, b: Seq<Heading>)
    requires
        same_headings(a, b),
        a.len() > 0,
    ensures
        same_headings(a.drop_first(), b.drop_first()),
{
    assert forall|i: int| 0 <= i < a.drop_first().len() implies same_heading(
        #[trigger] a.drop_first()[i],
        b.drop_first()[i],
    ) by {
        assert(a.drop_first()[i] == a[i + 1]);
        assert(b.drop_first()[i] == b[i + 1]);
    }
}

proof fn lemma_drop_last_same(a: Seq<Heading>, b: Seq<Heading>)
    requires
        same_headings(a, b),
        a.len() > 0,
    ensures
        same_headings(a.drop_last(), b.drop_last()),
        same_heading(a.last(), b.last()),
{
    assert forall|i: int| 0 <= i < a.drop_last().len() implies same_heading(
        #[trigger] a.drop_last()[i],
        b.drop_last()[i],
    ) by {
        assert(a.drop_last()[i] == a[i]);
        assert(b.drop_last()[i] == b[i]);
    }
    assert(same_heading(a[a.len() - 1], b[b.len() - 1]));
}

proof fn lemma_search_same(a: Heading, b: Heading, target: Seq<char>)
    requires
        same_heading(a, b),
    ensures
        same_found(search_heading(a, target), search_heading(b, target)),
    decreases a,
{
    if !title_matches(a, target) {
        lemma_search_all_same(a.subs@, b.subs@, target);
    }
}

proof fn lemma_search_all_same(a: Seq<Heading>, b: Seq<Heading>, target: Seq<char>)
    requires
        same_headings(a, b),
    ensures
        same_found(search_headings(a, target), search_headings(b, target)),
    decreases a,
{
    if a.len() > 0 {
        lemma_search_same(a[0], b[0], target);
        lemma_drop_first_same(a, b);
        lemma_search_all_same(a.drop_first(), b.drop_first(), target);
    }
}

proof fn lemma_child_same(a: Seq<Heading>, b: Seq<Heading>, target: Seq<char>)
    requires
        same_headings(a, b),
    ensures
        same_found(child_titled(a, target), child_titled(b, target)),
    decreases a.len(),
{
    if a.len() > 0 {
        assert(same_heading(a[0], b[0]));
        lemma_drop_first_same(a, b);
        lemma_child_same(a.drop_first(), b.drop_first(), target);
    }
}

proof fn lemma_drill_same(x: Heading, y: Heading, rest: Seq<Seq<char>>)
    requires
        same_heading(x, y),
    ensures
        same_located(drill(x, rest), drill(y, rest)),
    decreases rest.len(),
{
    if rest.len() > 0 {
        lemma_child_same(x.subs@, y.subs@, rest[0]);
        match child_titled(x.subs@, rest[0]) {
            Some(c) => {
                let d = child_titled(y.subs@, rest[0])->0;
                lemma_drill_same(c, d, rest.drop_first());
            },
            None => {},
        }
    }
}

/// Outlines that hold the same headlines locate the same section.
pub proof fn lemma_find_same(o1: Outline, o2: Outline, path: Seq<Seq<char>>)
    requires
        same_headings(o1.headings@, o2.headings@),
    ensures
        same_located(find_section_spec(o1, path), find_section_spec(o2, path)),
{
    if path.len() > 0 {
        lemma_search_all_same(o1.headings@, o2.headings@, path[0]);
        match search_headings(o1.headings@, path[0]) {
            Some(r1) => {
                let r2 = search_headings(o2.headings@, path[0])->0;
                lemma_drill_same(r1, r2, path.drop_first());
            },
            None => {},
        }
    }
}

proof fn lemma_content_same(a: Heading, b: Heading)
    requires
        same_heading(a, b),
    ensures
        has_content(a) == has_content(b),
    decreases a,
{
    lemma_any_content_same(a.subs@, b.subs@);
}

proof fn lemma_any_content_same(a: Seq<Heading>, b: Seq<Heading>)
    requires
        same_headings(a, b),
    ensures
        any_content(a) == any_content(b),
    decreases a,
{
    if a.len() > 0 {
        lemma_drop_last_same(a, b);
        lemma_any_content_same(a.drop_last(), b.drop_last());
        lemma_content_same(a.last(), b.last());
    }
}

/// Outlines that hold the same headlines give the same readiness answer.
pub proof fn lemma_ready_same(o1: Outline, o2: Outline, path: Seq<Seq<char>>)
    requires
        same_headings(o1.headings@, o2.headings@),
    ensures
        ready_spec(o1, path) == ready_spec(o2, path),
{
    lemma_find_same(o1, o2, path);
    match find_section_spec(o1, path) {
        Ok(s1) => {
            let s2 = find_section_spec(o2, path)->Ok_0;
            lemma_any_content_same(s1.subs@, s2.subs@);
        },
        Err(_) => {},
    }
}

proof fn lemma_item_entries_same(a: Seq<Item>, b: Seq<Item>)
    requires
        same_items(a, b),
    ensures
        item_entries(a) == item_entries(b),
    decreases a.len(),
{
    if a.len() > 0 {
        assert(same_items(a.drop_last(), b.drop_last())) by {
            assert forall|i: int| 0 <= i < a.drop_last().len() implies crate::outline::same_item(
                #[trigger] a.drop_last()[i],
                b.drop_last()[i],
            ) by {
                assert(a.drop_last()[i] == a[i]);
                assert(b.drop_last()[i] == b[i]);
            }
        }
        lemma_item_entries_same(a.drop_last(), b.drop_last());
        assert(crate::outline::same_item(a[a.len() - 1], b[b.len() - 1]));
    }
}

proof fn lemma_parts_entries_same(a: Seq<Part>, b: Seq<Part>)
    requires
        a.len() == b.len(),
        forall|j: int| 0 <= j < a.len() ==> same_part(#[trigger] a[j], b[j]),
    ensures
        parts_entries(a) == parts_entries(b),
    decreases a.len(),
{
    if a.len() > 0 {
        assert forall|j: int| 0 <= j < a.drop_last().len() implies same_part(
            #[trigger] a.drop_last()[j],
            b.drop_last()[j],
        ) by {
            assert(a.drop_last()[j] == a[j]);
            assert(b.drop_last()[j] == b[j]);
        }
        lemma_parts_entries_same(a.drop_last(), b.drop_last());
        let x = a[a.len() - 1];
        let y = b[b.len() - 1];
        assert(same_part(x, y));
        match x {
            Part::List(lx) => {
                lemma_item_entries_same(lx.items@, y->List_0.items@);
            },
            _ => {},
        }
        assert(part_entries(a.last()) == part_entries(b.last()));
    }
}

proof fn lemma_section_entries_same(a: Heading, b: Heading)
    requires
        same_section(a.section, b.section),
    ensures
        section_entries(a.section) == section_entries(b.section),
        section_text(a.section) == section_text(b.section),
{
    match a.section {
        Some(x) => {
            lemma_parts_entries_same(x.parts@, b.section->0.parts@);
        },
        None => {},
    }
}

proof fn lemma_shown_same(a: Heading, b: Heading)
    requires
        same_heading(a, b),
    ensures
        is_shown(a) == is_shown(b),
{
    assert(string_views(a.tags@).len() == a.tags@.len());
    assert(string_views(b.tags@).len() == b.tags@.len());
    assert forall|i: int| 0 <= i < a.tags@.len() implies (#[trigger] a.tags@[i])@ == b.tags@[i]@ by {
        assert(string_views(a.tags@)[i] == string_views(b.tags@)[i]);
    }
    if exists|i: int| 0 <= i < a.tags@.len() && (#[trigger] a.tags@[i])@ == noexport() {
        let i = choose|i: int| 0 <= i < a.tags@.len() && (#[trigger] a.tags@[i])@ == noexport();
        assert(b.tags@[i]@ == noexport());
    }
    if exists|i: int| 0 <= i < b.tags@.len() && (#[trigger] b.tags@[i])@ == noexport() {
        let i = choose|i: int| 0 <= i < b.tags@.len() && (#[trigger] b.tags@[i])@ == noexport();
        assert(a.tags@[i]@ == noexport());
    }
}

proof fn lemma_visible_same(a: Heading, b: Heading)
    requires
        same_heading(a, b),
    ensures
        visible(a) == visible(b),
    decreases a,
{
    lemma_section_entries_same(a, b);
    lemma_visible_subs_same(a.subs@, b.subs@);
}

proof fn lemma_visible_subs_same(a: Seq<Heading>, b: Seq<Heading>)
    requires
        same_headings(a, b),
    ensures
        visible_subs(a) == visible_subs(b),
    decreases a,
{
    if a.len() > 0 {
        lemma_drop_last_same(a, b);
        lemma_visible_subs_same(a.drop_last(), b.drop_last());
        lemma_shown_same(a.last(), b.last());
        lemma_visible_same(a.last(), b.last());
    }
}

/// Outlines that hold the same headlines show the same visible content
/// under a path.
pub proof fn lemma_section_visible_same(o1: Outline, o2: Outline, path: Seq<Seq<char>>)
    requires
        same_headings(o1.headings@, o2.headings@),
    ensures
        section_visible(o1, path) == section_visible(o2, path),
{
    lemma_find_same(o1, o2, path);
    match find_section_spec(o1, path) {
        Ok(s1) => {
            lemma_visible_same(s1, find_section_spec(o2, path)->Ok_0);
        },
        Err(_) => {},
    }
}

proof fn lemma_fresh_same(a: Seq<Heading>, b: Seq<Heading>, level: nat)
    requires
        same_headings(a, b),
    ensures
        fresh_sub_lines(a, level) == fresh_sub_lines(b, level),
    decreases a.len(),
{
    if a.len() > 0 {
        lemma_drop_last_same(a, b);
        lemma_fresh_same(a.drop_last(), b.drop_last(), level);
    }
}

proof fn lemma_kept_raws_same(a: Seq<Heading>, b: Seq<Heading>)
    requires
        same_headings(a, b),
    ensures
        raws(kept_subs(a)) == raws(kept_subs(b)),
    decreases a.len(),
{
    if a.len() > 0 {
        lemma_drop_last_same(a, b);
        lemma_kept_raws_same(a.drop_last(), b.drop_last());
        lemma_content_same(a.last(), b.last());
        if has_content(a.last()) {
            let ka = kept_subs(a.drop_last()).push(a.last());
            let kb = kept_subs(b.drop_last()).push(b.last());
            assert(ka.drop_last() =~= kept_subs(a.drop_last()));
            assert(kb.drop_last() =~= kept_subs(b.drop_last()));
            assert(raws(ka) == raws(kept_subs(a.drop_last())) + a.last().raw@);
            assert(raws(kb) == raws(kept_subs(b.drop_last())) + b.last().raw@);
        }
    }
}

/// The same section rolls to the same block.
pub proof fn lemma_rolled_block_same(a: Heading, b: Heading, version: Seq<char>)
    requires
        same_heading(a, b),
    ensures
        rolled_block(a, version) == rolled_block(b, version),
{
    lemma_fresh_same(a.subs@, b.subs@, (a.level + 1) as nat);
    lemma_kept_raws_same(a.subs@, b.subs@);
    lemma_section_entries_same(a, b);
}

proof fn lemma_max_bullet_same(a: Seq<Item>, b: Seq<Item>)
    requires
        same_items(a, b),
    ensures
        max_bullet(a) == max_bullet(b),
    decreases a.len(),
{
    if a.len() > 0 {
        assert(same_items(a.drop_last(), b.drop_last())) by {
            assert forall|i: int| 0 <= i < a.drop_last().len() implies crate::outline::same_item(
                #[trigger] a.drop_last()[i],
                b.drop_last()[i],
            ) by {
                assert(a.drop_last()[i] == a[i]);
                assert(b.drop_last()[i] == b[i]);
            }
        }
        lemma_max_bullet_same(a.drop_last(), b.drop_last());
        assert(crate::outline::same_item(a[a.len() - 1], b[b.len() - 1]));
    }
}

proof fn lemma_first_list_same(a: Seq<Part>, b: Seq<Part>)
    requires
        a.len() == b.len(),
        forall|j: int| 0 <= j < a.len() ==> same_part(#[trigger] a[j], b[j]),
    ensures
        match first_list_in(a) {
            None => first_list_in(b) is None,
            Some(x) => first_list_in(b) matches Some(y) && x.end == y.end && same_items(
                x.items@,
                y.items@,
            ),
        },
    decreases a.len(),
{
    if a.len() > 0 {
        assert(same_part(a[0], b[0]));
        if !(a[0] is List) {
            assert forall|j: int| 0 <= j < a.drop_first().len() implies same_part(
                #[trigger] a.drop_first()[j],
                b.drop_first()[j],
            ) by {
                assert(a.drop_first()[j] == a[j + 1]);
                assert(b.drop_first()[j] == b[j + 1]);
            }
            lemma_first_list_same(a.drop_first(), b.drop_first());
        }
    }
}

/// The same section takes an inserted item in the same way.
pub proof fn lemma_insert_same(
    t: Seq<char>,
    a: Heading,
    b: Heading,
    heading: Seq<char>,
    body: Seq<char>,
)
    requires
        same_heading(a, b),
    ensures
        insert_overflows(a, heading) == insert_overflows(b, heading),
        insert_bytes(t, a, heading, body) == insert_bytes(t, b, heading, body),
{
    lemma_child_same(a.subs@, b.subs@, heading);
    match child_titled(a.subs@, heading) {
        Some(ca) => {
            let cb = child_titled(b.subs@, heading)->0;
            match ca.section {
                Some(sa) => {
                    lemma_first_list_same(sa.parts@, cb.section->0.parts@);
                    match first_list(ca.section) {
                        Some(la) => {
                            lemma_max_bullet_same(la.items@, first_list(cb.section)->0.items@);
                        },
                        None => {},
                    }
                },
                None => {},
            }
        },
        None => {
            if a.subs@.len() > 0 {
                lemma_drop_last_same(a.subs@, b.subs@);
            }
        },
    }
}

} // verus!
