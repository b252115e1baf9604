//! The library's answers agree with answers computed directly on orgize's
//! syntax tree, over a range of changelogs.

use std::collections::HashSet;

use changelog_roller::{has_section_additions, insert_item, is_ready_to_roll, roll, RollError};
use orgize::ast::{Headline, List};
use orgize::rowan::ast::AstNode;
use orgize::rowan::{NodeOrToken, TextRange, TextSize};
use orgize::{Org, SyntaxKind, SyntaxNode};

fn path(segments: &[&str]) -> Vec<String> {
    segments.iter().map(|s| s.to_string()).collect()
}

fn find(org: &Org, path: &[String]) -> Option<Headline> {
    fn search(h: &Headline, target: &str) -> Option<Headline> {
        if h.title_raw().trim() == target {
            return Some(h.clone());
        }
        h.headlines().find_map(|c| search(&c, target))
    }
    let (root, rest) = path.split_first()?;
    let mut cur = org.document().headlines().find_map(|top| search(&top, root))?;
    for segment in rest {
        cur = cur.headlines().find(|c| c.title_raw().trim() == segment.as_str())?;
    }
    Some(cur)
}

fn has_content(h: &Headline) -> bool {
    h.section().is_some() || h.headlines().any(|c| has_content(&c))
}

fn tree_ready(text: &str, path: &[String]) -> Option<bool> {
    let org = Org::parse(text);
    find(&org, path).map(|s| s.headlines().any(|h| has_content(&h)))
}

fn tree_visible(node: &SyntaxNode) -> Vec<String> {
    node.children()
        .flat_map(|child| match child.kind() {
            SyntaxKind::HEADLINE => Headline::cast(child.clone())
                .filter(|h| !h.is_commented() && !h.tags().any(|t| t == "noexport"))
                .map(|_| tree_visible(&child))
                .unwrap_or_default(),
            SyntaxKind::SECTION => tree_visible(&child),
            SyntaxKind::LIST => child
                .children()
                .filter(|c| c.kind() == SyntaxKind::LIST_ITEM)
                .map(|item| item.to_string().trim_end().to_string())
                .collect(),
            SyntaxKind::PARAGRAPH => vec![child.to_string().trim_end().to_string()],
            _ => Vec::new(),
        })
        .filter(|s| !s.is_empty())
        .collect()
}

fn tree_additions(base: &str, head: &str, path: &[String]) -> bool {
    let content = |text: &str| {
        let org = Org::parse(text);
        find(&org, path).map(|h| tree_visible(h.syntax())).unwrap_or_default()
    };
    let b: HashSet<String> = content(base).into_iter().collect();
    content(head).iter().any(|l| !b.contains(l))
}

fn tree_roll(text: &str, version: &str, path: &[String]) -> Option<String> {
    let mut org = Org::parse(text);
    let up = find(&org, path)?;
    let stars = "*".repeat(up.level());
    let substars = "*".repeat(up.level() + 1);
    let subs: Vec<Headline> = up.headlines().collect();
    let mut fresh = format!("{} {}\n", stars, up.title_raw().trim_end());
    for sub in &subs {
        fresh.push_str(&format!("{} {}\n", substars, sub.title_raw().trim_end()));
    }
    let mut versioned = format!("{} {}\n", stars, version);
    if let Some(section) = up.section() {
        versioned.push_str(&section.syntax().to_string());
    }
    for sub in &subs {
        if has_content(sub) {
            versioned.push_str(&sub.syntax().to_string());
        }
    }
    org.replace_range(up.syntax().text_range(), format!("{}{}", fresh, versioned));
    Some(org.to_org())
}

fn last_content_end(node: &SyntaxNode) -> TextSize {
    node.descendants_with_tokens()
        .filter_map(|nt| match nt {
            NodeOrToken::Token(t) if t.kind() != SyntaxKind::BLANK_LINE => Some(t.text_range().end()),
            _ => None,
        })
        .last()
        .unwrap_or_else(|| node.text_range().end())
}

fn tree_insert(text: &str, path: &[String], heading: &str, body: &str) -> Option<String> {
    let mut org = Org::parse(text);
    let up = find(&org, path)?;
    let existing = up.headlines().find(|h| h.title_raw().trim() == heading);
    match existing {
        Some(sub) => {
            let list = sub.section().and_then(|s| s.syntax().children().find_map(List::cast));
            let (offset, n) = match list {
                Some(list) => {
                    let max = list
                        .items()
                        .filter_map(|item| {
                            let digits: String =
                                item.bullet().chars().take_while(|c| c.is_ascii_digit()).collect();
                            digits.parse::<u32>().ok()
                        })
                        .max()
                        .unwrap_or(0);
                    (list.syntax().text_range().end(), max + 1)
                }
                None => (sub.syntax().text_range().end(), 1),
            };
            org.replace_range(TextRange::new(offset, offset), format!("{}. {}\n", n, body));
        }
        None => {
            let block = format!("{} {}\n1. {}\n", "*".repeat(up.level() + 1), heading, body);
            let subs: Vec<Headline> = up.headlines().collect();
            match subs.last() {
                Some(last) => {
                    let range = last.syntax().text_range();
                    let raw = last.syntax().to_string();
                    let split: usize = (last_content_end(last.syntax()) - range.start()).into();
                    let new_text = format!("{}{}{}", &raw[..split], block, &raw[split..]);
                    org.replace_range(range, new_text);
                }
                None => {
                    let end = up.syntax().text_range().end();
                    org.replace_range(TextRange::new(end, end), &block);
                }
            }
        }
    }
    Some(org.to_org())
}

const DOCS: &[&str] = &[
    "* changelog\n** Upcoming\n*** Breaking\n*** Additions\n1. New\n*** Fixes\n** v0.1.0\n*** Additions\n1. Old\n",
    "* changelog\n** Upcoming\n",
    "* changelog\n** Upcoming\n*** Additions\n",
    "* changelog\n** Upcoming\n*** Additions\n1. One\n\n\n** v1\n",
    "* changelog\n** Upcoming\n:PROPERTIES:\n:ID: x\n:END:\n*** Additions\n- a\n- b\n\nProse here.\n",
    "* changelog\n** Upcoming\nSCHEDULED: <2026-01-01>\n*** Fixes\n3) three\n10) ten\n",
    "* changelog\n** Upcoming :tag:\n*** COMMENT Draft\n1. hidden\n*** Notes :noexport:\n1. hidden too\n*** Additions\n1. shown\n",
    "#+TITLE: News\n\n* Upcoming\n** Additions\n1. A\n   continued line\n2. B\n* v2\n** Additions\n1. Z\n",
    "* journal\n** Upcoming\n*** Ajouts\n1. Élément\n*** Corrections\n",
    "* changelog\r\n** Upcoming\r\n*** Additions\r\n1. One\r\n*** Fixes\r\n",
    "* changelog\n** Upcoming\n*** Breaking\n**** Abi\n1. Sig\n*** Additions\n",
    "* changelog\n** Upcoming\n*** Additions\n1. a\n# comment\n2. b\n*** Fixes\n\n",
    "* changelog\n** v0.1.0\n*** Additions\n1. Initial\n",
    "* Upcoming\n** Additions\n1. no trailing newline",
    "* changelog\n** Upcoming\nIntro prose.\n\n- first\n- second\n*** Breaking\n**** Abi\n1. Sig\n*** Fixes\n",
    "* changelog\n** Upcoming\n*** Breaking\n**** Abi\n***** Deep\n1. Deeper\n",
];

const PATHS: &[&[&str]] = &[
    &["Upcoming"],
    &["Upcoming", "Additions"],
    &["Upcoming", "Breaking"],
    &["Upcoming", "Breaking", "Abi"],
    &["v0.1.0"],
    &["changelog"],
    &[],
];

#[test]
fn readiness_agrees_with_the_tree() {
    for doc in DOCS {
        for p in PATHS {
            let p = path(p);
            let ours = is_ready_to_roll(doc, &p).ok();
            assert_eq!(ours, tree_ready(doc, &p), "doc {:?} path {:?}", doc, p);
        }
    }
}

fn additions_agree_on_path(p: &[&str]) {
    let p = path(p);
    for base in DOCS {
        for head in DOCS {
            assert_eq!(
                has_section_additions(base, head, &p),
                tree_additions(base, head, &p),
                "base {:?} head {:?} path {:?}",
                base,
                head,
                p
            );
        }
    }
}

#[test]
fn additions_agree_with_the_tree_on_upcoming() {
    additions_agree_on_path(PATHS[0]);
}

#[test]
fn additions_agree_with_the_tree_on_subsections() {
    additions_agree_on_path(PATHS[1]);
    additions_agree_on_path(PATHS[2]);
}

#[test]
fn additions_agree_with_the_tree_on_deep_paths() {
    additions_agree_on_path(PATHS[3]);
    additions_agree_on_path(PATHS[4]);
}

#[test]
fn additions_agree_with_the_tree_on_other_roots() {
    additions_agree_on_path(PATHS[5]);
    additions_agree_on_path(PATHS[6]);
}

#[test]
fn rolling_agrees_with_the_tree() {
    for doc in DOCS {
        for p in PATHS {
            let p = path(p);
            let ours = roll(doc.to_string(), "v9.9.9", &p).ok();
            assert_eq!(ours, tree_roll(doc, "v9.9.9", &p), "doc {:?} path {:?}", doc, p);
        }
    }
}

#[test]
fn inserting_agrees_with_the_tree() {
    for doc in DOCS {
        for p in PATHS {
            let p = path(p);
            for heading in ["Additions", "Fixes", "Breaking", "Abi", "Brand new"] {
                let ours = insert_item(doc.to_string(), &p, heading, "Body text").ok();
                assert_eq!(
                    ours,
                    tree_insert(doc, &p, heading, "Body text"),
                    "doc {:?} path {:?} heading {:?}",
                    doc,
                    p,
                    heading
                );
            }
        }
    }
}

#[test]
fn missing_sections_are_errors() {
    let doc = "* changelog\n** v0.1.0\n";
    assert!(matches!(
        roll(doc.to_string(), "v1", &path(&["Upcoming"])),
        Err(RollError::HeadingNotFound { .. })
    ));
}
