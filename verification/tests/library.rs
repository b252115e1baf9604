use changelog_roller::config::{CliCommand, CliRaw, Config, ConfigError, ConfigFileRaw};
use changelog_roller::operation::{
    self, deliver, section_path, CheckAdditionsOutcome, MutationOutcome, ReadyToRollOutcome,
};
use changelog_roller::outline::outline_of;
use changelog_roller::roller::{
    additions_between, find_section_at_path, insert_in_outline, ready_in_outline,
    roll_in_outline, visible_content_at,
};
use changelog_roller::text::{decimal_string, splice};
use changelog_roller::{
    bullet_number, has_section_additions, insert_item, is_ready_to_roll, roll, LogFormat,
    LogLevel, RollError,
};

fn path(segments: &[&str]) -> Vec<String> {
    segments.iter().map(|s| s.to_string()).collect()
}

// ---------------------------------------------------------------------------
// Numbers
// ---------------------------------------------------------------------------

#[test]
fn bullet_number_reads_ordered_bullets() {
    assert_eq!(bullet_number("1. "), Some(1));
    assert_eq!(bullet_number("42. "), Some(42));
    assert_eq!(bullet_number("3) "), Some(3));
    assert_eq!(bullet_number("007. "), Some(7));
    assert_eq!(bullet_number("4294967295. "), Some(u32::MAX));
}

#[test]
fn bullet_number_rejects_unordered_and_oversized_bullets() {
    assert_eq!(bullet_number("- "), None);
    assert_eq!(bullet_number("+ "), None);
    assert_eq!(bullet_number("* "), None);
    assert_eq!(bullet_number(""), None);
    assert_eq!(bullet_number("4294967296. "), None);
    assert_eq!(bullet_number("99999999999999999999. "), None);
}

#[test]
fn decimal_string_renders_without_leading_zeros() {
    assert_eq!(decimal_string(0), "0");
    assert_eq!(decimal_string(7), "7");
    assert_eq!(decimal_string(10), "10");
    assert_eq!(decimal_string(1234567890), "1234567890");
    assert_eq!(decimal_string(u64::MAX), "18446744073709551615");
}

#[test]
fn written_numbers_read_back() {
    for n in [0u32, 1, 2, 9, 10, 99, 100, 65535, u32::MAX] {
        let bullet = format!("{}. ", decimal_string(n as u64));
        assert_eq!(bullet_number(&bullet), Some(n));
    }
}

// ---------------------------------------------------------------------------
// Splicing
// ---------------------------------------------------------------------------

#[test]
fn splice_replaces_a_byte_range() {
    assert_eq!(splice("hello world", 6, 11, "there"), "hello there");
    assert_eq!(splice("abc", 1, 1, "XY"), "aXYbc");
    assert_eq!(splice("abc", 0, 3, ""), "");
    // 'é' spans bytes 1..3.
    assert_eq!(splice("héllo", 1, 3, "e"), "hello");
}

// ---------------------------------------------------------------------------
// Finding sections
// ---------------------------------------------------------------------------

#[test]
fn title_match_ignores_surrounding_white_space() {
    let input = "* changelog\n** Upcoming   \n*** Additions\n1. Thing\n";
    assert!(is_ready_to_roll(input, &path(&["Upcoming"])).unwrap());
}

#[test]
fn title_match_is_exact_apart_from_white_space() {
    let input = "* changelog\n** Upcoming changes\n*** Additions\n1. Thing\n";
    let err = is_ready_to_roll(input, &path(&["Upcoming"])).unwrap_err();
    assert!(matches!(err, RollError::HeadingNotFound { ref heading } if heading == "Upcoming"));
}

#[test]
fn empty_path_is_heading_not_found_with_empty_name() {
    let input = "* changelog\n** Upcoming\n*** Additions\n1. Thing\n";
    let err = is_ready_to_roll(input, &[]).unwrap_err();
    assert!(matches!(err, RollError::HeadingNotFound { ref heading } if heading.is_empty()));
    let err = roll(input.to_string(), "v1", &[]).unwrap_err();
    assert!(matches!(err, RollError::HeadingNotFound { ref heading } if heading.is_empty()));
    let err = insert_item(input.to_string(), &[], "Additions", "x").unwrap_err();
    assert!(matches!(err, RollError::HeadingNotFound { ref heading } if heading.is_empty()));
}

#[test]
fn missing_drill_segment_is_named_in_the_error() {
    let input = "* changelog\n** Upcoming\n*** Additions\n1. Thing\n";
    let err = is_ready_to_roll(input, &path(&["Upcoming", "Breaking"])).unwrap_err();
    assert!(matches!(err, RollError::HeadingNotFound { ref heading } if heading == "Breaking"));
}

#[test]
fn first_segment_is_found_at_any_depth() {
    let input = "* changelog\n** Releases\n*** Upcoming\n**** Additions\n1. Thing\n";
    assert!(is_ready_to_roll(input, &path(&["Upcoming"])).unwrap());
}

#[test]
fn outline_reads_titles_levels_and_spans() {
    let input = "* changelog\n** Upcoming :tag:\n*** COMMENT Notes\n";
    let o = outline_of(input);
    assert_eq!(o.headings.len(), 1);
    let top = &o.headings[0];
    assert_eq!(top.level, 1);
    assert_eq!(top.start, 0);
    assert_eq!(top.end, input.len());
    assert_eq!(top.raw, input);
    let up = &top.subs[0];
    assert_eq!(up.title.trim(), "Upcoming");
    assert_eq!(up.level, 2);
    assert_eq!(up.tags, vec!["tag".to_string()]);
    assert!(!up.commented);
    assert!(up.subs[0].commented);
    let found = find_section_at_path(&o, &path(&["Upcoming"])).ok().unwrap();
    assert_eq!(found.start, "* changelog\n".len());
}

// ---------------------------------------------------------------------------
// Readiness
// ---------------------------------------------------------------------------

#[test]
fn ready_ignores_content_of_the_section_itself() {
    // Only child headings with content count.
    let input = "* changelog\n** Upcoming\nSome prose.\n*** Additions\n";
    assert!(!is_ready_to_roll(input, &path(&["Upcoming"])).unwrap());
}

#[test]
fn ready_in_outline_answers_for_the_parse() {
    let input = "* changelog\n** Upcoming\n*** Additions\n1. Thing\n";
    let o = outline_of(input);
    assert!(ready_in_outline(&o, &path(&["Upcoming"])).unwrap());
    assert!(ready_in_outline(&o, &path(&["Upcoming", "Additions"])).is_ok());
    assert!(!ready_in_outline(&o, &path(&["Upcoming", "Additions"])).unwrap());
}

// ---------------------------------------------------------------------------
// Visible content and additions
// ---------------------------------------------------------------------------

#[test]
fn visible_content_lists_items_and_paragraphs() {
    let input = "* changelog\n** Upcoming\n*** Additions\n1. One\n2. Two\n\nA paragraph.\n*** COMMENT Hidden\n1. Secret\n";
    let o = outline_of(input);
    let v = visible_content_at(&o, &path(&["Upcoming"]));
    assert_eq!(v, vec!["1. One".to_string(), "2. Two".to_string(), "A paragraph.".to_string()]);
    let none = visible_content_at(&o, &path(&["Nowhere"]));
    assert!(none.is_empty());
}

#[test]
fn visible_content_keeps_document_order() {
    let input = "* changelog\n** Upcoming\nIntro prose.\n\n- first\n- second\n\nClosing prose.\n*** Additions\n1. One\n";
    let o = outline_of(input);
    let v = visible_content_at(&o, &path(&["Upcoming"]));
    assert_eq!(
        v,
        vec![
            "Intro prose.".to_string(),
            "- first".to_string(),
            "- second".to_string(),
            "Closing prose.".to_string(),
            "1. One".to_string(),
        ]
    );
}

#[test]
fn changelog_has_no_additions_against_itself() {
    let input = "* changelog\n** Upcoming\n*** Additions\n1. One\n2. Two\n";
    assert!(!has_section_additions(input, input, &path(&["Upcoming"])));
    let o = outline_of(input);
    assert!(!additions_between(&o, &o, &path(&["Upcoming"])));
}

#[test]
fn reworded_entry_counts_as_an_addition() {
    let base = "* changelog\n** Upcoming\n*** Additions\n1. One\n";
    let head = "* changelog\n** Upcoming\n*** Additions\n1. One, reworded\n";
    assert!(has_section_additions(base, head, &path(&["Upcoming"])));
}

#[test]
fn moved_entry_is_not_an_addition() {
    let base = "* changelog\n** Upcoming\n*** Additions\n1. One\n*** Fixes\n";
    let head = "* changelog\n** Upcoming\n*** Additions\n*** Fixes\n1. One\n";
    assert!(!has_section_additions(base, head, &path(&["Upcoming"])));
}

// ---------------------------------------------------------------------------
// Rolling
// ---------------------------------------------------------------------------

#[test]
fn roll_produces_fresh_section_then_versioned_entry() {
    let input = "* changelog\n** Upcoming\n*** Breaking\n*** Additions\n1. Added\n*** Fixes\n** v0.1.0\n*** Additions\n1. Initial\n";
    let result = roll(input.to_string(), "v0.2.0", &path(&["Upcoming"])).unwrap();
    assert_eq!(
        result,
        "* changelog\n** Upcoming\n*** Breaking\n*** Additions\n*** Fixes\n** v0.2.0\n*** Additions\n1. Added\n** v0.1.0\n*** Additions\n1. Initial\n"
    );
}

#[test]
fn roll_trims_trailing_white_space_of_titles() {
    let input = "* changelog\n** Upcoming   \n*** Additions  \n1. Added\n";
    let result = roll(input.to_string(), "v1", &path(&["Upcoming"])).unwrap();
    assert_eq!(
        result,
        "* changelog\n** Upcoming\n*** Additions\n** v1\n*** Additions  \n1. Added\n"
    );
}

#[test]
fn roll_nested_section_uses_its_level() {
    let input = "* changelog\n** Releases\n*** Upcoming\n**** Additions\n1. Added\n";
    let result = roll(input.to_string(), "v3", &path(&["Upcoming"])).unwrap();
    assert_eq!(
        result,
        "* changelog\n** Releases\n*** Upcoming\n**** Additions\n*** v3\n**** Additions\n1. Added\n"
    );
}

#[test]
fn roll_keeps_the_sections_own_text() {
    let input = "* changelog\n** Upcoming\nIntro prose.\n*** Additions\n1. Added\n*** Fixes\n";
    let result = roll(input.to_string(), "v1", &path(&["Upcoming"])).unwrap();
    assert_eq!(
        result,
        "* changelog\n** Upcoming\n*** Additions\n*** Fixes\n** v1\nIntro prose.\n*** Additions\n1. Added\n"
    );
}

#[test]
fn roll_keeps_subsections_whose_content_is_nested() {
    let input = "* changelog\n** Upcoming\n*** Breaking\n**** Abi\n1. Sig\n*** Fixes\n";
    let result = roll(input.to_string(), "v1", &path(&["Upcoming"])).unwrap();
    assert_eq!(
        result,
        "* changelog\n** Upcoming\n*** Breaking\n*** Fixes\n** v1\n*** Breaking\n**** Abi\n1. Sig\n"
    );
}

#[test]
fn ready_counts_nested_content() {
    let input = "* changelog\n** Upcoming\n*** Breaking\n**** Abi\n1. Sig\n*** Fixes\n";
    assert!(is_ready_to_roll(input, &path(&["Upcoming"])).unwrap());
}

#[test]
fn insert_item_leaves_text_unchanged_when_number_would_overflow() {
    let input = "* changelog\n** Upcoming\n*** Additions\n4294967295. Last\n";
    let result = insert_item(input.to_string(), &path(&["Upcoming"]), "Additions", "More").unwrap();
    assert_eq!(result, input);
}

#[test]
fn roll_in_outline_matches_roll() {
    let input = "* changelog\n** Upcoming\n*** Additions\n1. Added\n";
    let o = outline_of(input);
    let a = roll_in_outline(input, &o, "v1", &path(&["Upcoming"])).unwrap();
    let b = roll(input.to_string(), "v1", &path(&["Upcoming"])).unwrap();
    assert_eq!(a, b);
    assert_eq!(a, "* changelog\n** Upcoming\n*** Additions\n** v1\n*** Additions\n1. Added\n");
}

#[test]
fn roll_keeps_multibyte_text_intact() {
    let input = "* journal\n** À venir\n*** Ajouts\n1. Élément\n** v0\n";
    let result = roll(input.to_string(), "v1", &path(&["À venir"])).unwrap();
    assert_eq!(result, "* journal\n** À venir\n*** Ajouts\n** v1\n*** Ajouts\n1. Élément\n** v0\n");
}

// ---------------------------------------------------------------------------
// Inserting items
// ---------------------------------------------------------------------------

#[test]
fn insert_item_numbers_after_parenthesised_bullets() {
    let input = "* changelog\n** Upcoming\n*** Additions\n3) Three\n7) Seven\n";
    let result = insert_item(input.to_string(), &path(&["Upcoming"]), "Additions", "Eight").unwrap();
    assert_eq!(result, "* changelog\n** Upcoming\n*** Additions\n3) Three\n7) Seven\n8. Eight\n");
}

#[test]
fn insert_item_after_unordered_list_starts_at_one() {
    let input = "* changelog\n** Upcoming\n*** Additions\n- thing\n";
    let result = insert_item(input.to_string(), &path(&["Upcoming"]), "Additions", "New").unwrap();
    assert_eq!(result, "* changelog\n** Upcoming\n*** Additions\n- thing\n1. New\n");
}

#[test]
fn insert_item_into_nested_path() {
    let input = "* changelog\n** Upcoming\n*** Breaking\n**** Abi\n1. Old\n";
    let result =
        insert_item(input.to_string(), &path(&["Upcoming", "Breaking"]), "Abi", "New").unwrap();
    assert_eq!(result, "* changelog\n** Upcoming\n*** Breaking\n**** Abi\n1. Old\n2. New\n");
}

#[test]
fn insert_in_outline_matches_insert_item() {
    let input = "* changelog\n** Upcoming\n*** Additions\n1. One\n*** Fixes\n";
    let o = outline_of(input);
    let a = insert_in_outline(input, &o, &path(&["Upcoming"]), "Fixes", "Fix").unwrap();
    let b = insert_item(input.to_string(), &path(&["Upcoming"]), "Fixes", "Fix").unwrap();
    assert_eq!(a, b);
    assert_eq!(a, "* changelog\n** Upcoming\n*** Additions\n1. One\n*** Fixes\n1. Fix\n");
}

// ---------------------------------------------------------------------------
// Operations
// ---------------------------------------------------------------------------

#[test]
fn section_path_starts_at_the_upcoming_heading() {
    assert_eq!(section_path("Upcoming", &[]), path(&["Upcoming"]));
    assert_eq!(
        section_path("Next", &path(&["Breaking", "Abi"])),
        path(&["Next", "Breaking", "Abi"])
    );
}

#[test]
fn deliver_writes_back_only_in_place() {
    let d = deliver("text".to_string(), true);
    assert_eq!(d.write_back, Some("text".to_string()));
    assert!(matches!(d.outcome, MutationOutcome::WrittenInPlace));
    let d = deliver("text".to_string(), false);
    assert!(d.write_back.is_none());
    assert!(matches!(d.outcome, MutationOutcome::Content(ref c) if c == "text"));
}

#[test]
fn ready_to_roll_outcomes() {
    let p = path(&["Upcoming"]);
    assert!(matches!(
        operation::ready_to_roll("* c\n** Upcoming\n*** A\n1. x\n", &p),
        ReadyToRollOutcome::Ready
    ));
    assert!(matches!(
        operation::ready_to_roll("* c\n** Upcoming\n*** A\n", &p),
        ReadyToRollOutcome::NoChanges
    ));
    assert!(matches!(
        operation::ready_to_roll("* c\n** v1\n", &p),
        ReadyToRollOutcome::HeadingNotFound { ref heading } if heading == "Upcoming"
    ));
}

#[test]
fn check_additions_outcomes() {
    let p = path(&["Upcoming"]);
    let base = "* c\n** Upcoming\n*** A\n";
    let head = "* c\n** Upcoming\n*** A\n1. x\n";
    assert!(matches!(operation::check_additions(head, base, &p), CheckAdditionsOutcome::HasAdditions));
    assert!(matches!(operation::check_additions(base, head, &p), CheckAdditionsOutcome::NoAdditions));
}

#[test]
fn mutation_outcomes() {
    let p = path(&["Upcoming"]);
    let input = "* c\n** Upcoming\n*** A\n1. x\n".to_string();
    let d = operation::roll(input.clone(), "v1", &p, false);
    assert!(d.write_back.is_none());
    assert!(matches!(d.outcome, MutationOutcome::Content(ref c) if c == "* c\n** Upcoming\n*** A\n** v1\n*** A\n1. x\n"));
    let d = operation::insert_item(input.clone(), &p, "A", "y", true);
    assert_eq!(d.write_back, Some("* c\n** Upcoming\n*** A\n1. x\n2. y\n".to_string()));
    assert!(matches!(d.outcome, MutationOutcome::WrittenInPlace));
    let d = operation::roll("* c\n".to_string(), "v1", &p, true);
    assert!(d.write_back.is_none());
    assert!(matches!(d.outcome, MutationOutcome::HeadingNotFound { ref heading } if heading == "Upcoming"));
}

// ---------------------------------------------------------------------------
// Configuration
// ---------------------------------------------------------------------------

fn cli(command: CliCommand) -> CliRaw {
    CliRaw {
        log_level: None,
        log_format: None,
        config: None,
        input_file: None,
        in_place: false,
        upcoming_heading: None,
        command,
    }
}

#[test]
fn config_defaults() {
    let c = Config::from_cli_and_file(cli(CliCommand::ReadyToRoll), ConfigFileRaw::empty())
        .ok()
        .unwrap();
    assert_eq!(c.log_level, LogLevel::Info);
    assert_eq!(c.log_format, LogFormat::Text);
    assert_eq!(c.input_file, "CHANGELOG.org");
    assert_eq!(c.upcoming_heading, "Upcoming");
    assert!(!c.in_place);
    assert!(matches!(c.command, CliCommand::ReadyToRoll));
}

#[test]
fn config_command_line_overrides_file() {
    let mut raw = cli(CliCommand::Roll { version: "v1".to_string() });
    raw.log_level = Some("debug".to_string());
    raw.in_place = true;
    let file = ConfigFileRaw {
        log_level: Some("warn".to_string()),
        log_format: Some("json".to_string()),
        input_file: Some("NEWS.org".to_string()),
        upcoming_heading: Some("Next".to_string()),
    };
    let c = Config::from_cli_and_file(raw, file).ok().unwrap();
    assert_eq!(c.log_level, LogLevel::Debug);
    assert_eq!(c.log_format, LogFormat::Json);
    assert_eq!(c.input_file, "NEWS.org");
    assert_eq!(c.upcoming_heading, "Next");
    assert!(c.in_place);
    assert!(matches!(c.command, CliCommand::Roll { ref version } if version == "v1"));
}

#[test]
fn config_rejects_unknown_names() {
    let mut raw = cli(CliCommand::ReadyToRoll);
    raw.log_level = Some("loud".to_string());
    let r = Config::from_cli_and_file(raw, ConfigFileRaw::empty());
    assert!(matches!(r, Err(ConfigError::Validation(_))));
    let mut raw = cli(CliCommand::ReadyToRoll);
    raw.log_format = Some("xml".to_string());
    let r = Config::from_cli_and_file(raw, ConfigFileRaw::empty());
    assert!(matches!(r, Err(ConfigError::Validation(_))));
}

#[test]
fn log_names() {
    assert_eq!(LogLevel::parse_name("trace").ok(), Some(LogLevel::Trace));
    assert_eq!(LogLevel::parse_name("error").ok(), Some(LogLevel::Error));
    assert!(LogLevel::parse_name("INFO").is_err());
    assert_eq!(LogFormat::parse_name("json").ok(), Some(LogFormat::Json));
    assert!(LogFormat::parse_name("yaml").is_err());
    assert_eq!(
        LogLevel::parse_name("loud").err(),
        Some("Invalid log level 'loud': expected one of trace, debug, info, warn, error".to_string())
    );
    assert_eq!(
        LogFormat::parse_name("xml").err(),
        Some("Invalid log format 'xml': expected one of text, json".to_string())
    );
}

#[test]
fn operations_name_the_same_missing_heading() {
    let input = "* changelog\n** Upcoming\n*** Additions\n1. Thing\n";
    let p = path(&["Upcoming", "Breaking", "Abi"]);
    for err in [
        is_ready_to_roll(input, &p).unwrap_err(),
        roll(input.to_string(), "v1", &p).unwrap_err(),
        insert_item(input.to_string(), &p, "Additions", "x").unwrap_err(),
    ] {
        assert!(matches!(err, RollError::HeadingNotFound { ref heading } if heading == "Breaking"));
    }
}

#[test]
fn not_ready_exactly_when_roll_keeps_no_subsection() {
    let empty = "* changelog\n** Upcoming\n*** Breaking\n*** Fixes\n";
    assert!(!is_ready_to_roll(empty, &path(&["Upcoming"])).unwrap());
    let rolled = roll(empty.to_string(), "v1", &path(&["Upcoming"])).unwrap();
    assert!(rolled.ends_with("** v1\n"));

    let full = "* changelog\n** Upcoming\n*** Breaking\n1. Gone\n*** Fixes\n";
    assert!(is_ready_to_roll(full, &path(&["Upcoming"])).unwrap());
    let rolled = roll(full.to_string(), "v1", &path(&["Upcoming"])).unwrap();
    assert!(rolled.ends_with("** v1\n*** Breaking\n1. Gone\n"));
}
