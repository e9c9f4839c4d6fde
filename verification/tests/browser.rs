use trash_browser::display::{format_entry, format_listing, menu_text, probe_path};
use trash_browser::errors::TrashError;
use trash_browser::index::{build_index, DeletionIndex};
use trash_browser::listing::{parse_line, parse_listing, trim_start};
use trash_browser::selection::{
    confirm_prompt, decide_restore, extract_path, is_affirmative, on_selection,
};

const DOC_LINE: &str = "2024-01-15 10:30:00/home/user/doc.txt";
const DOC_EPOCH: i64 = 1705314600;
const DOC_RENDERED: &str = "\u{f133} Mon 15 Jan 2024 \u{f017} 10:30";

#[test]
fn parse_line_reads_timestamp_and_path() {
    let (ts, path) = parse_line(DOC_LINE).unwrap();
    assert_eq!(ts, DOC_EPOCH);
    assert_eq!(path, "/home/user/doc.txt");
}

#[test]
fn parse_line_strips_leading_whitespace() {
    let (ts, path) = parse_line("2024-01-15 10:30:00   /a b.txt").unwrap();
    assert_eq!(ts, DOC_EPOCH);
    assert_eq!(path, "/a b.txt");
}

#[test]
fn parse_line_rejects_short_line() {
    assert_eq!(parse_line("2024-01-15"), Err(TrashError::ShortLine));
    assert_eq!(parse_line(""), Err(TrashError::ShortLine));
}

#[test]
fn parse_line_rejects_bad_timestamp() {
    assert_eq!(
        parse_line("not a date and time/home/user/doc.txt"),
        Err(TrashError::BadTimestamp)
    );
    assert_eq!(
        parse_line("2024-13-40 99:99:99/home/user/doc.txt"),
        Err(TrashError::BadTimestamp)
    );
}

#[test]
fn trim_start_removes_exactly_the_leading_whitespace() {
    assert_eq!(trim_start("  \t a b "), "a b ");
    assert_eq!(trim_start("abc"), "abc");
    assert_eq!(trim_start(""), "");
}

#[test]
fn index_orders_ascending_and_last_write_wins() {
    let pairs: Vec<(i64, String)> = vec![
        (5, "b".to_string()),
        (3, "a".to_string()),
        (5, "c".to_string()),
        (9, "d".to_string()),
    ];
    let idx = build_index(&pairs);
    assert_eq!(idx.len(), 3);
    assert_eq!(idx.entry_at(0), (3, "a".to_string()));
    assert_eq!(idx.entry_at(1), (5, "c".to_string()));
    assert_eq!(idx.entry_at(2), (9, "d".to_string()));
}

#[test]
fn parse_listing_orders_by_time_not_by_line() {
    let lines: Vec<String> = vec![
        "2024-01-15 10:30:00/new.txt".to_string(),
        "2020-06-01 00:00:00/old.txt".to_string(),
    ];
    let idx = parse_listing(&lines).unwrap();
    assert_eq!(idx.len(), 2);
    assert_eq!(idx.entry_at(0).1, "/old.txt");
    assert_eq!(idx.entry_at(1).1, "/new.txt");
}

#[test]
fn parse_listing_reports_first_bad_line() {
    let lines: Vec<String> = vec![
        "2024-01-15 10:30:00/ok.txt".to_string(),
        "short".to_string(),
        "also not a date+time/x".to_string(),
    ];
    assert_eq!(parse_listing(&lines).err(), Some(TrashError::ShortLine));
}

#[test]
fn format_entry_renders_icon_and_path() {
    let line = format_entry(DOC_EPOCH, "/home/user/doc.txt", false).unwrap();
    assert_eq!(
        line,
        format!("{}\t\u{f15b} /home/user/doc.txt", DOC_RENDERED)
    );
    assert!(line.ends_with("\u{f15b} /home/user/doc.txt"));
    let dir_line = format_entry(DOC_EPOCH, "/home/user/stuff", true).unwrap();
    assert!(dir_line.ends_with("\u{f07b} /home/user/stuff"));
}

#[test]
fn format_entry_renders_the_epoch() {
    let line = format_entry(0, "/x", false).unwrap();
    assert_eq!(line, "\u{f133} Thu 01 Jan 1970 \u{f017} 00:00\t\u{f15b} /x");
}

#[test]
fn format_entry_rejects_unrenderable_timestamp() {
    assert_eq!(
        format_entry(i64::MAX, "/x", false),
        Err(TrashError::TimestampOutOfRange)
    );
}

#[test]
fn display_line_round_trips_to_the_path() {
    let line = format_entry(DOC_EPOCH, "/home/user/doc.txt", false).unwrap();
    assert_eq!(extract_path(&line).unwrap(), "/home/user/doc.txt");
    let odd = format_entry(DOC_EPOCH, "/with space\tand tab", true).unwrap();
    assert_eq!(extract_path(&odd).unwrap(), "/with space\tand tab");
}

#[test]
fn pipeline_twice_is_byte_identical() {
    let lines: Vec<String> = vec![
        "2024-01-15 10:30:00/home/user/doc.txt".to_string(),
        "2020-06-01 00:00:00 /old dir".to_string(),
    ];
    let dirs = vec![true, false];
    let run = |input: &Vec<String>| -> String {
        let idx = parse_listing(input).unwrap();
        let rendered = format_listing(&idx, &dirs).unwrap();
        menu_text(&rendered)
    };
    assert_eq!(run(&lines), run(&lines));
}

#[test]
fn empty_listing_yields_the_placeholder() {
    let idx = parse_listing(&Vec::new()).unwrap();
    assert_eq!(idx.len(), 0);
    let rendered = format_listing(&idx, &Vec::new()).unwrap();
    assert_eq!(menu_text(&rendered), "La poubelle est vide");
}

#[test]
fn menu_text_joins_lines_with_newlines() {
    let lines = vec!["first".to_string(), "second".to_string()];
    assert_eq!(menu_text(&lines), "first\nsecond");
    assert_eq!(menu_text(&vec!["only".to_string()]), "only");
}

#[test]
fn cancelled_menu_asks_for_nothing() {
    assert_eq!(on_selection(""), Ok(None));
}

#[test]
fn malformed_selection_is_an_error() {
    assert_eq!(
        on_selection("no tab in here"),
        Err(TrashError::MalformedSelection)
    );
    assert_eq!(
        on_selection("tab\tbut-no-space"),
        Err(TrashError::MalformedSelection)
    );
}

#[test]
fn selection_names_the_path_to_confirm() {
    let sel = format!("{}\t\u{f15b} /home/user/doc.txt", DOC_RENDERED);
    assert_eq!(on_selection(&sel), Ok(Some("/home/user/doc.txt".to_string())));
}

#[test]
fn confirm_prompt_embeds_the_path_in_bold() {
    assert_eq!(
        confirm_prompt("/home/user/doc.txt"),
        "Voulez-vous vraiment restaurer <b>/home/user/doc.txt</b> ?"
    );
}

#[test]
fn confirmed_selection_launches_the_restore_tool() {
    assert!(is_affirmative(0));
    let cmd = decide_restore(true, "/home/user/doc.txt".to_string()).unwrap();
    assert_eq!(cmd.path, "/home/user/doc.txt");
    assert_eq!(cmd.stdin_input, "0");
}

#[test]
fn declined_confirmation_never_launches_the_restore_tool() {
    assert!(!is_affirmative(1));
    assert!(!is_affirmative(-7));
    assert!(decide_restore(false, "/home/user/doc.txt".to_string()).is_none());
}

#[test]
fn probe_path_points_under_files() {
    assert_eq!(
        probe_path("/home/user/.local/share/Trash", "/home/user/doc.txt"),
        "/home/user/.local/share/Trash/files/doc.txt"
    );
    assert_eq!(probe_path("/t", "no-slash"), "/t/files/no-slash");
    assert_eq!(probe_path("/t", "/ends/with/"), "/t/files/");
}

#[test]
fn error_messages_name_each_condition() {
    let errors = [
        TrashError::ShortLine,
        TrashError::BadTimestamp,
        TrashError::TimestampOutOfRange,
        TrashError::MalformedSelection,
    ];
    for e in errors {
        assert!(!e.message().is_empty());
    }
}

#[test]
fn index_insert_replaces_on_equal_timestamp() {
    let mut idx = DeletionIndex::new();
    idx.insert(7, "first".to_string());
    idx.insert(7, "second".to_string());
    assert_eq!(idx.len(), 1);
    assert_eq!(idx.entry_at(0), (7, "second".to_string()));
}
