//! The composer history: what is written is read back.

use deepseek_tui::composer_history::{
    append_history, history_entry, load_history, MAX_HISTORY_ENTRIES,
};
use deepseek_tui::location::{
    default_skills_dir, history_path, history_path_in, skills_dir_in, Base, HISTORY_FILE_NAME,
};

/// The history file as the entries are submitted one after the other.
fn submit(entries: &[&str]) -> Option<Vec<u8>> {
    let mut file: Option<Vec<u8>> = None;
    for entry in entries {
        if let Some(bytes) = append_history(file.as_deref(), entry) {
            file = Some(bytes);
        }
    }
    file
}

#[test]
fn append_and_load_round_trip() {
    let file = submit(&["first", "second", "third"]);
    let history = load_history(file.as_deref());
    assert_eq!(history, vec!["first", "second", "third"]);
}

#[test]
fn slash_commands_skipped() {
    let file = submit(&["/help", "real prompt", "/cost"]);
    let history = load_history(file.as_deref());
    assert_eq!(history, vec!["real prompt"]);
}

#[test]
fn empty_and_whitespace_skipped() {
    let file = submit(&["", "   ", "\n\t", "real"]);
    let history = load_history(file.as_deref());
    assert_eq!(history, vec!["real"]);
}

#[test]
fn consecutive_duplicates_deduped() {
    let file = submit(&["same", "same", "same", "different", "same"]);
    let history = load_history(file.as_deref());
    assert_eq!(history, vec!["same", "different", "same"]);
}

#[test]
fn pruned_to_cap_at_append_time() {
    let mut file: Option<Vec<u8>> = None;
    for i in 0..(MAX_HISTORY_ENTRIES + 50) {
        file = append_history(file.as_deref(), &format!("entry {i}"));
        assert!(file.is_some());
    }
    let history = load_history(file.as_deref());
    assert_eq!(history.len(), MAX_HISTORY_ENTRIES);
    // Newest entries survive; oldest 50 were pruned.
    assert_eq!(history.first().map(String::as_str), Some("entry 50"));
    assert_eq!(
        history.last().map(String::as_str),
        Some(format!("entry {}", MAX_HISTORY_ENTRIES + 49)).as_deref()
    );
}

#[test]
fn missing_file_loads_empty() {
    let history = load_history(None);
    assert!(history.is_empty());
}

#[test]
fn history_is_one_trimmed_entry_per_line() {
    assert_eq!(append_history(None, "  hello \u{3000}"), Some(b"hello\n".to_vec()));
    assert_eq!(append_history(Some(b"one\n\n  \ntwo"), "three"), Some(b"one\ntwo\nthree\n".to_vec()));
    assert_eq!(append_history(Some(b"one\n"), " one"), None);
    assert_eq!(append_history(Some(b"one\n"), " /one"), None);
}

#[test]
fn line_endings_are_not_part_of_an_entry() {
    assert_eq!(load_history(Some(b"a\r\nb\n")), vec!["a", "b"]);
    assert_eq!(load_history(Some(b"a\r\nb\r")), vec!["a", "b\r"]);
    assert_eq!(load_history(Some(b"a\rb\n  c \n")), vec!["a\rb", "  c "]);
    assert!(load_history(Some(b"")).is_empty());
}

#[test]
fn a_file_that_cannot_be_parsed_loads_empty() {
    assert!(load_history(Some(b"a\n\xff\nb\n")).is_empty());
    assert!(load_history(Some(b"a\nb\n\xc3")).is_empty());
    assert_eq!(load_history(Some(b"\xc3\xa9\n")), vec!["\u{e9}"]);
    // The next entry starts the history anew.
    assert_eq!(append_history(Some(b"a\n\xff\n"), "b"), Some(b"b\n".to_vec()));
}

#[test]
fn entries_are_trimmed_of_all_white_space() {
    let odd = "\u{85}\u{a0}\u{1680}\u{2000}\u{200a}\u{2028}\u{2029}\u{202f}\u{205f}\u{3000}\u{b}\u{c}";
    assert_eq!(history_entry(&format!("{odd}x{odd}")), Some("x".to_string()));
    assert_eq!(history_entry(odd), None);
    // Zero width space and the byte order mark are no white space.
    assert_eq!(history_entry("\u{200b}"), Some("\u{200b}".to_string()));
    assert_eq!(history_entry("\u{feff}"), Some("\u{feff}".to_string()));
}

#[test]
fn an_entry_with_a_break_is_one_entry() {
    let file = submit(&["before", "a\nb", "a\r\n\\n/", "after"]);
    assert_eq!(
        file,
        Some(b"before\n/\x1ea\\nb\n/\x1ea\\r\\n\\\\n/\nafter\n".to_vec())
    );
    assert_eq!(load_history(file.as_deref()), vec!["before", "a\nb", "a\r\n\\n/", "after"]);
    // A repetition is recognised.
    assert_eq!(append_history(Some(b"/\x1ea\\nb\n"), "a\nb\n"), None);
}

#[test]
fn every_other_line_is_read_as_it_stands() {
    for line in [
        "/help", "/\\ab", "/\\a\\nb", "/\u{1e}", "/\u{1e}ab", "/\u{1e}a\\nb\\", "/\u{1e}a\\xb\\n",
        " /\u{1e}a\\nb", "a\\nb",
    ] {
        let file = format!("{line}\n");
        assert_eq!(load_history(Some(file.as_bytes())), vec![line]);
        // It is written back as it was.
        let file = append_history(Some(file.as_bytes()), "new").unwrap();
        assert_eq!(file, format!("{line}\nnew\n").into_bytes());
    }
}

#[test]
fn breaks_do_not_break_the_cap() {
    let mut text = String::new();
    for i in 0..MAX_HISTORY_ENTRIES {
        text.push_str(&format!("entry {i}\n"));
    }
    let file = append_history(Some(text.as_bytes()), "a\nb").unwrap();
    let history = load_history(Some(&file));
    assert_eq!(history.len(), MAX_HISTORY_ENTRIES);
    assert_eq!(history.first().map(String::as_str), Some("entry 1"));
    assert_eq!(history.last().map(String::as_str), Some("a\nb"));
}

#[test]
fn a_bare_carriage_return_is_lost_when_its_line_is_rewritten() {
    assert_eq!(load_history(Some(b"a\r\r\n")), vec!["a\r"]);
    let file = append_history(Some(b"a\r\r\n"), "new").unwrap();
    assert_eq!(file, b"a\r\nnew\n".to_vec());
    assert_eq!(load_history(Some(&file)), vec!["a", "new"]);
}

#[test]
fn an_entry_without_a_break_stays_as_it_is() {
    assert_eq!(append_history(None, "a\\nb \\ \rc"), Some(b"a\\nb \\ \rc\n".to_vec()));
    assert_eq!(load_history(Some(b"a\\nb \\ \rc\n")), vec!["a\\nb \\ \rc"]);
}

#[test]
fn places_below_the_home_directory() {
    let home = std::path::PathBuf::from("/home/user");
    let skills = skills_dir_in(Some(home.clone()));
    assert_eq!(skills.below, vec![".deepseek", "skills"]);
    assert!(matches!(&skills.base, Base::Home(h) if *h == home));
    let history = history_path_in(Some(home.clone())).unwrap();
    assert_eq!(history.below, vec![".deepseek", HISTORY_FILE_NAME]);
    assert_eq!(HISTORY_FILE_NAME, "composer_history.txt");
    assert!(matches!(&history.base, Base::Home(h) if *h == home));
}

#[test]
fn places_without_a_home_directory() {
    let skills = skills_dir_in(None);
    assert!(skills.below.is_empty());
    assert!(matches!(&skills.base, Base::Fixed(p) if p == "/tmp/deepseek/skills"));
    assert!(history_path_in(None).is_none());
}

#[test]
fn the_home_directory_is_asked_for() {
    let home = dirs::home_dir();
    let skills = default_skills_dir();
    match (&home, &skills.base) {
        (Some(h), Base::Home(found)) => assert_eq!(h, found),
        (None, Base::Fixed(p)) => assert_eq!(p, "/tmp/deepseek/skills"),
        other => panic!("unexpected {:?}", other),
    }
    assert_eq!(history_path().is_some(), home.is_some());
}
