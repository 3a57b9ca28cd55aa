//! Skill definitions, the registry and the listing.

use deepseek_tui::skills::{list, show, DirEntry, DirScan, ReadOutcome, SkillRegistry};

fn readable(name: &str, content: &str) -> DirEntry {
    DirEntry {
        is_dir: true,
        skill_path: format!("skills/{name}/SKILL.md"),
        read: ReadOutcome::Content(content.to_string()),
    }
}

fn reason(content: &str) -> String {
    match SkillRegistry::parse_skill(content) {
        Err(reason) => reason,
        Ok(skill) => panic!("unexpected {:?}", skill),
    }
}

#[test]
fn a_definition_is_parsed() {
    let skill = SkillRegistry::parse_skill(
        " \n---\n# comment\nName:  demo \nDESCRIPTION: does: things\nother\n---\n\n body --- more \n",
    )
    .unwrap();
    assert_eq!(skill.name, "demo");
    assert_eq!(skill.description, "does: things");
    assert_eq!(skill.body, "body --- more");
}

#[test]
fn the_last_of_two_equal_fields_counts() {
    let skill = SkillRegistry::parse_skill("---\nname: a\nname: b\n---").unwrap();
    assert_eq!(skill.name, "b");
    assert_eq!(skill.description, "");
    assert_eq!(skill.body, "");
}

#[test]
fn fields_may_stand_on_the_opening_line() {
    let skill = SkillRegistry::parse_skill("--- name: a ---x").unwrap();
    assert_eq!(skill.name, "a");
    assert_eq!(skill.body, "x");
}

#[test]
fn only_ascii_letters_of_a_key_are_lowered() {
    let skill = SkillRegistry::parse_skill("---\nNAME: a\nDE\u{17f}CRIPTION: b\n---").unwrap();
    assert_eq!(skill.description, "");
}

#[test]
fn each_error_of_a_definition() {
    assert_eq!(reason("name: a"), "missing frontmatter opening delimiter '---'");
    assert_eq!(reason(""), "missing frontmatter opening delimiter '---'");
    assert_eq!(reason("---\nname: a"), "missing frontmatter closing delimiter");
    assert_eq!(reason("---\ndescription: a\n---"), "missing required frontmatter field: name");
    assert_eq!(reason("---\nname:  \n---"), "missing required frontmatter field: name");
    assert_eq!(reason("---\n#name: a\n---"), "missing required frontmatter field: name");
}

#[test]
fn every_entry_is_a_skill_a_warning_or_neither() {
    let scan = DirScan::Entries(vec![
        readable("good", "---\nname: good\n---\nBody"),
        readable("bad", "no frontmatter"),
        DirEntry {
            is_dir: true,
            skill_path: "skills/locked/SKILL.md".to_string(),
            read: ReadOutcome::Failed { exists: true, error: "denied".to_string() },
        },
        DirEntry {
            is_dir: true,
            skill_path: "skills/none/SKILL.md".to_string(),
            read: ReadOutcome::Failed { exists: false, error: "not found".to_string() },
        },
        DirEntry {
            is_dir: false,
            skill_path: "skills/file/SKILL.md".to_string(),
            read: ReadOutcome::Content("---\nname: file\n---".to_string()),
        },
    ]);
    let registry = SkillRegistry::discover("skills", &scan);
    assert_eq!(registry.len(), 1);
    assert!(!registry.is_empty());
    assert_eq!(registry.list()[0].name, "good");
    assert_eq!(
        registry.warnings().to_vec(),
        vec![
            "Failed to parse skills/bad/SKILL.md: missing frontmatter opening delimiter '---'",
            "Failed to read skills/locked/SKILL.md: denied",
        ]
    );
}

#[test]
fn a_missing_directory_is_no_reason_to_warn() {
    let registry = SkillRegistry::discover("skills", &DirScan::Missing);
    assert!(registry.is_empty());
    assert!(registry.warnings().is_empty());
    let registry = SkillRegistry::discover("skills", &DirScan::Unreadable);
    assert!(registry.is_empty());
    assert_eq!(registry.warnings().to_vec(), vec!["Failed to read skills directory skills"]);
    assert!(SkillRegistry::default().is_empty());
}

#[test]
fn lookup_takes_the_first_of_that_name() {
    let scan = DirScan::Entries(vec![
        readable("a", "---\nname: twin\n---\nfirst"),
        readable("b", "---\nname: twin\n---\nsecond"),
    ]);
    let registry = SkillRegistry::discover("skills", &scan);
    assert_eq!(registry.get("twin").unwrap().body, "first");
    assert!(registry.get("Twin").is_none());
}

#[test]
fn listing_is_sorted_and_complete() {
    let names: Vec<String> = vec!["b".to_string(), "a".to_string(), "B".to_string(), "a".to_string()];
    assert_eq!(list("dir", Some(&names)), "B\na\na\nb\n");
    assert_eq!(list("dir", Some(&Vec::new())), "No skills found in dir\n");
    assert_eq!(list("dir", None), "No skills directory found at dir\n");
}

#[test]
fn listing_orders_by_code_point() {
    let names: Vec<String> =
        vec!["\u{1f600}".to_string(), "\u{ff5e}".to_string(), "za".to_string(), "z".to_string()];
    assert_eq!(list("dir", Some(&names)), "z\nza\n\u{ff5e}\n\u{1f600}\n");
}

#[test]
fn showing_prints_the_contents() {
    assert_eq!(show("p/SKILL.md", Some("text")), Ok("text\n".to_string()));
    assert_eq!(show("p/SKILL.md", None), Err("Failed to read p/SKILL.md".to_string()));
}
