//! The commands that list skills and run one.

use deepseek_tui::commands::{list_skills, run_skill, App, HistoryCell};
use deepseek_tui::skills::{DirEntry, DirScan, ReadOutcome};

fn test_app() -> App {
    App { skills_dir: "work/skills".to_string(), active_skill: None, history: Vec::new() }
}

fn entry(name: &str, content: &str) -> DirEntry {
    DirEntry {
        is_dir: true,
        skill_path: format!("work/skills/{name}/SKILL.md"),
        read: ReadOutcome::Content(content.to_string()),
    }
}

#[test]
fn test_list_skills_empty_directory() {
    let mut app = test_app();
    let result = list_skills(&mut app, &DirScan::Missing);
    assert!(result.message.is_some());
    let msg = result.message.unwrap();
    assert!(msg.contains("No skills found"));
    assert!(msg.contains("Skills location:"));
}

#[test]
fn test_list_skills_with_skills() {
    let scan = DirScan::Entries(vec![entry(
        "test-skill",
        "---\nname: test-skill\ndescription: A test skill\n---\nDo something",
    )]);
    let mut app = test_app();
    let result = list_skills(&mut app, &scan);
    assert!(result.message.is_some());
    let msg = result.message.unwrap();
    assert!(msg.contains("Available skills"));
    assert!(msg.contains("/test-skill"));
}

#[test]
fn test_run_skill_without_name() {
    let mut app = test_app();
    let result = run_skill(&mut app, None, &DirScan::Missing);
    assert!(result.message.is_some());
    assert!(result.message.unwrap().contains("Usage: /skill"));
}

#[test]
fn test_run_skill_not_found() {
    let mut app = test_app();
    let result = run_skill(&mut app, Some("nonexistent"), &DirScan::Missing);
    assert!(result.message.is_some());
    let msg = result.message.unwrap();
    assert!(msg.contains("not found"));
}

#[test]
fn test_run_skill_activates() {
    let scan = DirScan::Entries(vec![entry(
        "test-skill",
        "---\nname: test-skill\ndescription: A test skill\n---\nDo something special",
    )]);
    let mut app = test_app();
    let result = run_skill(&mut app, Some("test-skill"), &scan);
    assert!(result.message.is_some());
    let msg = result.message.unwrap();
    assert!(msg.contains("Skill 'test-skill' activated"));
    assert!(msg.contains("A test skill"));
    assert!(app.active_skill.is_some());
    assert!(!app.history.is_empty());
}

#[test]
fn help_on_adding_skills_to_the_letter() {
    let mut app = test_app();
    let result = list_skills(&mut app, &DirScan::Missing);
    assert!(!result.is_error);
    assert_eq!(
        result.message.unwrap(),
        "No skills found.\n\nSkills location: work/skills\n\n\
         To add skills, create directories with SKILL.md files:\n  \
         work/skills/my-skill/SKILL.md\n\n\
         Format:\n  ---\n  name: my-skill\n  description: What this skill does\n  \
         allowed-tools: read_file, list_dir\n  ---\n\n  <instructions here>"
    );
}

#[test]
fn list_of_skills_to_the_letter() {
    let scan = DirScan::Entries(vec![
        entry("b", "---\nname: b\ndescription: Second\n---"),
        entry("a", "---\nname: a\n---"),
        entry("c", "oops"),
    ]);
    let mut app = test_app();
    let result = list_skills(&mut app, &scan);
    assert!(!result.is_error);
    assert_eq!(
        result.message.unwrap(),
        "Available skills (2):\n\u{2500}\u{2500}\u{2500}\u{2500}\u{2500}\u{2500}\u{2500}\u{2500}\
         \u{2500}\u{2500}\u{2500}\u{2500}\u{2500}\u{2500}\u{2500}\u{2500}\u{2500}\u{2500}\u{2500}\
         \u{2500}\u{2500}\u{2500}\u{2500}\u{2500}\u{2500}\u{2500}\u{2500}\u{2500}\u{2500}\n  \
         /b - Second\n  /a - \n\nUse /skill <name> to run a skill\nSkills location: work/skills\n\
         Warnings (1):\n  - Failed to parse work/skills/c/SKILL.md: missing frontmatter opening \
         delimiter '---'\n"
    );
    assert!(app.history.is_empty());
    assert!(app.active_skill.is_none());
}

#[test]
fn activation_to_the_letter() {
    let scan = DirScan::Entries(vec![entry("t", "---\nname: t\ndescription: D\n---\nDo it")]);
    let mut app = test_app();
    let result = run_skill(&mut app, Some("  t\n"), &scan);
    assert!(!result.is_error);
    assert_eq!(
        result.message.unwrap(),
        "Skill 't' activated.\n\nDescription: D\n\n\
         Type your request and the skill instructions will be applied."
    );
    assert_eq!(
        app.active_skill.unwrap(),
        "You are now using a skill. Follow these instructions:\n\n# Skill: t\n\nDo it\n\n---\n\n\
         Now respond to the user's request following the above skill instructions."
    );
    assert_eq!(app.history.len(), 1);
    match &app.history[0] {
        HistoryCell::System { content } => assert_eq!(content, "Activated skill: t\n\nD"),
    }
}

#[test]
fn new_runs_the_skill_creator() {
    let scan = DirScan::Entries(vec![entry("x", "---\nname: skill-creator\n---\nCreate")]);
    let mut app = test_app();
    let result = run_skill(&mut app, Some(" new "), &scan);
    assert!(!result.is_error);
    assert!(result.message.unwrap().contains("Skill 'skill-creator' activated"));
}

#[test]
fn unknown_skill_leaves_the_client_as_it_is() {
    let scan = DirScan::Entries(vec![
        entry("a", "---\nname: a\n---"),
        entry("b", "---\nname: b\n---"),
        entry("c", "oops"),
    ]);
    let mut app = test_app();
    app.active_skill = Some("before".to_string());
    let result = run_skill(&mut app, Some("z"), &scan);
    assert!(result.is_error);
    assert_eq!(
        result.message.unwrap(),
        "Skill 'z' not found.\n\nAvailable skills: a, b\nWarnings (1):\n  - Failed to parse \
         work/skills/c/SKILL.md: missing frontmatter opening delimiter '---'\n"
    );
    assert_eq!(app.active_skill, Some("before".to_string()));
    assert!(app.history.is_empty());
}

#[test]
fn unknown_skill_where_there_are_none() {
    let mut app = test_app();
    let result = run_skill(&mut app, Some("new"), &DirScan::Unreadable);
    assert!(result.is_error);
    assert_eq!(
        result.message.unwrap(),
        "Skill 'skill-creator' not found. No skills installed.\n\nUse /skills to see how to add \
         skills.\nWarnings (1):\n  - Failed to read skills directory work/skills\n"
    );
}

#[test]
fn usage_is_an_error() {
    let mut app = test_app();
    let result = run_skill(&mut app, None, &DirScan::Missing);
    assert!(result.is_error);
    assert_eq!(result.message.unwrap(), "Usage: /skill <name>");
}
