//! Skills commands: `/skills` and `/skill`.

use vstd::prelude::*;
use vstd::string::*;

use crate::skills::{
    definitions, lookup_finds_the_first, parsed_skill_is_tidy, registry_of, skill_named, skills_in,
    DirEntry, DirScan, ReadOutcome, RegistryView, Skill, SkillRegistry, SkillView,
};
use crate::text::{
    all_space, contains, decimal, is_tidy, join, joined, occurs_at, push_decimal, same_text, texts,
    trim, trim_takes_the_ends, trimmed,
};

verus! {

// === State ===

/// A cell of the transcript.
#[derive(Debug)]
pub enum HistoryCell {
    /// A message of the client itself.
    System { content: String },
}

/// The part of the client's state that the skills commands see.
#[derive(Debug)]
pub struct App {
    /// The path of the skills directory, for display.
    pub skills_dir: String,
    /// The instructions that go with the next message of the user.
    pub active_skill: Option<String>,
    /// The transcript.
    pub history: Vec<HistoryCell>,
}

/// The texts of the transcript.
pub open spec fn transcript(cells: Seq<HistoryCell>) -> Seq<Seq<char>> {
    cells.map_values(
        |c: HistoryCell|
            match c {
                HistoryCell::System { content } => content@,
            },
    )
}

impl App {
    /// Adds a cell to the transcript.
    pub fn add_message(&mut self, cell: HistoryCell)
        ensures
            final(self).history@ == old(self).history@.push(cell),
            final(self).skills_dir == old(self).skills_dir,
            final(self).active_skill == old(self).active_skill,
    {
        self.history.push(cell);
    }
}

/// What a command answers.
#[derive(Debug)]
pub struct CommandResult {
    pub message: Option<String>,
    pub is_error: bool,
}

/// `r` is a message, or an error, with this text.
pub open spec fn says(r: CommandResult, is_error: bool, text: Seq<char>) -> bool {
    &&& r.is_error == is_error
    &&& r.message matches Some(m)
    &&& m@ == text
}

impl CommandResult {
    /// An answer.
    pub fn message(text: String) -> (r: Self)
        ensures
            says(r, false, text@),
    {
        CommandResult { message: Some(text), is_error: false }
    }

    /// An answer that says what is wrong.
    pub fn error(text: String) -> (r: Self)
        ensures
            says(r, true, text@),
    {
        CommandResult { message: Some(text), is_error: true }
    }
}

// === Warnings ===

/// The warnings as a list.
pub open spec fn bullets(warnings: Seq<Seq<char>>) -> Seq<char>
    decreases warnings.len(),
{
    if warnings.len() == 0 {
        Seq::empty()
    } else {
        bullets(warnings.drop_last()) + "  - "@ + warnings.last() + "\n"@
    }
}

/// The warnings under a heading; nothing if there are none.
pub open spec fn warnings_text(warnings: Seq<Seq<char>>) -> Seq<char> {
    if warnings.len() == 0 {
        Seq::empty()
    } else {
        "\nWarnings ("@ + decimal(warnings.len()) + "):\n"@ + bullets(warnings)
    }
}

/// The warnings of a registry.
fn render_skill_warnings(registry: &SkillRegistry) -> (r: String)
    ensures
        r@ == warnings_text(registry@.warnings),
{
    let warnings: &[String] = registry.warnings();
    let ghost all = texts(warnings@);
    if warnings.len() == 0 {
        return String::new();
    }
    let mut out: String = "\nWarnings (".to_string();
    push_decimal(&mut out, warnings.len() as u64);
    out.append("):\n");
    let ghost head = out@;
    let mut i: usize = 0;
    assert(out@ =~= head + bullets(all.take(0)));
    while i < warnings.len()
        invariant
            i <= warnings@.len(),
            all == texts(warnings@),
            out@ == head + bullets(all.take(i as int)),
        decreases warnings@.len() - i,
    {
        out.append("  - ");
        out.append(warnings[i].as_str());
        out.append("\n");
        proof {
            assert(all.take(i + 1).drop_last() =~= all.take(i as int));
            assert(out@ =~= head + bullets(all.take(i + 1)));
        }
        i = i + 1;
    }
    assert(all.take(warnings@.len() as int) =~= all);
    out
}

// === /skills ===

/// The lines that list the skills.
pub open spec fn skill_lines(skills: Seq<SkillView>) -> Seq<char>
    decreases skills.len(),
{
    if skills.len() == 0 {
        Seq::empty()
    } else {
        skill_lines(skills.drop_last()) + "  /"@ + skills.last().name + " - "@
            + skills.last().description + "\n"@
    }
}

/// What `/skills` answers.
pub open spec fn skills_text(dir: Seq<char>, registry: RegistryView) -> Seq<char> {
    if registry.skills.len() == 0 {
        "No skills found.\n\nSkills location: "@ + dir
            + "\n\nTo add skills, create directories with SKILL.md files:\n  "@ + dir
            + "/my-skill/SKILL.md\n\nFormat:\n  ---\n  name: my-skill\n  description: What this skill does\n  allowed-tools: read_file, list_dir\n  ---\n\n  <instructions here>"@
            + warnings_text(registry.warnings)
    } else {
        "Available skills ("@ + decimal(registry.skills.len()) + "):\n"@
            + "─────────────────────────────\n"@ + skill_lines(registry.skills)
            + "\nUse /skill <name> to run a skill\nSkills location: "@ + dir + warnings_text(
            registry.warnings,
        )
    }
}

/// List all available skills. `scan` is what was read of the skills directory.
pub fn list_skills(app: &mut App, scan: &DirScan) -> (r: CommandResult)
    ensures
        says(
            r,
            false,
            skills_text(old(app).skills_dir@, registry_of(old(app).skills_dir@, *scan)),
        ),
        *final(app) == *old(app),
{
    let registry: SkillRegistry = SkillRegistry::discover(app.skills_dir.as_str(), scan);
    list_registered(app, &registry)
}

/// List the skills in a registry.
pub fn list_registered(app: &App, registry: &SkillRegistry) -> (r: CommandResult)
    ensures
        says(r, false, skills_text(app.skills_dir@, registry@)),
{
    let dir: &str = app.skills_dir.as_str();
    if registry.is_empty() {
        let mut out: String = "No skills found.\n\nSkills location: ".to_string();
        out.append(dir);
        out.append("\n\nTo add skills, create directories with SKILL.md files:\n  ");
        out.append(dir);
        out.append(
            "/my-skill/SKILL.md\n\nFormat:\n  ---\n  name: my-skill\n  description: What this skill does\n  allowed-tools: read_file, list_dir\n  ---\n\n  <instructions here>",
        );
        out.append(render_skill_warnings(registry).as_str());
        return CommandResult::message(out);
    }
    let mut out: String = "Available skills (".to_string();
    push_decimal(&mut out, registry.len() as u64);
    out.append("):\n");
    out.append("─────────────────────────────\n");
    let skills: &[Skill] = registry.list();
    let ghost all = definitions(skills@);
    let ghost head = out@;
    let mut i: usize = 0;
    assert(out@ =~= head + skill_lines(all.take(0)));
    while i < skills.len()
        invariant
            i <= skills@.len(),
            all == definitions(skills@),
            out@ == head + skill_lines(all.take(i as int)),
        decreases skills@.len() - i,
    {
        out.append("  /");
        out.append(skills[i].name.as_str());
        out.append(" - ");
        out.append(skills[i].description.as_str());
        out.append("\n");
        proof {
            assert(all.take(i + 1).drop_last() =~= all.take(i as int));
            assert(out@ =~= head + skill_lines(all.take(i + 1)));
        }
        i = i + 1;
    }
    assert(all.take(skills@.len() as int) =~= all);
    out.append("\nUse /skill <name> to run a skill\nSkills location: ");
    out.append(dir);
    out.append(render_skill_warnings(registry).as_str());
    CommandResult::message(out)
}

// === /skill ===

/// The name that the user means.
pub open spec fn meant_name(name: Seq<char>) -> Seq<char> {
    if trim(name) == "new"@ {
        "skill-creator"@
    } else {
        trim(name)
    }
}

/// The instructions that activate a skill.
pub open spec fn instruction_text(skill: SkillView) -> Seq<char> {
    "You are now using a skill. Follow these instructions:\n\n# Skill: "@ + skill.name + "\n\n"@
        + skill.body
        + "\n\n---\n\nNow respond to the user's request following the above skill instructions."@
}

/// What the transcript says of an activated skill.
pub open spec fn activation_text(skill: SkillView) -> Seq<char> {
    "Activated skill: "@ + skill.name + "\n\n"@ + skill.description
}

/// What the user is told of an activated skill.
pub open spec fn activated_text(skill: SkillView) -> Seq<char> {
    "Skill '"@ + skill.name + "' activated.\n\nDescription: "@ + skill.description
        + "\n\nType your request and the skill instructions will be applied."@
}

/// The names of the skills.
pub open spec fn names_of(skills: Seq<SkillView>) -> Seq<Seq<char>> {
    skills.map_values(|s: SkillView| s.name)
}

/// What the user is told of a skill that is not there.
pub open spec fn not_found_text(name: Seq<char>, registry: RegistryView) -> Seq<char> {
    if registry.skills.len() == 0 {
        "Skill '"@ + name
            + "' not found. No skills installed.\n\nUse /skills to see how to add skills."@
            + warnings_text(registry.warnings)
    } else {
        "Skill '"@ + name + "' not found.\n\nAvailable skills: "@ + join(
            names_of(registry.skills),
            ", "@,
        ) + warnings_text(registry.warnings)
    }
}

/// The names of the skills in a registry.
fn skill_names(registry: &SkillRegistry) -> (r: Vec<String>)
    ensures
        texts(r@) == names_of(registry@.skills),
{
    let skills: &[Skill] = registry.list();
    let ghost all = names_of(definitions(skills@));
    let mut names: Vec<String> = Vec::new();
    let mut i: usize = 0;
    assert(texts(names@) =~= all.take(0));
    while i < skills.len()
        invariant
            i <= skills@.len(),
            all == names_of(definitions(skills@)),
            texts(names@) == all.take(i as int),
        decreases skills@.len() - i,
    {
        let ghost before = names@;
        names.push(skills[i].name.clone());
        proof {
            assert(texts(names@) =~= texts(before).push(all[i as int]));
            assert(all.take(i + 1) =~= all.take(i as int).push(all[i as int]));
        }
        i = i + 1;
    }
    assert(all.take(skills@.len() as int) =~= all);
    names
}

/// How the client changes, and what it answers, when the user asks for the skill
/// `name`.
pub open spec fn ran(
    before: App,
    after: App,
    answer: CommandResult,
    name: Seq<char>,
    registry: RegistryView,
) -> bool {
    match skill_named(registry.skills, meant_name(name)) {
        Some(skill) => {
            &&& says(answer, false, activated_text(skill))
            &&& after.skills_dir == before.skills_dir
            &&& after.active_skill matches Some(i)
            &&& i@ == instruction_text(skill)
            &&& transcript(after.history@) == transcript(before.history@).push(
                activation_text(skill),
            )
        },
        None => {
            &&& says(answer, true, not_found_text(meant_name(name), registry))
            &&& after == before
        },
    }
}

/// Run a specific skill: activates it for the next message of the user.
/// `scan` is what was read of the skills directory.
pub fn run_skill(app: &mut App, name: Option<&str>, scan: &DirScan) -> (r: CommandResult)
    ensures
        match name {
            None => says(r, true, "Usage: /skill <name>"@) && *final(app) == *old(app),
            Some(name) => ran(
                *old(app),
                *final(app),
                r,
                name@,
                registry_of(old(app).skills_dir@, *scan),
            ),
        },
{
    match name {
        Some(name) => {
            let registry: SkillRegistry = SkillRegistry::discover(app.skills_dir.as_str(), scan);
            run_registered(app, name, &registry)
        },
        None => CommandResult::error("Usage: /skill <name>".to_string()),
    }
}

/// Run a skill of a registry.
pub fn run_registered(app: &mut App, name: &str, registry: &SkillRegistry) -> (r: CommandResult)
    ensures
        ran(*old(app), *final(app), r, name@, registry@),
{
    let mut name: String = trimmed(name);
    // `/skill new` is a friendly alias for `/skill skill-creator`.
    if same_text(name.as_str(), "new") {
        name = "skill-creator".to_string();
    }
    match registry.get(name.as_str()) {
        Some(skill) => {
            let mut instruction: String =
                "You are now using a skill. Follow these instructions:\n\n# Skill: ".to_string();
            instruction.append(skill.name.as_str());
            instruction.append("\n\n");
            instruction.append(skill.body.as_str());
            instruction.append(
                "\n\n---\n\nNow respond to the user's request following the above skill instructions.",
            );
            let mut content: String = "Activated skill: ".to_string();
            content.append(skill.name.as_str());
            content.append("\n\n");
            content.append(skill.description.as_str());
            let ghost before = app.history@;
            app.add_message(HistoryCell::System { content });
            assert(transcript(app.history@) =~= transcript(before).push(activation_text(skill@)));
            app.active_skill = Some(instruction);
            let mut text: String = "Skill '".to_string();
            text.append(skill.name.as_str());
            text.append("' activated.\n\nDescription: ");
            text.append(skill.description.as_str());
            text.append("\n\nType your request and the skill instructions will be applied.");
            CommandResult::message(text)
        },
        None => {
            let available: Vec<String> = skill_names(registry);
            assert(texts(available@).len() == available@.len());
            let mut text: String = "Skill '".to_string();
            text.append(name.as_str());
            if available.len() == 0 {
                text.append(
                    "' not found. No skills installed.\n\nUse /skills to see how to add skills.",
                );
            } else {
                text.append("' not found.\n\nAvailable skills: ");
                text.append(joined(&available, ", ").as_str());
            }
            text.append(render_skill_warnings(registry).as_str());
            CommandResult::error(text)
        },
    }
}

// === Laws ===

/// `/skill new` means `/skill skill-creator`, with any white space around the
/// name; every other name means itself.
pub proof fn new_is_an_alias(name: Seq<char>)
    ensures
        trim(name) == "new"@ ==> meant_name(name) == meant_name("skill-creator"@),
        trim(name) != "new"@ ==> meant_name(name) == trim(name),
{
    reveal_strlit("new");
    reveal_strlit("skill-creator");
}

/// The line of every skill stands in what `/skills` answers.
pub proof fn every_skill_is_listed(dir: Seq<char>, registry: RegistryView, i: int)
    requires
        0 <= i < registry.skills.len(),
    ensures
        contains(
            skills_text(dir, registry),
            "  /"@ + registry.skills[i].name + " - "@ + registry.skills[i].description + "\n"@,
        ),
{
    let skill = registry.skills[i];
    let line = "  /"@ + skill.name + " - "@ + skill.description + "\n"@;
    let head = "Available skills ("@ + decimal(registry.skills.len()) + "):\n"@
        + "─────────────────────────────\n"@;
    let lines = skill_lines(registry.skills);
    let text = skills_text(dir, registry);
    let at = line_stands(registry.skills, i);
    let k = head.len() + at;
    assert(text.subrange(k, k + line.len()) =~= lines.subrange(at, at + line.len()));
    assert(occurs_at(text, line, k));
}

/// Where the line of a skill stands among the lines of all.
proof fn line_stands(skills: Seq<SkillView>, i: int) -> (at: int)
    requires
        0 <= i < skills.len(),
    ensures
        occurs_at(
            skill_lines(skills),
            "  /"@ + skills[i].name + " - "@ + skills[i].description + "\n"@,
            at,
        ),
    decreases skills.len(),
{
    let line = "  /"@ + skills[i].name + " - "@ + skills[i].description + "\n"@;
    let head = skill_lines(skills.drop_last());
    let all = skill_lines(skills);
    if i == skills.len() - 1 {
        let at = head.len() as int;
        assert(all.subrange(at, at + line.len()) =~= line);
        at
    } else {
        let at = line_stands(skills.drop_last(), i);
        assert(all.subrange(at, at + line.len()) =~= head.subrange(at, at + line.len()));
        at
    }
}

/// Every skill that `/skills` lists can be run under its name, but for one
/// that is named `new`, which is an alias for another.
pub proof fn listed_skill_can_be_run(dir: Seq<char>, scan: DirScan, i: int)
    requires
        0 <= i < registry_of(dir, scan).skills.len(),
        registry_of(dir, scan).skills[i].name != "new"@,
    ensures
        ({
            let skills = registry_of(dir, scan).skills;
            skill_named(skills, meant_name(skills[i].name)) matches Some(skill) && skill.name
                == skills[i].name
        }),
{
    let skills = registry_of(dir, scan).skills;
    if let DirScan::Entries(entries) = scan {
        names_are_trimmed(entries@, i);
    }
    lookup_finds_the_first(skills, skills[i].name);
}

/// The names in a registry have no white space at either end.
proof fn names_are_trimmed(entries: Seq<DirEntry>, i: int)
    requires
        0 <= i < skills_in(entries).len(),
    ensures
        trim(skills_in(entries)[i].name) == skills_in(entries)[i].name,
    decreases entries.len(),
{
    let e = entries.last();
    if i < skills_in(entries.drop_last()).len() {
        names_are_trimmed(entries.drop_last(), i);
    } else if let ReadOutcome::Content(content) = e.read {
        parsed_skill_is_tidy(content@);
    }
}

/// Warnings are told under their number, a line for each, in their order.
pub proof fn warnings_are_told_one_by_one(warnings: Seq<Seq<char>>, warning: Seq<char>)
    ensures
        warnings_text(Seq::empty()).len() == 0,
        bullets(Seq::empty()).len() == 0,
        bullets(warnings.push(warning)) == bullets(warnings) + "  - "@ + warning + "\n"@,
        warnings.len() > 0 ==> warnings_text(warnings) == "\nWarnings ("@ + decimal(warnings.len())
            + "):\n"@ + bullets(warnings),
{
    assert(warnings.push(warning).drop_last() =~= warnings);
}

/// What `/skills` answers: the number of skills, a line with the name and the
/// description of each, in their order, and where they are; or how to add one.
/// The warnings are told in either case.
pub proof fn skills_are_listed_one_by_one(
    dir: Seq<char>,
    registry: RegistryView,
    skills: Seq<SkillView>,
    skill: SkillView,
)
    ensures
        skill_lines(Seq::empty()).len() == 0,
        skill_lines(skills.push(skill)) == skill_lines(skills) + "  /"@ + skill.name + " - "@
            + skill.description + "\n"@,
        registry.skills.len() > 0 ==> skills_text(dir, registry) == "Available skills ("@ + decimal(
            registry.skills.len(),
        ) + "):\n"@ + "─────────────────────────────\n"@ + skill_lines(registry.skills)
            + "\nUse /skill <name> to run a skill\nSkills location: "@ + dir + warnings_text(
            registry.warnings,
        ),
        registry.skills.len() == 0 ==> skills_text(dir, registry)
            == "No skills found.\n\nSkills location: "@ + dir
            + "\n\nTo add skills, create directories with SKILL.md files:\n  "@ + dir
            + "/my-skill/SKILL.md\n\nFormat:\n  ---\n  name: my-skill\n  description: What this skill does\n  allowed-tools: read_file, list_dir\n  ---\n\n  <instructions here>"@
            + warnings_text(registry.warnings),
{
    assert(skills.push(skill).drop_last() =~= skills);
}

/// The text that a command's answer shows.
pub open spec fn shown(answer: CommandResult) -> Seq<char> {
    answer.message->0@
}

/// Asking for a skill by its name, with any white space around it, activates the
/// first skill of that name: its whole body becomes the instructions for the
/// next message, the transcript gains one message that names it, and the user is
/// told. Asking for `new` asks for `skill-creator`.
pub proof fn skill_is_activated_by_its_name(
    before: App,
    after: App,
    answer: CommandResult,
    u: Seq<char>,
    t: Seq<char>,
    w: Seq<char>,
    registry: RegistryView,
    i: int,
)
    requires
        all_space(u),
        all_space(w),
        is_tidy(t),
        ran(before, after, answer, u + t + w, registry),
        0 <= i < registry.skills.len(),
        registry.skills[i].name == (if t == "new"@ {
            "skill-creator"@
        } else {
            t
        }),
        forall|j: int|
            0 <= j < i ==> (#[trigger] registry.skills[j]).name != registry.skills[i].name,
    ensures
        ({
            let skill = registry.skills[i];
            let n = before.history@.len() as int;
            &&& !answer.is_error && answer.message is Some
            &&& shown(answer) == "Skill '"@ + skill.name + "' activated.\n\nDescription: "@
                + skill.description
                + "\n\nType your request and the skill instructions will be applied."@
            &&& after.skills_dir@ == before.skills_dir@
            &&& after.active_skill matches Some(text)
            &&& text@ == "You are now using a skill. Follow these instructions:\n\n# Skill: "@
                + skill.name + "\n\n"@ + skill.body
                + "\n\n---\n\nNow respond to the user's request following the above skill instructions."@
            &&& after.history@.len() == n + 1
            &&& after.history@[n]->content@ == "Activated skill: "@ + skill.name + "\n\n"@
                + skill.description
            &&& forall|k: int|
                0 <= k < n ==> (#[trigger] after.history@[k])->content@
                    == before.history@[k]->content@
        }),
{
    trim_takes_the_ends(u, t, w);
    let skills = registry.skills;
    let name = skills[i].name;
    lookup_finds_the_first(skills, name);
    match skill_named(skills, name) {
        Some(found) => {
            let k = choose|k: int|
                0 <= k < skills.len() && skills[k] == found && found.name == name && forall|j: int|
                    0 <= j < k ==> (#[trigger] skills[j]).name != name;
            if k < i {
                assert(skills[k].name != name);
            }
            if i < k {
                assert(skills[i].name != name);
            }
        },
        None => {
            assert(skills[i].name != name);
        },
    }
    let n = before.history@.len() as int;
    let later = transcript(after.history@);
    let now = transcript(before.history@);
    assert(later.len() == now.len() + 1);
    assert(later[n] == after.history@[n]->content@);
    assert forall|k: int| 0 <= k < n implies (#[trigger] after.history@[k])->content@
        == before.history@[k]->content@ by {
        assert(later[k] == now[k]);
    }
}

/// Asking for a skill that is not there is an error that names it and every
/// skill there is, with the warnings; nothing else changes.
pub proof fn unknown_skill_changes_nothing(
    before: App,
    after: App,
    answer: CommandResult,
    u: Seq<char>,
    t: Seq<char>,
    w: Seq<char>,
    registry: RegistryView,
)
    requires
        all_space(u),
        all_space(w),
        is_tidy(t),
        ran(before, after, answer, u + t + w, registry),
        forall|j: int|
            0 <= j < registry.skills.len() ==> (#[trigger] registry.skills[j]).name != (if t
                == "new"@ {
                "skill-creator"@
            } else {
                t
            }),
    ensures
        after == before,
        answer.is_error && answer.message is Some,
        ({
            let name = if t == "new"@ {
                "skill-creator"@
            } else {
                t
            };
            &&& registry.skills.len() == 0 ==> shown(answer) == "Skill '"@ + name
                + "' not found. No skills installed.\n\nUse /skills to see how to add skills."@
                + warnings_text(registry.warnings)
            &&& registry.skills.len() > 0 ==> shown(answer) == "Skill '"@ + name
                + "' not found.\n\nAvailable skills: "@ + join(
                Seq::new(registry.skills.len(), |i: int| registry.skills[i].name),
                ", "@,
            ) + warnings_text(registry.warnings)
        }),
{
    trim_takes_the_ends(u, t, w);
    let name = if t == "new"@ {
        "skill-creator"@
    } else {
        t
    };
    lookup_finds_the_first(registry.skills, name);
    assert(names_of(registry.skills) =~= Seq::new(
        registry.skills.len(),
        |i: int| registry.skills[i].name,
    ));
}

/// An answer says a text when that is its message, and it is an error or not as
/// claimed.
pub proof fn answer_says_its_message(r: CommandResult, is_error: bool, text: Seq<char>)
    ensures
        says(r, is_error, text) <==> r.is_error == is_error && r.message is Some
            && r.message->0@ == text,
{
}

} // verus!
