//! Skill definitions: parsing `SKILL.md` files and the registry of the skills
//! found in a directory.

use vstd::prelude::*;
use vstd::string::*;

use crate::order::{in_order, sorted, sorted_is_in_order, sorted_is_permutation};
use crate::text::{
    all_space, chars_of, contains, find, find_in, find_is_first, first_index, first_index_is,
    first_is_found, index_in, is_space, is_tidy, leading_space_goes, lower, lower_char, not_after,
    occurs_at, same_text, sorted_texts, split_on, starts_with, string_of, text_order,
    text_order_is_preorder, texts, trim, trim_is_final, trim_range, trim_splits, trim_start,
    trim_start_splits, trim_takes_the_ends,
};

verus! {

// === Types ===

/// Parsed representation of a `SKILL.md` definition.
#[derive(Debug, Clone)]
pub struct Skill {
    pub name: String,
    pub description: String,
    pub body: String,
}

/// The texts of a [`Skill`].
pub struct SkillView {
    pub name: Seq<char>,
    pub description: Seq<char>,
    pub body: Seq<char>,
}

impl View for Skill {
    type V = SkillView;

    open spec fn view(&self) -> SkillView {
        SkillView { name: self.name@, description: self.description@, body: self.body@ }
    }
}

// === Parsing ===

/// The key and the value of a frontmatter line, if it is a `key: value` line
/// and no comment. Keys are in lower case.
pub open spec fn field_of(line: Seq<char>) -> Option<(Seq<char>, Seq<char>)> {
    let l = trim(line);
    let i = first_index(l, ':');
    if l.len() == 0 || l[0] == '#' || i >= l.len() {
        None
    } else {
        Some((lower(trim(l.take(i))), trim(l.skip(i + 1))))
    }
}

/// The value that the last line with this key gives.
pub open spec fn last_value(lines: Seq<Seq<char>>, key: Seq<char>) -> Option<Seq<char>>
    decreases lines.len(),
{
    if lines.len() == 0 {
        None
    } else {
        match field_of(lines.last()) {
            Some((k, v)) => if k == key {
                Some(v)
            } else {
                last_value(lines.drop_last(), key)
            },
            None => last_value(lines.drop_last(), key),
        }
    }
}

/// The value of a field in a frontmatter block.
pub open spec fn field_value(front: Seq<char>, key: Seq<char>) -> Option<Seq<char>> {
    last_value(split_on(front, '\n'), key)
}

/// What a `SKILL.md` file defines, or why it defines nothing.
pub open spec fn skill_of(content: Seq<char>) -> Result<SkillView, Seq<char>> {
    let text = trim_start(content);
    if !starts_with(text, "---"@) {
        Err("missing frontmatter opening delimiter '---'"@)
    } else {
        let rest = text.skip(3);
        match find(rest, "---"@) {
            None => Err("missing frontmatter closing delimiter"@),
            Some(end) => {
                let front = rest.take(end);
                match field_value(front, "name"@) {
                    Some(name) => if name.len() > 0 {
                        Ok(
                            SkillView {
                                name,
                                description: match field_value(front, "description"@) {
                                    Some(d) => d,
                                    None => Seq::empty(),
                                },
                                body: trim(rest.skip(end + 3)),
                            },
                        )
                    } else {
                        Err("missing required frontmatter field: name"@)
                    },
                    None => Err("missing required frontmatter field: name"@),
                }
            },
        }
    }
}

/// A key and a value out of a frontmatter line.
struct Field {
    key: Vec<char>,
    value: String,
}

/// The characters `v[from..to]`, with ASCII letters in lower case.
fn lower_range(v: &Vec<char>, from: usize, to: usize) -> (r: Vec<char>)
    requires
        from <= to <= v@.len(),
    ensures
        r@ == lower(v@.subrange(from as int, to as int)),
{
    let mut r: Vec<char> = Vec::new();
    let mut i: usize = from;
    while i < to
        invariant
            from <= i <= to <= v@.len(),
            r@ =~= lower(v@.subrange(from as int, i as int)),
        decreases to - i,
    {
        let c: char = v[i];
        let l: char = if 'A' <= c && c <= 'Z' {
            (c as u8 + 32) as char
        } else {
            c
        };
        assert(l == lower_char(c));
        r.push(l);
        i = i + 1;
    }
    r
}

/// The field in the line `v[from..to]`.
fn field_in(v: &Vec<char>, from: usize, to: usize) -> (r: Option<Field>)
    requires
        from <= to <= v@.len(),
    ensures
        match r {
            Some(f) => field_of(v@.subrange(from as int, to as int)) == Some((f.key@, f.value@)),
            None => field_of(v@.subrange(from as int, to as int)) is None,
        },
{
    let (a, b) = trim_range(v, from, to);
    let ghost l = v@.subrange(a as int, b as int);
    if a == b || v[a] == '#' {
        return None;
    }
    let colon: usize = index_in(v, a, b, ':');
    if colon == b {
        return None;
    }
    let (ka, kb) = trim_range(v, a, colon);
    let (va, vb) = trim_range(v, colon + 1, b);
    proof {
        let i = colon - a;
        assert(l.take(i) =~= v@.subrange(a as int, colon as int));
        assert(l.skip(i + 1) =~= v@.subrange(colon + 1, b as int));
    }
    Some(Field { key: lower_range(v, ka, kb), value: string_of(v, va, vb) })
}

/// Two lists of characters are the same.
fn same_chars(a: &Vec<char>, b: &Vec<char>) -> (r: bool)
    ensures
        r == (a@ == b@),
{
    if a.len() != b.len() {
        return false;
    }
    let mut i: usize = 0;
    while i < a.len()
        invariant
            a@.len() == b@.len(),
            i <= a@.len(),
            forall|j: int| 0 <= j < i ==> a@[j] == b@[j],
        decreases a@.len() - i,
    {
        if a[i] != b[i] {
            return false;
        }
        i = i + 1;
    }
    assert(a@ =~= b@);
    true
}

/// The value of the field `key` in the frontmatter block `v[from..to]`.
fn value_in(v: &Vec<char>, from: usize, to: usize, key: &str) -> (r: Option<String>)
    requires
        from <= to <= v@.len(),
    ensures
        match r {
            Some(value) => field_value(v@.subrange(from as int, to as int), key@) == Some(value@),
            None => field_value(v@.subrange(from as int, to as int), key@) is None,
        },
{
    let ghost front = v@.subrange(from as int, to as int);
    let ghost all = split_on(front, '\n');
    let ghost mut done: Seq<Seq<char>> = Seq::empty();
    let wanted: Vec<char> = chars_of(key);
    let mut found: Option<String> = None;
    let mut at: usize = from;
    assert(done + split_on(v@.subrange(at as int, to as int), '\n') =~= all);
    loop
        invariant_except_break
            done + split_on(v@.subrange(at as int, to as int), '\n') == all,
        invariant
            from <= at <= to <= v@.len(),
            wanted@ == key@,
            all == split_on(v@.subrange(from as int, to as int), '\n'),
            match found {
                Some(value) => last_value(done, key@) == Some(value@),
                None => last_value(done, key@) is None,
            },
        ensures
            done == all,
            match found {
                Some(value) => last_value(done, key@) == Some(value@),
                None => last_value(done, key@) is None,
            },
        decreases to - at,
    {
        let ghost rest = v@.subrange(at as int, to as int);
        let end: usize = index_in(v, at, to, '\n');
        let field: Option<Field> = field_in(v, at, end);
        let ghost line = v@.subrange(at as int, end as int);
        let ghost before = done;
        proof {
            done = done.push(line);
            assert(done.drop_last() =~= before);
            assert(rest.take(end - at) =~= line);
        }
        if let Some(f) = field {
            if same_chars(&f.key, &wanted) {
                found = Some(f.value);
            }
        }
        if end == to {
            assert(line =~= rest);
            assert(done =~= all);
            break;
        }
        proof {
            assert(rest.skip(end - at + 1) =~= v@.subrange(end + 1, to as int));
            assert(done + split_on(v@.subrange(end + 1, to as int), '\n') =~= before + split_on(
                rest,
                '\n',
            ));
        }
        at = end + 1;
    }
    found
}

// === Registry ===

/// Collection of discovered skills.
#[derive(Debug, Clone)]
pub struct SkillRegistry {
    skills: Vec<Skill>,
    warnings: Vec<String>,
}

/// The skills and the warnings in a [`SkillRegistry`].
pub struct RegistryView {
    pub skills: Seq<SkillView>,
    pub warnings: Seq<Seq<char>>,
}

/// The definitions in a list of skills.
pub open spec fn definitions(skills: Seq<Skill>) -> Seq<SkillView> {
    skills.map_values(|s: Skill| s@)
}

impl View for SkillRegistry {
    type V = RegistryView;

    closed spec fn view(&self) -> RegistryView {
        RegistryView { skills: definitions(self.skills@), warnings: texts(self.warnings@) }
    }
}

/// What came of reading the `SKILL.md` file of a directory.
#[derive(Debug)]
pub enum ReadOutcome {
    /// The file's text.
    Content(String),
    /// The file could not be read: whether it is there, and the error.
    Failed { exists: bool, error: String },
}

/// One entry of the skills directory.
#[derive(Debug)]
pub struct DirEntry {
    /// Whether the entry is known to be a directory.
    pub is_dir: bool,
    /// The path of the `SKILL.md` file in it, for display.
    pub skill_path: String,
    pub read: ReadOutcome,
}

/// What came of reading the skills directory.
#[derive(Debug)]
pub enum DirScan {
    /// There is no such directory.
    Missing,
    /// The directory is there and cannot be listed.
    Unreadable,
    /// The entries that could be listed, in the order of the listing.
    Entries(Vec<DirEntry>),
}

/// The skill that a directory entry defines.
pub open spec fn skill_in(e: DirEntry) -> Option<SkillView> {
    if e.is_dir {
        match e.read {
            ReadOutcome::Content(content) => match skill_of(content@) {
                Ok(skill) => Some(skill),
                Err(_) => None,
            },
            ReadOutcome::Failed { .. } => None,
        }
    } else {
        None
    }
}

/// The warning that a directory entry gives.
pub open spec fn warning_in(e: DirEntry) -> Option<Seq<char>> {
    if e.is_dir {
        match e.read {
            ReadOutcome::Content(content) => match skill_of(content@) {
                Ok(_) => None,
                Err(reason) => Some("Failed to parse "@ + e.skill_path@ + ": "@ + reason),
            },
            ReadOutcome::Failed { exists, error } => if exists {
                Some("Failed to read "@ + e.skill_path@ + ": "@ + error@)
            } else {
                None
            },
        }
    } else {
        None
    }
}

/// The skills that the entries define, in their order.
pub open spec fn skills_in(entries: Seq<DirEntry>) -> Seq<SkillView>
    decreases entries.len(),
{
    if entries.len() == 0 {
        Seq::empty()
    } else {
        match skill_in(entries.last()) {
            Some(skill) => skills_in(entries.drop_last()).push(skill),
            None => skills_in(entries.drop_last()),
        }
    }
}

/// The warnings that the entries give, in their order.
pub open spec fn warnings_in(entries: Seq<DirEntry>) -> Seq<Seq<char>>
    decreases entries.len(),
{
    if entries.len() == 0 {
        Seq::empty()
    } else {
        match warning_in(entries.last()) {
            Some(warning) => warnings_in(entries.drop_last()).push(warning),
            None => warnings_in(entries.drop_last()),
        }
    }
}

/// The registry of the skills in the directory `dir`.
pub open spec fn registry_of(dir: Seq<char>, scan: DirScan) -> RegistryView {
    match scan {
        DirScan::Missing => RegistryView { skills: Seq::empty(), warnings: Seq::empty() },
        DirScan::Unreadable => RegistryView {
            skills: Seq::empty(),
            warnings: seq!["Failed to read skills directory "@ + dir],
        },
        DirScan::Entries(entries) => RegistryView {
            skills: skills_in(entries@),
            warnings: warnings_in(entries@),
        },
    }
}

/// The first skill of this name.
pub open spec fn skill_named(skills: Seq<SkillView>, name: Seq<char>) -> Option<SkillView>
    decreases skills.len(),
{
    if skills.len() == 0 {
        None
    } else if skills[0].name == name {
        Some(skills[0])
    } else {
        skill_named(skills.drop_first(), name)
    }
}

impl Default for SkillRegistry {
    fn default() -> (r: Self)
        ensures
            r@ == (RegistryView { skills: Seq::empty(), warnings: Seq::empty() }),
    {
        let r = SkillRegistry { skills: Vec::new(), warnings: Vec::new() };
        assert(definitions(r.skills@) =~= Seq::empty());
        assert(texts(r.warnings@) =~= Seq::empty());
        r
    }
}

impl SkillRegistry {
    /// Collects the skills of a directory from what was read of it: `dir` is
    /// its path, for display.
    #[must_use]
    pub fn discover(dir: &str, scan: &DirScan) -> (r: Self)
        ensures
            r@ == registry_of(dir@, *scan),
    {
        let mut registry = SkillRegistry::default();
        match scan {
            DirScan::Missing => {},
            DirScan::Unreadable => {
                let mut warning: String = "Failed to read skills directory ".to_string();
                warning.append(dir);
                registry.push_warning(warning);
                assert(registry@.warnings =~= registry_of(dir@, *scan).warnings);
            },
            DirScan::Entries(entries) => {
                let mut i: usize = 0;
                assert(entries@.take(0) =~= Seq::empty());
                while i < entries.len()
                    invariant
                        i <= entries@.len(),
                        registry@.skills == skills_in(entries@.take(i as int)),
                        registry@.warnings == warnings_in(entries@.take(i as int)),
                    decreases entries@.len() - i,
                {
                    assert(entries@.take(i + 1).drop_last() =~= entries@.take(i as int));
                    registry.visit(&entries[i]);
                    i = i + 1;
                }
                assert(entries@.take(entries@.len() as int) =~= entries@);
            },
        }
        registry
    }

    /// Takes in one entry of the skills directory.
    fn visit(&mut self, entry: &DirEntry)
        ensures
            final(self)@.skills == (match skill_in(*entry) {
                Some(skill) => old(self)@.skills.push(skill),
                None => old(self)@.skills,
            }),
            final(self)@.warnings == (match warning_in(*entry) {
                Some(warning) => old(self)@.warnings.push(warning),
                None => old(self)@.warnings,
            }),
    {
        if !entry.is_dir {
            return ;
        }
        match &entry.read {
            ReadOutcome::Content(content) => match SkillRegistry::parse_skill(content.as_str()) {
                Ok(skill) => {
                    let ghost before = self.skills@;
                    self.skills.push(skill);
                    assert(definitions(self.skills@) =~= definitions(before).push(skill@));
                },
                Err(reason) => {
                    let mut warning: String = "Failed to parse ".to_string();
                    warning.append(entry.skill_path.as_str());
                    warning.append(": ");
                    warning.append(reason.as_str());
                    self.push_warning(warning);
                },
            },
            ReadOutcome::Failed { exists, error } => {
                if *exists {
                    let mut warning: String = "Failed to read ".to_string();
                    warning.append(entry.skill_path.as_str());
                    warning.append(": ");
                    warning.append(error.as_str());
                    self.push_warning(warning);
                }
            },
        }
    }

    fn push_warning(&mut self, warning: String)
        ensures
            final(self)@.skills == old(self)@.skills,
            final(self)@.warnings == old(self)@.warnings.push(warning@),
    {
        let ghost before = self.warnings@;
        self.warnings.push(warning);
        assert(texts(self.warnings@) =~= texts(before).push(warning@));
    }

    /// Reads a `SKILL.md` file.
    pub fn parse_skill(content: &str) -> (r: Result<Skill, String>)
        ensures
            match r {
                Ok(skill) => skill_of(content@) == Ok::<SkillView, Seq<char>>(skill@),
                Err(reason) => skill_of(content@) == Err::<SkillView, Seq<char>>(reason@),
            },
    {
        let v: Vec<char> = chars_of(content);
        let n: usize = v.len();
        let fence: Vec<char> = chars_of("---");
        proof {
            reveal_strlit("---");
            assert(v@.subrange(0, n as int) =~= content@);
        }
        let (start, _) = trim_range(&v, 0, n);
        let ghost text = trim_start(content@);
        proof {
            find_is_first(text, "---"@);
            assert(v@.subrange(start as int, n as int) == text);
        }
        let opens: bool = match find_in(&v, start, n, &fence) {
            Some(i) => i == start,
            None => false,
        };
        if !opens {
            return Err("missing frontmatter opening delimiter '---'".to_string());
        }
        let front: usize = start + 3;
        let ghost rest = text.skip(3);
        assert(rest =~= v@.subrange(front as int, n as int));
        let end: usize = match find_in(&v, front, n, &fence) {
            Some(i) => i,
            None => {
                return Err("missing frontmatter closing delimiter".to_string());
            },
        };
        assert(rest.take(end - front) =~= v@.subrange(front as int, end as int));
        assert(rest.skip(end - front + 3) =~= v@.subrange(end + 3, n as int));
        let name: String = match value_in(&v, front, end, "name") {
            Some(name) => name,
            None => {
                return Err("missing required frontmatter field: name".to_string());
            },
        };
        if name.as_str().is_empty() {
            return Err("missing required frontmatter field: name".to_string());
        }
        let description: String = match value_in(&v, front, end, "description") {
            Some(description) => description,
            None => String::new(),
        };
        let (a, b) = trim_range(&v, end + 3, n);
        Ok(Skill { name, description, body: string_of(&v, a, b) })
    }

    /// Lookup a skill by name.
    pub fn get(&self, name: &str) -> (r: Option<&Skill>)
        ensures
            match r {
                Some(skill) => skill_named(self@.skills, name@) == Some(skill@),
                None => skill_named(self@.skills, name@) is None,
            },
    {
        let ghost all = definitions(self.skills@);
        let mut i: usize = 0;
        assert(all.skip(0) =~= all);
        while i < self.skills.len()
            invariant
                i <= self.skills@.len(),
                all == definitions(self.skills@),
                skill_named(all.skip(i as int), name@) == skill_named(all, name@),
            decreases self.skills@.len() - i,
        {
            assert(all.skip(i as int)[0] == self.skills@[i as int]@);
            assert(all.skip(i as int).drop_first() =~= all.skip(i + 1));
            if same_text(self.skills[i].name.as_str(), name) {
                return Some(&self.skills[i]);
            }
            i = i + 1;
        }
        None
    }

    /// Return all loaded skills.
    pub fn list(&self) -> (r: &[Skill])
        ensures
            definitions(r@) == self@.skills,
    {
        self.skills.as_slice()
    }

    /// Parse or I/O warnings encountered while discovering skills.
    pub fn warnings(&self) -> (r: &[String])
        ensures
            texts(r@) == self@.warnings,
    {
        self.warnings.as_slice()
    }

    /// Check whether no skills were loaded.
    #[must_use]
    pub fn is_empty(&self) -> (r: bool)
        ensures
            r == (self@.skills.len() == 0),
    {
        self.skills.len() == 0
    }

    /// Return the number of loaded skills.
    #[must_use]
    pub fn len(&self) -> (r: usize)
        ensures
            r == self@.skills.len(),
    {
        self.skills.len()
    }
}

// === Listing and showing ===

/// Lines one under the other, each with its end.
pub open spec fn lines_of(lines: Seq<Seq<char>>) -> Seq<char>
    decreases lines.len(),
{
    if lines.len() == 0 {
        Seq::empty()
    } else {
        lines_of(lines.drop_last()) + lines.last() + "\n"@
    }
}

/// What is printed for the directory names in a skills directory, or for a
/// directory that does not exist.
pub open spec fn listing_text(skills_dir: Seq<char>, names: Option<Seq<Seq<char>>>) -> Seq<char> {
    match names {
        None => "No skills directory found at "@ + skills_dir + "\n"@,
        Some(names) => if names.len() == 0 {
            "No skills found in "@ + skills_dir + "\n"@
        } else {
            lines_of(sorted(names, text_order()))
        },
    }
}

/// What to print for a skills directory: its path, for display, and the names
/// of the directories in it, if it exists.
pub fn list(skills_dir: &str, names: Option<&Vec<String>>) -> (r: String)
    ensures
        r@ == listing_text(
            skills_dir@,
            match names {
                Some(names) => Some(texts(names@)),
                None => None,
            },
        ),
{
    match names {
        None => {
            let mut out: String = "No skills directory found at ".to_string();
            out.append(skills_dir);
            out.append("\n");
            out
        },
        Some(names) => {
            if names.len() == 0 {
                let mut out: String = "No skills found in ".to_string();
                out.append(skills_dir);
                out.append("\n");
                return out;
            }
            let ordered: Vec<String> = sorted_texts(names);
            let ghost all = texts(ordered@);
            let mut out: String = String::new();
            let mut i: usize = 0;
            assert(out@ =~= lines_of(all.take(0)));
            while i < ordered.len()
                invariant
                    i <= ordered@.len(),
                    all == texts(ordered@),
                    out@ == lines_of(all.take(i as int)),
                decreases ordered@.len() - i,
            {
                out.append(ordered[i].as_str());
                out.append("\n");
                assert(all.take(i + 1).drop_last() =~= all.take(i as int));
                i = i + 1;
            }
            assert(all.take(ordered@.len() as int) =~= all);
            out
        },
    }
}

/// What to print for a skill file: its path, for display, and its text, if it
/// could be read.
pub fn show(path: &str, contents: Option<&str>) -> (r: Result<String, String>)
    ensures
        match contents {
            Some(text) => r matches Ok(out) && out@ == text@ + "\n"@,
            None => r matches Err(e) && e@ == "Failed to read "@ + path@,
        },
{
    match contents {
        Some(text) => {
            let mut out: String = text.to_string();
            out.append("\n");
            Ok(out)
        },
        None => {
            let mut e: String = "Failed to read ".to_string();
            e.append(path);
            Err(e)
        },
    }
}

// === Laws ===

/// The lines printed for a skills directory are the names in it, each as often
/// as it occurs, in the order by code points.
pub proof fn listing_is_complete_and_ordered(names: Seq<Seq<char>>)
    ensures
        sorted(names, text_order()).to_multiset() == names.to_multiset(),
        in_order(sorted(names, text_order()), text_order()),
{
    text_order_is_preorder();
    sorted_is_permutation(names, text_order());
    sorted_is_in_order(names, text_order());
}

/// A lookup finds a skill exactly when one has the name, and then the first.
pub proof fn lookup_finds_the_first(skills: Seq<SkillView>, name: Seq<char>)
    ensures
        match skill_named(skills, name) {
            Some(skill) => exists|i: int|
                0 <= i < skills.len() && skills[i] == skill && skill.name == name && forall|j: int|
                    0 <= j < i ==> (#[trigger] skills[j]).name != name,
            None => forall|i: int| 0 <= i < skills.len() ==> (#[trigger] skills[i]).name != name,
        },
    decreases skills.len(),
{
    if skills.len() > 0 && skills[0].name != name {
        let rest = skills.drop_first();
        lookup_finds_the_first(rest, name);
        match skill_named(rest, name) {
            Some(skill) => {
                let k = choose|k: int|
                    0 <= k < rest.len() && rest[k] == skill && skill.name == name && forall|j: int|
                        0 <= j < k ==> (#[trigger] rest[j]).name != name;
                assert(skills[k + 1] == skill);
                assert forall|j: int| 0 <= j < k + 1 implies (#[trigger] skills[j]).name != name by {
                    if j > 0 {
                        assert(rest[j - 1] == skills[j]);
                    }
                }
            },
            None => {
                assert forall|i: int| 0 <= i < skills.len() implies (#[trigger] skills[i]).name
                    != name by {
                    if i > 0 {
                        assert(rest[i - 1] == skills[i]);
                    }
                }
            },
        }
    } else if skills.len() > 0 {
        assert(skills[0].name == name);
    }
}

/// Every skill in a registry has a name, and its name, description and body
/// have no white space at either end.
pub proof fn parsed_skill_is_tidy(content: Seq<char>)
    ensures
        skill_of(content) matches Ok(skill) ==> {
            &&& skill.name.len() > 0
            &&& trim(skill.name) == skill.name
            &&& trim(skill.description) == skill.description
            &&& trim(skill.body) == skill.body
        },
{
    let rest = trim_start(content).skip(3);
    match find(rest, "---"@) {
        Some(end) => {
            let lines = split_on(rest.take(end), '\n');
            last_value_is_trimmed(lines, "name"@);
            last_value_is_trimmed(lines, "description"@);
            trim_is_final(rest.skip(end + 3));
        },
        None => {},
    }
}

proof fn last_value_is_trimmed(lines: Seq<Seq<char>>, key: Seq<char>)
    ensures
        last_value(lines, key) matches Some(v) ==> trim(v) == v,
    decreases lines.len(),
{
    if lines.len() > 0 {
        last_value_is_trimmed(lines.drop_last(), key);
        let l = trim(lines.last());
        trim_is_final(l.skip(first_index(l, ':') + 1));
    }
}

/// The registry holds one skill for each directory whose file defines one, and
/// one warning for each whose file is there and defines none.
pub proof fn every_entry_is_accounted_for(entries: Seq<DirEntry>)
    ensures
        skills_in(entries).len() + warnings_in(entries).len() == entries.filter(
            |e: DirEntry| skill_in(e) is Some || warning_in(e) is Some,
        ).len(),
        forall|e: DirEntry| !(#[trigger] skill_in(e) is Some && warning_in(e) is Some),
    decreases entries.len(),
{
    reveal_with_fuel(Seq::filter, 2);
    if entries.len() > 0 {
        every_entry_is_accounted_for(entries.drop_last());
    }
}

/// A line with a colon gives the key before the first colon, in lower case, and
/// the value behind it, both without the white space around them.
pub proof fn field_is_key_and_value(
    u: Seq<char>,
    k: Seq<char>,
    a: Seq<char>,
    b: Seq<char>,
    v: Seq<char>,
    w: Seq<char>,
)
    requires
        all_space(u),
        all_space(a),
        all_space(b),
        all_space(w),
        is_tidy(k),
        is_tidy(v),
        !k.contains(':'),
        k.len() > 0 ==> k[0] != '#',
        k.len() == 0 ==> a.len() == 0,
    ensures
        field_of(u + k + a + seq![':'] + b + v + w) == Some((lower(k), v)),
{
    let none = Seq::<char>::empty();
    let line = u + k + a + seq![':'] + b + v + w;
    let (l, end) = if v.len() > 0 {
        (k + a + seq![':'] + b + v, w)
    } else {
        (k + a + seq![':'], b + w)
    };
    assert forall|i: int| 0 <= i < end.len() implies is_space(#[trigger] end[i]) by {
        if v.len() == 0 {
            if i < b.len() {
                assert(end[i] == b[i]);
            } else {
                assert(end[i] == w[i - b.len()]);
            }
        }
    }
    assert(line =~= u + l + end);
    let i = (k.len() + a.len()) as int;
    assert(l[i] == ':');
    if k.len() > 0 {
        assert(l[0] == k[0]);
    }
    if v.len() > 0 {
        assert(l[l.len() - 1] == v[v.len() - 1]);
    }
    trim_takes_the_ends(u, l, end);
    assert forall|j: int| 0 <= j < i implies l[j] != ':' by {
        if j < k.len() {
            assert(l[j] == k[j]);
            assert(k.contains(k[j]));
        } else {
            assert(l[j] == a[j - k.len()]);
        }
    }
    first_index_is(l, ':', i);
    assert(l.take(i) =~= none + k + a);
    trim_takes_the_ends(none, k, a);
    if v.len() > 0 {
        assert(l.skip(i + 1) =~= b + v + none);
        trim_takes_the_ends(b, v, none);
    } else {
        assert(l.skip(i + 1) =~= none + none + none);
        trim_takes_the_ends(none, none, none);
        assert(v =~= none);
    }
}

/// A line of white space gives no field, nor does a comment or a line without a
/// colon.
pub proof fn other_lines_give_no_field(u: Seq<char>, x: Seq<char>)
    requires
        all_space(u),
    ensures
        field_of(u) is None,
        field_of(u + seq!['#'] + x) is None,
        !x.contains(':') ==> field_of(x) is None,
{
    let none = Seq::<char>::empty();
    trim_takes_the_ends(u, none, none);
    assert(u + none + none =~= u);
    let s = u + seq!['#'] + x;
    let (r0, r1) = trim_splits(s);
    assert(s[u.len() as int] == '#');
    if r0.len() < u.len() {
        assert(s[r0.len() as int] == trim(s)[0]);
        assert(s[r0.len() as int] == u[r0.len() as int]);
    }
    assert(trim(s)[0] == '#');
    if !x.contains(':') {
        let (x0, x1) = trim_splits(x);
        let l = trim(x);
        assert forall|j: int| 0 <= j < l.len() implies l[j] != ':' by {
            assert(x[x0.len() + j] == l[j]);
            assert(x.contains(x[x0.len() + j]));
        }
        first_index_is(l, ':', l.len() as int);
    }
}

/// Line `i` gives the value of a field, and no later line gives another.
pub open spec fn is_last_field(
    lines: Seq<Seq<char>>,
    key: Seq<char>,
    value: Seq<char>,
    i: int,
) -> bool {
    &&& 0 <= i < lines.len()
    &&& field_of(lines[i]) == Some((key, value))
    &&& forall|j: int| i < j < lines.len() ==> !gives(#[trigger] lines[j], key)
}

/// Whether a line gives a value to a field.
pub open spec fn gives(line: Seq<char>, key: Seq<char>) -> bool {
    field_of(line) matches Some(f) && f.0 == key
}

proof fn last_value_is_last(lines: Seq<Seq<char>>, key: Seq<char>) -> (i: int)
    ensures
        last_value(lines, key) matches Some(v) ==> is_last_field(lines, key, v, i),
        last_value(lines, key) is None ==> forall|j: int|
            0 <= j < lines.len() ==> !gives(#[trigger] lines[j], key),
    decreases lines.len(),
{
    if lines.len() == 0 {
        0
    } else {
        let head = lines.drop_last();
        if gives(lines.last(), key) {
            lines.len() - 1
        } else {
            let i = last_value_is_last(head, key);
            match last_value(head, key) {
                Some(v) => {
                    assert(lines[i] == head[i]);
                    assert forall|j: int| i < j < lines.len() implies !gives(
                        #[trigger] lines[j],
                        key,
                    ) by {
                        if j < head.len() {
                            assert(lines[j] == head[j]);
                        }
                    }
                },
                None => {
                    assert forall|j: int| 0 <= j < lines.len() implies !gives(
                        #[trigger] lines[j],
                        key,
                    ) by {
                        if j < head.len() {
                            assert(lines[j] == head[j]);
                        }
                    }
                },
            }
            i
        }
    }
}

/// Whether `front` ends at the first `---` behind it.
pub open spec fn ends_at_delimiter(front: Seq<char>) -> bool {
    forall|i: int| 0 <= i < front.len() ==> !#[trigger] occurs_at(front + "---"@, "---"@, i)
}

proof fn delimiters_are_found(pre: Seq<char>, front: Seq<char>, tail: Seq<char>)
    requires
        all_space(pre),
        ends_at_delimiter(front),
    ensures
        ({
            let text = "---"@ + front + "---"@ + tail;
            &&& trim_start(pre + "---"@ + front + "---"@ + tail) == text
            &&& starts_with(text, "---"@)
            &&& text.skip(3) == front + "---"@ + tail
            &&& find(text.skip(3), "---"@) == Some(front.len() as int)
        }),
{
    reveal_strlit("---");
    let d = "---"@;
    let text = d + front + d + tail;
    assert(text[0] == '-');
    leading_space_goes(pre, text);
    assert(pre + d + front + d + tail =~= pre + text);
    assert(text.subrange(0, 3) =~= d);
    let rest = front + d + tail;
    assert(text.skip(3) =~= rest);
    let n = front.len() as int;
    assert(rest.subrange(n, n + 3) =~= d);
    assert forall|j: int| 0 <= j < n implies !occurs_at(rest, d, j) by {
        if occurs_at(rest, d, j) {
            assert((front + d).subrange(j, j + 3) =~= rest.subrange(j, j + 3));
            assert(occurs_at(front + d, d, j));
        }
    }
    first_is_found(rest, d, n);
}

/// A file with a delimiter at its start, behind white space only, and another
/// one defines a skill exactly when the last `name` line between the two gives a
/// name. The name and the description are those of the last lines that give
/// them, and the body is all that follows the second delimiter, but for the
/// white space at its ends.
#[verifier::spinoff_prover]
pub proof fn definition_is_read_whole(pre: Seq<char>, front: Seq<char>, tail: Seq<char>)
    requires
        all_space(pre),
        ends_at_delimiter(front),
    ensures
        ({
            let lines = split_on(front, '\n');
            match skill_of(pre + "---"@ + front + "---"@ + tail) {
                Ok(skill) => {
                    &&& skill.name.len() > 0
                    &&& exists|i: int| #[trigger] is_last_field(lines, "name"@, skill.name, i)
                    &&& (exists|i: int| #[trigger]
                        is_last_field(lines, "description"@, skill.description, i)) || (
                    skill.description.len() == 0 && forall|i: int|
                        0 <= i < lines.len() ==> !gives(#[trigger] lines[i], "description"@))
                    &&& is_tidy(skill.body)
                    &&& exists|u: Seq<char>, w: Seq<char>|
                        all_space(u) && all_space(w) && tail == #[trigger] (u + skill.body + w)
                },
                Err(reason) => {
                    &&& reason == "missing required frontmatter field: name"@
                    &&& forall|v: Seq<char>, i: int| #[trigger]
                        is_last_field(lines, "name"@, v, i) ==> v.len() == 0
                },
            }
        }),
{
    reveal_strlit("---");
    delimiters_are_found(pre, front, tail);
    let r = skill_of(pre + "---"@ + front + "---"@ + tail);
    let rest = front + "---"@ + tail;
    let lines = split_on(front, '\n');
    assert(rest.take(front.len() as int) =~= front);
    assert(rest.skip((front.len() + 3) as int) =~= tail);
    let n = last_value_is_last(lines, "name"@);
    let d = last_value_is_last(lines, "description"@);
    let (u, w) = trim_splits(tail);
    assert(tail == u + trim(tail) + w);
    match last_value(lines, "name"@) {
        Some(name) => {
            assert forall|v: Seq<char>, i: int| #[trigger]
                is_last_field(lines, "name"@, v, i) implies v == name by {
                assert(gives(lines[i], "name"@));
                assert(gives(lines[n], "name"@));
                if i < n {
                    assert(!gives(lines[n], "name"@));
                }
                if n < i {
                    assert(!gives(lines[i], "name"@));
                }
            }
            if name.len() > 0 {
                assert(r is Ok);
                assert(r->Ok_0.name == name);
                assert(r->Ok_0.body == trim(tail));
                assert(is_last_field(lines, "name"@, r->Ok_0.name, n));
                if last_value(lines, "description"@) is Some {
                    assert(is_last_field(lines, "description"@, r->Ok_0.description, d));
                } else {
                    assert(r->Ok_0.description.len() == 0);
                }
            } else {
                assert(r is Err);
            }
        },
        None => {
            assert(r is Err);
            assert forall|v: Seq<char>, i: int| #[trigger]
                is_last_field(lines, "name"@, v, i) implies v.len() == 0 by {
                assert(gives(lines[i], "name"@));
            }
        },
    }
}

/// A file defines nothing, and it is said why, if no delimiter stands at its
/// start or no other one follows.
pub proof fn missing_delimiters_are_told(pre: Seq<char>, x: Seq<char>)
    requires
        all_space(pre),
    ensures
        (x.len() > 0 ==> !is_space(x[0])) && !starts_with(x, "---"@) ==> skill_of(pre + x) == Err::<
            SkillView,
            Seq<char>,
        >("missing frontmatter opening delimiter '---'"@),
        !contains(x, "---"@) ==> skill_of(pre + "---"@ + x) == Err::<SkillView, Seq<char>>(
            "missing frontmatter closing delimiter"@,
        ),
{
    reveal_strlit("---");
    let d = "---"@;
    if x.len() > 0 ==> !is_space(x[0]) {
        leading_space_goes(pre, x);
    }
    assert((d + x)[0] == '-');
    leading_space_goes(pre, d + x);
    assert(pre + d + x =~= pre + (d + x));
    assert((d + x).subrange(0, 3) =~= d);
    assert((d + x).skip(3) =~= x);
    find_is_first(x, d);
    if let Some(i) = find(x, d) {
        assert(occurs_at(x, d, i));
    }
}

/// A file that defines a skill ends in a delimiter, white space, the body and
/// white space; that delimiter is the first behind the one at the file's start.
/// Every character behind it that is not white space is in the body.
pub proof fn body_is_the_whole_rest(content: Seq<char>) -> (r: (
    Seq<char>,
    Seq<char>,
    Seq<char>,
    Seq<char>,
))
    ensures
        skill_of(content) matches Ok(skill) ==> {
            let (pre, front, u, w) = r;
            &&& all_space(pre) && all_space(u) && all_space(w)
            &&& content == pre + "---"@ + front + "---"@ + u + skill.body + w
            &&& forall|i: int|
                0 <= i < front.len() ==> !#[trigger] occurs_at(front + "---"@, "---"@, i)
            &&& forall|i: int|
                pre.len() + front.len() + 6 <= i < content.len() && !is_space(#[trigger] content[i])
                    ==> skill.body.contains(content[i])
        },
{
    reveal_strlit("---");
    let d = "---"@;
    let text = trim_start(content);
    let pre = trim_start_splits(content);
    let rest = text.skip(3);
    find_is_first(rest, d);
    match find(rest, d) {
        Some(end) => {
            let front = rest.take(end);
            let tail = rest.skip(end + 3);
            let (u, w) = trim_splits(tail);
            let body = trim(tail);
            if starts_with(text, d) {
                assert(text.subrange(0, 3) == d);
                assert(rest.subrange(end, end + 3) == d);
                assert(text =~= d + front + d + tail);
                assert(content =~= pre + d + front + d + u + body + w);
                assert forall|i: int| 0 <= i < front.len() implies !#[trigger] occurs_at(
                    front + d,
                    d,
                    i,
                ) by {
                    if occurs_at(front + d, d, i) {
                        assert((front + d).subrange(i, i + 3) =~= rest.subrange(i, i + 3));
                        assert(occurs_at(rest, d, i));
                    }
                }
                assert forall|i: int|
                    pre.len() + front.len() + 6 <= i < content.len() && !is_space(
                        #[trigger] content[i],
                    ) implies body.contains(content[i]) by {
                    let k = i - (pre.len() + front.len() + 6);
                    assert(content[i] == tail[k]);
                    assert(body[k - u.len()] == content[i]);
                }
            }
            (pre, front, u, w)
        },
        None => (pre, pre, pre, pre),
    }
}

/// Whether an entry is a directory whose `SKILL.md` could be read.
pub open spec fn is_readable(e: DirEntry) -> bool {
    e.is_dir && e.read is Content
}

/// A registry has the skill of every directory whose file defines one, in the
/// order of the entries, and no other.
pub proof fn registry_has_every_skill(dir: Seq<char>, entries: Vec<DirEntry>)
    ensures
        registry_of(dir, DirScan::Missing).skills.len() == 0,
        registry_of(dir, DirScan::Unreadable).skills.len() == 0,
        registry_of(dir, DirScan::Entries(entries)).skills == entries@.filter(
            |e: DirEntry| is_readable(e) && skill_of(e.read->0@) is Ok,
        ).map_values(|e: DirEntry| skill_of(e.read->0@)->Ok_0),
{
    skills_are_those_defined(entries@);
}

proof fn skills_are_those_defined(entries: Seq<DirEntry>)
    ensures
        skills_in(entries) == entries.filter(
            |e: DirEntry| is_readable(e) && skill_of(e.read->0@) is Ok,
        ).map_values(|e: DirEntry| skill_of(e.read->0@)->Ok_0),
    decreases entries.len(),
{
    reveal_with_fuel(Seq::filter, 2);
    if entries.len() > 0 {
        skills_are_those_defined(entries.drop_last());
    }
    assert(skills_in(entries) =~= entries.filter(
        |e: DirEntry| is_readable(e) && skill_of(e.read->0@) is Ok,
    ).map_values(|e: DirEntry| skill_of(e.read->0@)->Ok_0));
}

/// Whether an entry is a directory whose `SKILL.md` is there, but could not be
/// read or defines no skill.
pub open spec fn is_faulty(e: DirEntry) -> bool {
    e.is_dir && match e.read {
        ReadOutcome::Content(content) => skill_of(content@) is Err,
        ReadOutcome::Failed { exists, error } => exists,
    }
}

/// A registry has a warning for every directory whose file is there and gives no
/// skill, in the order of the entries, with the file's path and the reason; and
/// one for a directory that cannot be listed.
pub proof fn registry_warns_of_every_fault(dir: Seq<char>, entries: Vec<DirEntry>)
    ensures
        registry_of(dir, DirScan::Missing).warnings.len() == 0,
        registry_of(dir, DirScan::Unreadable).warnings == seq![
            "Failed to read skills directory "@ + dir,
        ],
        registry_of(dir, DirScan::Entries(entries)).warnings == entries@.filter(
            |e: DirEntry| is_faulty(e),
        ).map_values(
            |e: DirEntry|
                match e.read {
                    ReadOutcome::Content(content) => "Failed to parse "@ + e.skill_path@ + ": "@
                        + skill_of(content@)->Err_0,
                    ReadOutcome::Failed { exists, error } => "Failed to read "@ + e.skill_path@
                        + ": "@ + error@,
                },
        ),
{
    warnings_are_of_faults(entries@);
}

proof fn warnings_are_of_faults(entries: Seq<DirEntry>)
    ensures
        warnings_in(entries) == entries.filter(|e: DirEntry| is_faulty(e)).map_values(
            |e: DirEntry|
                match e.read {
                    ReadOutcome::Content(content) => "Failed to parse "@ + e.skill_path@ + ": "@
                        + skill_of(content@)->Err_0,
                    ReadOutcome::Failed { exists, error } => "Failed to read "@ + e.skill_path@
                        + ": "@ + error@,
                },
        ),
    decreases entries.len(),
{
    reveal_with_fuel(Seq::filter, 2);
    if entries.len() > 0 {
        warnings_are_of_faults(entries.drop_last());
    }
    assert(warnings_in(entries) =~= entries.filter(|e: DirEntry| is_faulty(e)).map_values(
        |e: DirEntry|
            match e.read {
                ReadOutcome::Content(content) => "Failed to parse "@ + e.skill_path@ + ": "@
                    + skill_of(content@)->Err_0,
                ReadOutcome::Failed { exists, error } => "Failed to read "@ + e.skill_path@ + ": "@
                    + error@,
            },
    ));
}

/// What is printed for a skills directory is a line for each name in it, each as
/// often as it occurs, where no name stands before a lesser one; or that there
/// is none.
pub proof fn listing_has_a_line_for_each_name(
    dir: Seq<char>,
    names: Seq<Seq<char>>,
    some: Seq<Seq<char>>,
    name: Seq<char>,
)
    ensures
        listing_text(dir, None) == "No skills directory found at "@ + dir + "\n"@,
        names.len() == 0 ==> listing_text(dir, Some(names)) == "No skills found in "@ + dir
            + "\n"@,
        names.len() > 0 ==> exists|ordered: Seq<Seq<char>>|
            {
                &&& #[trigger] lines_of(ordered) == listing_text(dir, Some(names))
                &&& ordered.to_multiset() == names.to_multiset()
                &&& forall|i: int, j: int|
                    #![trigger ordered[i], ordered[j]]
                    0 <= i < j < ordered.len() ==> not_after(ordered[i], ordered[j])
            },
        lines_of(Seq::empty()).len() == 0,
        lines_of(some.push(name)) == lines_of(some) + name + "\n"@,
{
    listing_is_complete_and_ordered(names);
    let ordered = sorted(names, text_order());
    sorted_is_permutation(names, text_order());
    text_order_is_preorder();
    sorted_is_in_order(names, text_order());
    assert forall|i: int, j: int|
        #![trigger ordered[i], ordered[j]]
        0 <= i < j < ordered.len() implies not_after(ordered[i], ordered[j]) by {
        assert(text_order()(ordered[i], ordered[j]));
    }
    assert(some.push(name).drop_last() =~= some);
    if names.len() > 0 {
        assert(lines_of(ordered) == listing_text(dir, Some(names)));
    }
}

/// A skill and a list of skills are seen whole.
pub proof fn skills_are_seen_whole(skill: Skill, skills: Seq<Skill>)
    ensures
        skill@.name == skill.name@,
        skill@.description == skill.description@,
        skill@.body == skill.body@,
        definitions(skills).len() == skills.len(),
        forall|i: int| 0 <= i < skills.len() ==> #[trigger] definitions(skills)[i] == skills[i]@,
{
}

} // verus!
