//! Where the client keeps its files.

use vstd::prelude::*;
use vstd::string::*;

use std::path::PathBuf;

use crate::text::texts;

verus! {

/// A path of the file system. Nothing is known of what it holds.
#[verifier::external_type_specification]
#[verifier::external_body]
pub struct ExPathBuf(std::path::PathBuf);

/// Where a location starts.
#[derive(Debug)]
pub enum Base {
    /// The user's home directory.
    Home(PathBuf),
    /// A fixed path.
    Fixed(String),
}

/// A place in the file system: where it starts, and the names below.
#[derive(Debug)]
pub struct Location {
    pub base: Base,
    pub below: Vec<String>,
}

/// The place in the home directory to which these names lead.
pub open spec fn is_under(l: Location, home: PathBuf, names: Seq<Seq<char>>) -> bool {
    l.base == Base::Home(home) && texts(l.below@) == names
}

/// Whether `dirs::home_dir` can answer with this, in one environment or another.
pub uninterp spec fn can_be_home(home: Option<PathBuf>) -> bool;

/// `dirs::home_dir` gives the user's home directory, if the system knows one.
/// Which of its possible answers ([`can_be_home`]) it gives depends on the
/// environment: nothing more is said of it.
#[verifier::external_body]
fn home_dir() -> (r: Option<PathBuf>)
    ensures
        can_be_home(r),
{
    dirs::home_dir()
}

/// The place of the skills, given the home directory.
pub open spec fn is_skills_dir(l: Location, home: Option<PathBuf>) -> bool {
    match home {
        Some(home) => is_under(l, home, seq![".deepseek"@, "skills"@]),
        None => {
            &&& l.base matches Base::Fixed(path)
            &&& path@ == "/tmp/deepseek/skills"@
            &&& l.below@.len() == 0
        },
    }
}

/// The place of the composer history, given the home directory.
pub open spec fn is_history_path(l: Option<Location>, home: Option<PathBuf>) -> bool {
    match home {
        Some(home) => l matches Some(l) && is_under(
            l,
            home,
            seq![".deepseek"@, HISTORY_FILE_NAME@],
        ),
        None => l is None,
    }
}

/// The name of the file that holds the composer history.
pub const HISTORY_FILE_NAME: &'static str = "composer_history.txt";

/// The place in the client's own directory under `home`.
fn own_place(home: PathBuf, name: &str) -> (r: Location)
    ensures
        is_under(r, home, seq![".deepseek"@, name@]),
{
    let mut below: Vec<String> = Vec::new();
    below.push(".deepseek".to_string());
    below.push(name.to_string());
    assert(texts(below@) =~= seq![".deepseek"@, name@]);
    Location { base: Base::Home(home), below }
}

/// Where skills are by default, given the home directory.
#[must_use]
pub fn skills_dir_in(home: Option<PathBuf>) -> (r: Location)
    ensures
        is_skills_dir(r, home),
{
    match home {
        Some(home) => own_place(home, "skills"),
        None => Location {
            base: Base::Fixed("/tmp/deepseek/skills".to_string()),
            below: Vec::new(),
        },
    }
}

/// Where skills are by default.
#[must_use]
pub fn default_skills_dir() -> (r: Location)
    ensures
        exists|home: Option<PathBuf>| #[trigger] can_be_home(home) && is_skills_dir(r, home),
{
    let home: Option<PathBuf> = home_dir();
    skills_dir_in(home)
}

/// Where the composer history is, given the home directory.
#[must_use]
pub fn history_path_in(home: Option<PathBuf>) -> (r: Option<Location>)
    ensures
        is_history_path(r, home),
{
    match home {
        Some(home) => Some(own_place(home, HISTORY_FILE_NAME)),
        None => None,
    }
}

/// Where the composer history is; nowhere if there is no home directory.
#[must_use]
pub fn history_path() -> (r: Option<Location>)
    ensures
        exists|home: Option<PathBuf>| #[trigger] can_be_home(home) && is_history_path(r, home),
{
    let home: Option<PathBuf> = home_dir();
    history_path_in(home)
}

// === Laws ===

/// The client's files are below `.deepseek` in the home directory. Without one,
/// the skills have a fixed place, and there is no history.
pub proof fn files_are_below_the_home_directory(l: Location, home: PathBuf)
    ensures
        is_skills_dir(l, Some(home)) <==> {
            &&& l.base == Base::Home(home)
            &&& l.below@.len() == 2
            &&& l.below@[0]@ == ".deepseek"@
            &&& l.below@[1]@ == "skills"@
        },
        is_history_path(Some(l), Some(home)) <==> {
            &&& l.base == Base::Home(home)
            &&& l.below@.len() == 2
            &&& l.below@[0]@ == ".deepseek"@
            &&& l.below@[1]@ == "composer_history.txt"@
        },
        is_skills_dir(l, None) <==> {
            &&& l.base matches Base::Fixed(path)
            &&& path@ == "/tmp/deepseek/skills"@
            &&& l.below@.len() == 0
        },
        !is_history_path(None, Some(home)),
        !is_history_path(Some(l), None),
        is_history_path(None, None),
{
    let names = texts(l.below@);
    let skills = seq![".deepseek"@, "skills"@];
    let history = seq![".deepseek"@, "composer_history.txt"@];
    assert(names.len() == l.below@.len());
    if l.below@.len() == 2 {
        assert(names[0] == l.below@[0]@);
        assert(names[1] == l.below@[1]@);
        if names[0] == skills[0] && names[1] == skills[1] {
            assert(names =~= skills);
        }
        if names[0] == history[0] && names[1] == history[1] {
            assert(names =~= history);
        }
    }
    if names == skills {
        assert(names[0] == skills[0] && names[1] == skills[1]);
    }
    if names == history {
        assert(names[0] == history[0] && names[1] == history[1]);
    }
}

} // verus!
