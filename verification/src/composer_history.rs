//! Cross-session composer input history.
//!
//! The prompts that the user typed are kept in a file, so that earlier
//! sessions can be recalled: one entry per line, oldest first, capped at
//! [`MAX_HISTORY_ENTRIES`] entries (older entries are pruned at append time).
//!
//! Entries that begin with `/` (slash commands) are not stored, nor are empty
//! and whitespace-only inputs.
//!
//! An entry stands in its line as it is. One that would not come back from
//! there, because it holds a line break, is written with its breaks escaped,
//! behind a mark with which no typed entry begins: a slash and the character
//! U+001E. Every line that was not written so is read as it stands.

use vstd::prelude::*;
use vstd::string::*;
use vstd::utf8::*;

use crate::text::{
    all_space, blank, blank_is_all_space, chars_of, first_index, first_index_is, first_index_is_first, index_in, is_blank, join,
    is_tidy, joined, matches_at, push_range, same_text, string_of, texts, trim,
    trim_is_final, trim_takes_the_ends, trimmed,
};

verus! {

/// Hard cap on persisted history. Keeps the file small and bounds startup load
/// time.
pub const MAX_HISTORY_ENTRIES: usize = 1000;

// === Lines ===

/// How a character is written in an escaped entry.
pub open spec fn escape_of(c: char) -> Seq<char> {
    if c == '\n' {
        seq!['\\', 'n']
    } else if c == '\r' {
        seq!['\\', 'r']
    } else if c == '\\' {
        seq!['\\', '\\']
    } else {
        seq![c]
    }
}

/// A text with its line breaks and backslashes escaped.
pub open spec fn escaped(s: Seq<char>) -> Seq<char>
    decreases s.len(),
{
    if s.len() == 0 {
        Seq::empty()
    } else {
        escape_of(s[0]) + escaped(s.drop_first())
    }
}

/// What a character behind a backslash stands for.
pub open spec fn meaning_of(c: char) -> char {
    if c == 'n' {
        '\n'
    } else if c == 'r' {
        '\r'
    } else {
        c
    }
}

/// The text that an escaped one stands for.
pub open spec fn unescaped(s: Seq<char>) -> Seq<char>
    decreases s.len(),
{
    if s.len() == 0 {
        Seq::empty()
    } else if s[0] == '\\' && s.len() >= 2 {
        seq![meaning_of(s[1])] + unescaped(s.skip(2))
    } else {
        seq![s[0]] + unescaped(s.drop_first())
    }
}

/// Whether a line begins with the mark of an escaped entry.
pub open spec fn is_marked(line: Seq<char>) -> bool {
    line.len() >= 2 && line[0] == '/' && line[1] == '\u{1e}'
}

/// The line that holds an entry.
pub open spec fn written_as(e: Seq<char>) -> Seq<char> {
    if e.contains('\n') {
        seq!['/', '\u{1e}'] + escaped(e)
    } else {
        e
    }
}

/// Whether a line is one that an entry with a line break is written as.
pub open spec fn is_coded(line: Seq<char>) -> bool {
    let e = unescaped(line.skip(2));
    is_marked(line) && e.contains('\n') && escaped(e) == line.skip(2)
}

/// The entry that a line holds.
pub open spec fn read_as(line: Seq<char>) -> Seq<char> {
    if is_coded(line) {
        unescaped(line.skip(2))
    } else {
        line
    }
}

/// Whether a list of characters holds a line break.
fn has_break(v: &Vec<char>) -> (r: bool)
    ensures
        r == v@.contains('\n'),
{
    let at: usize = index_in(v, 0, v.len(), '\n');
    proof {
        assert(v@.subrange(0, v@.len() as int) =~= v@);
        first_index_is_first(v@, '\n');
        if v@.contains('\n') {
            let k = choose|k: int| 0 <= k < v@.len() && v@[k] == '\n';
            assert(at <= k);
        }
    }
    at < v.len()
}

/// The characters with line breaks and backslashes escaped.
fn escape_chars(v: &Vec<char>) -> (r: Vec<char>)
    ensures
        r@ == escaped(v@),
{
    let mut out: Vec<char> = Vec::new();
    let mut i: usize = 0;
    assert(v@.skip(0) =~= v@);
    assert(out@ + escaped(v@.skip(0)) =~= escaped(v@));
    while i < v.len()
        invariant
            i <= v@.len(),
            out@ + escaped(v@.skip(i as int)) == escaped(v@),
        decreases v@.len() - i,
    {
        let ghost before = out@;
        let c: char = v[i];
        if c == '\n' {
            out.push('\\');
            out.push('n');
        } else if c == '\r' {
            out.push('\\');
            out.push('r');
        } else if c == '\\' {
            out.push('\\');
            out.push('\\');
        } else {
            out.push(c);
        }
        proof {
            assert(out@ =~= before + escape_of(c));
            assert(v@.skip(i as int).drop_first() =~= v@.skip(i + 1));
            assert(out@ + escaped(v@.skip(i + 1)) =~= before + escaped(v@.skip(i as int)));
        }
        i = i + 1;
    }
    assert(out@ =~= out@ + escaped(v@.skip(v@.len() as int)));
    out
}

/// The characters that the escaped ones in `v[from..to]` stand for.
fn unescape_chars(v: &Vec<char>, from: usize, to: usize) -> (r: Vec<char>)
    requires
        from <= to <= v@.len(),
    ensures
        r@ == unescaped(v@.subrange(from as int, to as int)),
{
    let ghost all = unescaped(v@.subrange(from as int, to as int));
    let mut out: Vec<char> = Vec::new();
    let mut i: usize = from;
    assert(out@ + all =~= all);
    while i < to
        invariant
            from <= i <= to <= v@.len(),
            out@ + unescaped(v@.subrange(i as int, to as int)) == all,
        decreases to - i,
    {
        let ghost before = out@;
        let ghost rest = v@.subrange(i as int, to as int);
        if v[i] == '\\' && to - i >= 2 {
            let c: char = v[i + 1];
            if c == 'n' {
                out.push('\n');
            } else if c == 'r' {
                out.push('\r');
            } else {
                out.push(c);
            }
            proof {
                assert(rest.skip(2) =~= v@.subrange(i + 2, to as int));
                assert(out@ + unescaped(rest.skip(2)) =~= before + unescaped(rest));
            }
            i = i + 2;
        } else {
            out.push(v[i]);
            proof {
                assert(rest.drop_first() =~= v@.subrange(i + 1, to as int));
                assert(out@ + unescaped(rest.drop_first()) =~= before + unescaped(rest));
            }
            i = i + 1;
        }
    }
    assert(out@ =~= out@ + unescaped(v@.subrange(to as int, to as int)));
    out
}

/// The line that holds an entry.
fn write_line(e: &str) -> (r: String)
    ensures
        r@ == written_as(e@),
{
    let v: Vec<char> = chars_of(e);
    if !has_break(&v) {
        return e.to_string();
    }
    let mut out: String = String::new();
    out.push('/');
    out.push('\u{1e}');
    let code: Vec<char> = escape_chars(&v);
    push_range(&mut out, &code, 0, code.len());
    assert(out@ =~= seq!['/', '\u{1e}'] + escaped(e@));
    out
}

/// The entry that the line `v[from..to]` holds.
fn read_line(v: &Vec<char>, from: usize, to: usize) -> (r: String)
    requires
        from <= to <= v@.len(),
    ensures
        r@ == read_as(v@.subrange(from as int, to as int)),
{
    let ghost line = v@.subrange(from as int, to as int);
    if to - from >= 2 && v[from] == '/' && v[from + 1] == '\u{1e}' {
        assert(v@.subrange(from + 2, to as int) =~= line.skip(2));
        let e: Vec<char> = unescape_chars(v, from + 2, to);
        if has_break(&e) {
            let code: Vec<char> = escape_chars(&e);
            if code.len() == to - from - 2 && matches_at(v, to, &code, from + 2) {
                assert(is_coded(line));
                assert(e@.subrange(0, e@.len() as int) =~= e@);
                return string_of(&e, 0, e.len());
            }
            assert(code@ != line.skip(2));
        }
    }
    string_of(v, from, to)
}

// === Reading ===

/// The first line of a text, without its ending.
pub open spec fn first_line(t: Seq<char>) -> Seq<char> {
    let i = first_index(t, '\n');
    if 0 < i < t.len() && t[i - 1] == '\r' {
        t.take(i - 1)
    } else {
        t.take(i)
    }
}

/// What follows the first line of a text.
pub open spec fn after_line(t: Seq<char>) -> Seq<char> {
    let i = first_index(t, '\n');
    if i < t.len() {
        t.skip(i + 1)
    } else {
        Seq::empty()
    }
}

/// The entries in the text of a history file: what its lines hold, without
/// what is blank.
pub open spec fn history_entries(t: Seq<char>) -> Seq<Seq<char>>
    decreases t.len(),
{
    if t.len() == 0 {
        Seq::empty()
    } else {
        proof {
            first_index_is_first(t, '\n');
        }
        let entry = read_as(first_line(t));
        let rest = history_entries(after_line(t));
        if is_blank(entry) {
            rest
        } else {
            seq![entry] + rest
        }
    }
}

/// The entries in a history file; none if there is no file, or if it is not
/// valid UTF-8.
pub open spec fn entries_of(contents: Option<Seq<u8>>) -> Seq<Seq<char>> {
    match contents {
        Some(b) => if valid_utf8(b) {
            history_entries(decode_utf8(b))
        } else {
            Seq::empty()
        },
        None => Seq::empty(),
    }
}

/// The bytes of a file, if there is one.
pub open spec fn bytes_of(contents: Option<&[u8]>) -> Option<Seq<u8>> {
    match contents {
        Some(b) => Some(b@),
        None => None,
    }
}

/// The entries in the text of a history file.
fn entries_in(text: &str) -> (r: Vec<String>)
    ensures
        texts(r@) == history_entries(text@),
{
    let v: Vec<char> = chars_of(text);
    let n: usize = v.len();
    let mut entries: Vec<String> = Vec::new();
    let mut at: usize = 0;
    assert(v@.skip(0) =~= v@);
    assert(texts(entries@) + history_entries(v@.skip(0)) =~= history_entries(v@));
    while at < n
        invariant
            at <= n == v@.len(),
            v@ == text@,
            texts(entries@) + history_entries(v@.skip(at as int)) == history_entries(v@),
        decreases n - at,
    {
        let ghost rest = v@.skip(at as int);
        let ghost before = texts(entries@);
        let end: usize = index_in(&v, at, n, '\n');
        assert(v@.subrange(at as int, n as int) =~= rest);
        let last: usize = if at < end && end < n && v[end - 1] == '\r' {
            end - 1
        } else {
            end
        };
        assert(v@.subrange(at as int, last as int) =~= first_line(rest));
        let entry: String = read_line(&v, at, last);
        if !blank(entry.as_str()) {
            let ghost old_entries = entries@;
            let ghost e = entry@;
            entries.push(entry);
            assert(texts(entries@) =~= texts(old_entries).push(e));
        }
        let next: usize = if end < n {
            end + 1
        } else {
            n
        };
        proof {
            assert(v@.skip(next as int) =~= after_line(rest));
            assert(texts(entries@) + history_entries(after_line(rest)) =~= before
                + history_entries(rest));
        }
        at = next;
    }
    assert(texts(entries@) =~= texts(entries@) + history_entries(v@.skip(n as int)));
    entries
}

/// Read the persisted history. `contents` is what the history file holds; there
/// are no entries if there is no file or it cannot be parsed.
#[must_use]
pub fn load_history(contents: Option<&[u8]>) -> (r: Vec<String>)
    ensures
        texts(r@) == entries_of(bytes_of(contents)),
{
    if let Some(bytes) = contents {
        if let Ok(text) = core::str::from_utf8(bytes) {
            return entries_in(text);
        }
    }
    let entries: Vec<String> = Vec::new();
    assert(texts(entries@) =~= Seq::empty());
    entries
}

// === Appending ===

/// The entry that an input gives; none for slash commands and blank input.
pub open spec fn entry_of(input: Seq<char>) -> Option<Seq<char>> {
    let t = trim(input);
    if t.len() == 0 || t[0] == '/' {
        None
    } else {
        Some(t)
    }
}

/// The newest entries, as many as are kept.
pub open spec fn pruned(entries: Seq<Seq<char>>) -> Seq<Seq<char>> {
    if entries.len() > MAX_HISTORY_ENTRIES {
        entries.skip(entries.len() - MAX_HISTORY_ENTRIES)
    } else {
        entries
    }
}

/// The lines that hold these entries.
pub open spec fn lines_of(entries: Seq<Seq<char>>) -> Seq<Seq<char>> {
    entries.map_values(|e: Seq<char>| written_as(e))
}

/// The text of the file that holds these entries.
pub open spec fn payload(entries: Seq<Seq<char>>) -> Seq<char> {
    join(lines_of(entries), "\n"@) + "\n"@
}

/// The entries once an input is appended; none if the file stays as it is.
/// A repetition of the newest entry is not stored again.
pub open spec fn appended(entries: Seq<Seq<char>>, input: Seq<char>) -> Option<Seq<Seq<char>>> {
    match entry_of(input) {
        Some(t) => if entries.len() > 0 && entries.last() == t {
            None
        } else {
            Some(pruned(entries.push(t)))
        },
        None => None,
    }
}

/// The entry that an input gives: the trimmed text, if it is worth recalling.
pub fn history_entry(input: &str) -> (r: Option<String>)
    ensures
        match r {
            Some(t) => entry_of(input@) == Some(t@),
            None => entry_of(input@) is None,
        },
{
    let t: String = trimmed(input);
    if t.as_str().is_empty() || t.as_str().get_char(0) == '/' {
        None
    } else {
        Some(t)
    }
}

/// The text of the file that holds these entries.
fn file_text(entries: &Vec<String>) -> (r: String)
    ensures
        r@ == payload(texts(entries@)),
{
    let ghost all = lines_of(texts(entries@));
    let mut lines: Vec<String> = Vec::new();
    let mut i: usize = 0;
    assert(texts(lines@) =~= all.take(0));
    while i < entries.len()
        invariant
            i <= entries@.len(),
            all == lines_of(texts(entries@)),
            texts(lines@) == all.take(i as int),
        decreases entries@.len() - i,
    {
        let ghost before = lines@;
        lines.push(write_line(entries[i].as_str()));
        proof {
            assert(texts(lines@) =~= texts(before).push(all[i as int]));
            assert(all.take(i + 1) =~= all.take(i as int).push(all[i as int]));
        }
        i = i + 1;
    }
    assert(all.take(entries@.len() as int) =~= all);
    let mut text: String = joined(&lines, "\n");
    text.append("\n");
    text
}

/// Append an entry to the persisted history, pruning old entries to
/// stay within [`MAX_HISTORY_ENTRIES`]. Slash-commands and empty input
/// are skipped. `contents` is what the history file holds, and the result what
/// it is to hold instead, if it is to change.
pub fn append_history(contents: Option<&[u8]>, entry: &str) -> (r: Option<Vec<u8>>)
    ensures
        match appended(entries_of(bytes_of(contents)), entry@) {
            Some(entries) => r matches Some(bytes) && bytes@ == encode_utf8(payload(entries)),
            None => r is None,
        },
{
    let t: String = match history_entry(entry) {
        Some(t) => t,
        None => {
            return None;
        },
    };
    let mut entries: Vec<String> = load_history(contents);
    let ghost loaded = texts(entries@);
    let n: usize = entries.len();
    if n > 0 && same_text(entries[n - 1].as_str(), t.as_str()) {
        assert(loaded.last() == entries@[n - 1]@);
        return None;
    }
    proof {
        if n > 0 {
            assert(loaded.last() == entries@[n - 1]@);
        }
    }
    entries.push(t);
    assert(texts(entries@) =~= loaded.push(t@));
    let total: usize = entries.len();
    if total > MAX_HISTORY_ENTRIES {
        let kept: Vec<String> = entries.split_off(total - MAX_HISTORY_ENTRIES);
        assert(texts(kept@) =~= pruned(loaded.push(t@)));
        entries = kept;
    }
    Some(file_text(&entries).as_str().as_bytes_vec())
}

// === Laws ===

/// Escaping can be undone, and leaves no character of a line break.
pub proof fn escape_is_undone(s: Seq<char>)
    ensures
        unescaped(escaped(s)) == s,
        !escaped(s).contains('\n'),
        !escaped(s).contains('\r'),
    decreases s.len(),
{
    if s.len() > 0 {
        let head = escape_of(s[0]);
        let rest = escaped(s.drop_first());
        escape_is_undone(s.drop_first());
        assert((head + rest).skip(head.len() as int) =~= rest);
        assert((head + rest).drop_first() =~= (head + rest).skip(1));
        assert(s =~= seq![s[0]] + s.drop_first());
        assert forall|c: char| c == '\n' || c == '\r' implies !(head + rest).contains(c) by {
            if (head + rest).contains(c) {
                let k = choose|k: int| 0 <= k < (head + rest).len() && (head + rest)[k] == c;
                if k >= head.len() {
                    assert(rest[k - head.len()] == c);
                }
            }
        }
    }
}

/// Whether an entry comes back from its line: it is not blank, does not look
/// like an escaped one, and does not end in a bare carriage return, which counts
/// as part of the line's ending.
pub open spec fn survives(e: Seq<char>) -> bool {
    &&& !is_blank(e)
    &&& !is_coded(e)
    &&& e.last() == '\r' ==> e.contains('\n')
}

/// No entry ends in a bare carriage return.
pub open spec fn no_bare_return(entries: Seq<Seq<char>>) -> bool {
    forall|i: int|
        0 <= i < entries.len() ==> ((#[trigger] entries[i]).last() == '\r' ==> entries[i].contains(
            '\n',
        ))
}

/// A line that is written for an entry with a line break holds none itself.
proof fn coded_has_no_break(line: Seq<char>)
    requires
        is_coded(line),
    ensures
        !line.contains('\n'),
{
    escape_is_undone(unescaped(line.skip(2)));
    if line.contains('\n') {
        let k = choose|k: int| 0 <= k < line.len() && line[k] == '\n';
        assert(line.skip(2)[k - 2] == '\n');
    }
}

/// Every entry takes one line, and is what the line is read as, unless it looks
/// like an escaped one; and no entry that was read from a line does.
pub proof fn entry_takes_one_line(e: Seq<char>)
    ensures
        !written_as(e).contains('\n'),
        !is_coded(e) ==> read_as(written_as(e)) == e,
        !is_coded(read_as(e)),
{
    escape_is_undone(e);
    if e.contains('\n') {
        let line = written_as(e);
        assert(line.skip(2) =~= escaped(e));
        if line.contains('\n') {
            let k = choose|k: int| 0 <= k < line.len() && line[k] == '\n';
            assert(escaped(e)[k - 2] == '\n');
        }
    }
    if is_coded(read_as(e)) {
        coded_has_no_break(read_as(e));
    }
}

/// A line is read as it stands, unless it is what an entry with a line break is
/// written as.
pub proof fn only_written_lines_are_decoded(line: Seq<char>)
    ensures
        is_coded(line) ==> read_as(line).contains('\n') && written_as(read_as(line)) == line,
        !is_coded(line) ==> read_as(line) == line,
{
    if is_coded(line) {
        assert(written_as(read_as(line)) =~= line);
    }
}

/// An entry of the composer that holds no line break stands in its line as it
/// is.
pub proof fn plain_entry_stays(input: Seq<char>)
    ensures
        entry_of(input) matches Some(t) ==> survives(t) && (!t.contains('\n') ==> written_as(t)
            == t),
{
    trim_is_final(input);
}

/// What the first line of a text gives, where a line break ends it.
proof fn first_line_is_read(line: Seq<char>, rest: Seq<char>)
    requires
        !line.contains('\n'),
    ensures
        ({
            let plain = if line.len() > 0 && line.last() == '\r' {
                line.drop_last()
            } else {
                line
            };
            history_entries(line + seq!['\n'] + rest) == (if is_blank(read_as(plain)) {
                history_entries(rest)
            } else {
                seq![read_as(plain)] + history_entries(rest)
            })
        }),
{
    let t = line + seq!['\n'] + rest;
    let i = line.len() as int;
    assert(t[i] == '\n');
    assert forall|j: int| 0 <= j < i implies t[j] != '\n' by {
        assert(t[j] == line[j]);
        assert(line.contains(line[j]));
    }
    first_index_is(t, '\n', i);
    if i > 0 {
        assert(t[i - 1] == line.last());
        assert(t.take(i - 1) =~= line.drop_last());
    }
    assert(t.take(i) =~= line);
    assert(t.skip(i + 1) =~= rest);
}

/// A line that holds an entry is read as that entry.
proof fn line_is_read(e: Seq<char>, rest: Seq<char>)
    requires
        survives(e),
    ensures
        history_entries(written_as(e) + seq!['\n'] + rest) == seq![e] + history_entries(rest),
{
    entry_takes_one_line(e);
    escape_is_undone(e);
    if e.contains('\n') && written_as(e).last() == '\r' {
        assert(escaped(e)[written_as(e).len() - 3] == '\r');
    }
    first_line_is_read(written_as(e), rest);
}

pub(crate) proof fn join_from_the_front(parts: Seq<Seq<char>>, sep: Seq<char>)
    requires
        parts.len() >= 2,
    ensures
        join(parts, sep) == parts[0] + sep + join(parts.drop_first(), sep),
    decreases parts.len(),
{
    let head = parts.drop_last();
    if parts.len() == 2 {
        assert(join(head, sep) == parts[0]);
        assert(join(parts.drop_first(), sep) == parts[1]);
    } else {
        join_from_the_front(head, sep);
        assert(head.drop_first() =~= parts.drop_first().drop_last());
        assert(join(parts, sep) =~= parts[0] + sep + (join(head.drop_first(), sep) + sep
            + parts.last()));
    }
}

proof fn payload_from_the_front(entries: Seq<Seq<char>>)
    requires
        entries.len() > 0,
    ensures
        entries.len() > 1 ==> payload(entries) == written_as(entries[0]) + seq!['\n'] + payload(
            entries.drop_first(),
        ),
        entries.len() == 1 ==> payload(entries) == written_as(entries[0]) + seq!['\n'] + Seq::<
            char,
        >::empty(),
{
    reveal_strlit("\n");
    let lines = lines_of(entries);
    assert("\n"@ =~= seq!['\n']);
    if entries.len() > 1 {
        join_from_the_front(lines, "\n"@);
        assert(lines.drop_first() =~= lines_of(entries.drop_first()));
        assert(payload(entries) =~= written_as(entries[0]) + seq!['\n'] + payload(
            entries.drop_first(),
        ));
    } else {
        assert(payload(entries) =~= written_as(entries[0]) + seq!['\n'] + Seq::<char>::empty());
    }
}

proof fn written_text_is_read(entries: Seq<Seq<char>>)
    requires
        entries.len() > 0,
        forall|i: int| 0 <= i < entries.len() ==> survives(#[trigger] entries[i]),
    ensures
        history_entries(payload(entries)) == entries,
    decreases entries.len(),
{
    let e = entries[0];
    let rest = entries.drop_first();
    assert(survives(e));
    payload_from_the_front(entries);
    if entries.len() == 1 {
        line_is_read(e, Seq::empty());
        assert(entries =~= seq![e]);
        assert(history_entries(Seq::empty()) =~= Seq::empty());
    } else {
        assert forall|i: int| 0 <= i < rest.len() implies survives(#[trigger] rest[i]) by {
            assert(rest[i] == entries[i + 1]);
        }
        written_text_is_read(rest);
        line_is_read(e, payload(rest));
        assert(entries =~= seq![e] + rest);
    }
}

/// Reading a file gives back the entries that were written to it.
pub proof fn written_entries_are_read(entries: Seq<Seq<char>>)
    requires
        forall|i: int| 0 <= i < entries.len() ==> survives(#[trigger] entries[i]),
    ensures
        entries_of(Some(encode_utf8(payload(entries)))) == entries,
{
    encode_utf8_valid_utf8(payload(entries));
    encode_utf8_decode_utf8(payload(entries));
    if entries.len() > 0 {
        written_text_is_read(entries);
    } else {
        let none = Seq::<char>::empty();
        reveal_strlit("\n");
        assert(payload(entries) =~= none + seq!['\n'] + none);
        first_line_is_read(none, none);
        assert(entries =~= history_entries(none));
    }
}

/// Whatever is written, no more entries are read than were written, and the
/// newest is read as itself if it survives.
proof fn newest_is_read(entries: Seq<Seq<char>>)
    requires
        entries.len() > 0,
        survives(entries.last()),
    ensures
        0 < history_entries(payload(entries)).len() <= entries.len(),
        history_entries(payload(entries)).last() == entries.last(),
    decreases entries.len(),
{
    let e = entries[0];
    let rest = entries.drop_first();
    payload_from_the_front(entries);
    if entries.len() == 1 {
        line_is_read(e, Seq::empty());
    } else {
        newest_is_read(rest);
        entry_takes_one_line(e);
        first_line_is_read(written_as(e), payload(rest));
    }
}

proof fn entries_in_text_are_entries(t: Seq<char>)
    ensures
        forall|i: int|
            0 <= i < history_entries(t).len() ==> !is_blank(#[trigger] history_entries(t)[i])
                && !is_coded(history_entries(t)[i]),
    decreases t.len(),
{
    if t.len() > 0 {
        first_index_is_first(t, '\n');
        let entry = read_as(first_line(t));
        let rest = history_entries(after_line(t));
        entries_in_text_are_entries(after_line(t));
        entry_takes_one_line(first_line(t));
        if !is_blank(entry) {
            assert forall|i: int| 0 <= i < history_entries(t).len() implies !is_blank(
                #[trigger] history_entries(t)[i],
            ) && !is_coded(history_entries(t)[i]) by {
                if i > 0 {
                    assert(history_entries(t)[i] == rest[i - 1]);
                }
            }
        }
    }
}

/// The entries that are read are never blank and never look like an escaped
/// one.
pub proof fn read_entries_are_entries(contents: Option<Seq<u8>>)
    ensures
        forall|i: int|
            0 <= i < entries_of(contents).len() ==> !is_blank(#[trigger] entries_of(contents)[i])
                && !is_coded(entries_of(contents)[i]),
{
    if let Some(b) = contents {
        entries_in_text_are_entries(decode_utf8(b));
    }
}

/// Appending an input that is worth recalling, whatever it holds, to whatever
/// the file holds: the input is then the newest entry, and if the file was
/// written, it has no more entries than the cap. These are the old ones and the
/// new one, but for the oldest beyond the cap, unless an old one that is kept
/// ends in a bare carriage return.
pub proof fn appended_entry_is_read(contents: Option<Seq<u8>>, input: Seq<char>)
    requires
        entry_of(input) is Some,
    ensures
        ({
            let before = entries_of(contents);
            let after = match appended(before, input) {
                Some(entries) => entries_of(Some(encode_utf8(payload(entries)))),
                None => before,
            };
            &&& after.len() > 0 && after.last() == trim(input)
            &&& appended(before, input) is Some ==> after.len() <= MAX_HISTORY_ENTRIES
            &&& before.len() <= MAX_HISTORY_ENTRIES ==> after.len() <= MAX_HISTORY_ENTRIES
            &&& appended(before, input) matches Some(kept) ==> no_bare_return(kept) ==> after
                == pruned(before.push(trim(input)))
        }),
{
    let before = entries_of(contents);
    let t = trim(input);
    read_entries_are_entries(contents);
    plain_entry_stays(input);
    if let Some(kept) = appended(before, input) {
        let all = before.push(t);
        assert(kept == pruned(all));
        assert(kept.last() == t);
        encode_utf8_valid_utf8(payload(kept));
        encode_utf8_decode_utf8(payload(kept));
        newest_is_read(kept);
        if no_bare_return(kept) {
            assert forall|i: int| 0 <= i < kept.len() implies survives(#[trigger] kept[i]) by {
                let k = i + all.len() - kept.len();
                assert(kept[i] == all[k]);
                if k < before.len() {
                    assert(all[k] == before[k]);
                }
            }
            written_entries_are_read(kept);
        }
    }
}

/// Slash commands and blank inputs leave the file as it is.
pub proof fn commands_and_blanks_are_not_stored(entries: Seq<Seq<char>>, input: Seq<char>)
    requires
        is_blank(input) || trim(input)[0] == '/',
    ensures
        appended(entries, input) is None,
{
}

/// What is written is never more than the cap, and it is the newest of the old
/// entries with the new one behind them.
pub proof fn newest_entries_survive(entries: Seq<Seq<char>>, input: Seq<char>)
    ensures
        appended(entries, input) matches Some(kept) ==> {
            let all = entries.push(trim(input));
            &&& 0 < kept.len() <= MAX_HISTORY_ENTRIES
            &&& kept == all.skip(all.len() - kept.len())
            &&& kept.len() < all.len() ==> kept.len() == MAX_HISTORY_ENTRIES
        },
{
    let all = entries.push(trim(input));
    assert(all.skip(0) =~= all);
}

/// Every input that is neither blank nor a slash command is worth recalling: its
/// trimmed text is the newest entry afterwards, and the file is written unless
/// it was the newest before.
pub proof fn every_other_input_is_stored(contents: Option<Seq<u8>>, input: Seq<char>)
    requires
        !is_blank(input),
        trim(input)[0] != '/',
    ensures
        entry_of(input) == Some(trim(input)),
        ({
            let before = entries_of(contents);
            let after = match appended(before, input) {
                Some(entries) => entries_of(Some(encode_utf8(payload(entries)))),
                None => before,
            };
            &&& appended(before, input) is None <==> (before.len() > 0 && before.last() == trim(
                input,
            ))
            &&& after.len() > 0 && after.last() == trim(input)
        }),
{
    appended_entry_is_read(contents, input);
}

/// The text between the white space of an input is stored, behind the old
/// entries, of which the newest stay: a thousand entries in all.
pub proof fn newest_thousand_are_kept(
    before: Seq<Seq<char>>,
    u: Seq<char>,
    t: Seq<char>,
    w: Seq<char>,
)
    requires
        all_space(u),
        all_space(w),
        is_tidy(t),
        t.len() > 0,
    ensures
        t[0] == '/' ==> appended(before, u + t + w) is None,
        t[0] != '/' && before.len() > 0 && before.last() == t ==> appended(before, u + t + w)
            is None,
        t[0] != '/' && (before.len() == 0 || before.last() != t) ==> appended(before, u + t + w)
            == Some(
            if before.len() < 1000 {
                before.push(t)
            } else {
                before.push(t).skip(before.len() - 999)
            },
        ),
{
    trim_takes_the_ends(u, t, w);
}

/// Blank input is not stored.
pub proof fn white_space_is_not_stored(before: Seq<Seq<char>>, u: Seq<char>)
    requires
        all_space(u),
    ensures
        appended(before, u) is None,
        entry_of(u) is None,
{
    let none = Seq::<char>::empty();
    trim_takes_the_ends(u, none, none);
    assert(u + none + none =~= u);
}

/// A file is read line by line. Each line gives itself, but for a carriage
/// return before the line break, and nothing if it is white space; what stands
/// behind the last line break is a line too. (This is said of lines without
/// U+001E: of those with it, [`only_written_lines_are_decoded`] says more.)
pub proof fn file_is_read_line_by_line(line: Seq<char>, rest: Seq<char>)
    requires
        !line.contains('\n'),
        !line.contains('\u{1e}'),
    ensures
        history_entries(Seq::empty()).len() == 0,
        all_space(line) ==> history_entries(line).len() == 0,
        !all_space(line) ==> history_entries(line) == seq![line],
        ({
            let shown = if line.len() > 0 && line[line.len() - 1] == '\r' {
                line.take(line.len() - 1)
            } else {
                line
            };
            let all = history_entries(line + seq!['\n'] + rest);
            &&& all_space(shown) ==> all == history_entries(rest)
            &&& !all_space(shown) ==> all == seq![shown] + history_entries(rest)
        }),
{
    let shown = if line.len() > 0 && line[line.len() - 1] == '\r' {
        line.take(line.len() - 1)
    } else {
        line
    };
    blank_is_all_space(line);
    blank_is_all_space(shown);
    first_line_is_read(line, rest);
    if line.len() > 0 {
        assert(line.drop_last() =~= line.take(line.len() - 1));
    }
    if is_marked(line) {
        assert(line.contains(line[1]));
    }
    if is_marked(shown) {
        assert(line[1] == shown[1]);
        assert(line.contains(line[1]));
    }
    assert(read_as(shown) == shown);
    assert(history_entries(line + seq!['\n'] + rest) == (if is_blank(shown) {
        history_entries(rest)
    } else {
        seq![shown] + history_entries(rest)
    }));
    if line.len() > 0 {
        assert forall|j: int| 0 <= j < line.len() implies line[j] != '\n' by {
            assert(line.contains(line[j]));
        }
        first_index_is(line, '\n', line.len() as int);
        assert(line.take(line.len() as int) =~= line);
        assert(history_entries(after_line(line)) =~= Seq::empty());
        assert(seq![line] + Seq::empty() =~= seq![line]);
    }
}

/// A history file is read as the text that its bytes encode; one that is no
/// text gives nothing, and neither does one that is not there.
pub proof fn file_is_read_as_text(b: Seq<u8>, text: Seq<char>)
    ensures
        entries_of(None).len() == 0,
        !valid_utf8(b) ==> entries_of(Some(b)).len() == 0,
        entries_of(Some(encode_utf8(text))) == history_entries(text),
{
    encode_utf8_valid_utf8(text);
    encode_utf8_decode_utf8(text);
}

/// A history file holds one line for each entry, in their order, and nothing
/// else; an entry without a line break is its line.
pub proof fn file_holds_a_line_for_each_entry(entries: Seq<Seq<char>>, e: Seq<char>)
    ensures
        ({
            let line = written_as(e);
            &&& !line.contains('\n')
            &&& !e.contains('\n') ==> line == e
            &&& payload(seq![e]) == line + seq!['\n']
            &&& entries.len() > 0 ==> payload(entries.push(e)) == payload(entries) + line + seq![
                '\n',
            ]
        }),
{
    reveal_strlit("\n");
    assert("\n"@ =~= seq!['\n']);
    entry_takes_one_line(e);
    assert(lines_of(seq![e]) =~= seq![written_as(e)]);
    if entries.len() > 0 {
        let lines = lines_of(entries.push(e));
        assert(lines.drop_last() =~= lines_of(entries));
        assert(payload(entries.push(e)) =~= payload(entries) + written_as(e) + seq!['\n']);
    }
}

/// A file is seen with all its bytes.
pub proof fn file_is_seen_whole(b: &[u8])
    ensures
        bytes_of(Some(b)) == Some(b@),
        bytes_of(None) is None,
{
}

} // verus!
