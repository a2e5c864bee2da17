//! User-defined shell shortcuts.

use vstd::prelude::*;
use crate::text::{chars_of, push_char, string_of_range, trim, trim_bounds};

verus! {

/// A user-defined shell shortcut.
#[derive(Debug)]
pub struct Shortcut {
    /// Row id assigned by the store.
    pub id: i64,
    /// Human-readable display name.
    pub name: String,
    /// Shell command to execute (passed to `sh -c`).
    pub command: String,
    /// Unix timestamp of creation.
    pub created: i64,
}

impl Clone for Shortcut {
    fn clone(&self) -> (r: Self)
        ensures
            r == *self,
    {
        Shortcut {
            id: self.id,
            name: self.name.clone(),
            command: self.command.clone(),
            created: self.created,
        }
    }
}

/// stdout and stderr of a command run, combined: each that is not empty,
/// stdout first and a newline between them; `(no output)` when both are
/// empty.
pub open spec fn combined_text(stdout: Seq<char>, stderr: Seq<char>) -> Seq<char> {
    if stdout.len() == 0 && stderr.len() == 0 {
        "(no output)"@
    } else if stderr.len() == 0 {
        stdout
    } else if stdout.len() == 0 {
        stderr
    } else {
        stdout + seq!['\n'] + stderr
    }
}

/// The output shown for a run: the combined text, or, when it is longer
/// than 2000 characters, its first 2000 characters and a truncation note.
pub open spec fn shown_output(stdout: Seq<char>, stderr: Seq<char>) -> Seq<char> {
    let c = combined_text(stdout, stderr);
    if c.len() > 2000 {
        c.take(2000) + "\n… (truncated)"@
    } else {
        c
    }
}

/// stdout and stderr combined, before truncation.
pub fn combine_output(stdout: &str, stderr: &str) -> (s: String)
    ensures
        s@ == combined_text(stdout@, stderr@),
{
    let mut combined = String::new();
    if !stdout.is_empty() {
        combined.append(stdout);
    }
    if !stderr.is_empty() {
        if !stdout.is_empty() {
            push_char(&mut combined, '\n');
        }
        combined.append(stderr);
    }
    if stdout.is_empty() && stderr.is_empty() {
        combined.append("(no output)");
    }
    assert(combined@ =~= combined_text(stdout@, stderr@));
    combined
}

/// The text shown after running a shortcut, from what it wrote to stdout
/// and stderr: combined, and cut to 2000 characters when longer.
pub fn shortcut_output(stdout: &str, stderr: &str) -> (s: String)
    ensures
        s@ == shown_output(stdout@, stderr@),
{
    let combined = combine_output(stdout, stderr);
    let cs = chars_of(combined.as_str());
    if cs.len() > 2000 {
        let head = string_of_range(&cs, 0, 2000);
        assert(cs@.subrange(0, 2000) =~= cs@.take(2000));
        head.concat("\n… (truncated)")
    } else {
        combined
    }
}

/// The command as shown in the list: when longer than 40 characters, its
/// first 39 characters and an ellipsis.
pub open spec fn command_preview_text(command: Seq<char>) -> Seq<char> {
    if command.len() > 40 {
        command.take(39).push('…')
    } else {
        command
    }
}

/// The command as shown in the shortcut list.
pub fn command_preview(command: &str) -> (s: String)
    ensures
        s@ == command_preview_text(command@),
{
    let v = chars_of(command);
    if v.len() > 40 {
        let mut s = string_of_range(&v, 0, 39);
        push_char(&mut s, '…');
        assert(v@.subrange(0, 39) =~= v@.take(39));
        s
    } else {
        string_of_range(&v, 0, v.len())
    }
}

/// A new shortcut needs a name and a command that are not blank.
pub open spec fn valid_shortcut_fields(name: Seq<char>, command: Seq<char>) -> bool {
    trim(name).len() > 0 && trim(command).len() > 0
}

/// Whether the form's name and command can be saved as a shortcut.
pub fn shortcut_fields_valid(name: &str, command: &str) -> (b: bool)
    ensures
        b == valid_shortcut_fields(name@, command@),
{
    let nv = chars_of(name);
    let cv = chars_of(command);
    let (a, b) = trim_bounds(&nv);
    let (c, d) = trim_bounds(&cv);
    b > a && d > c
}

} // verus!
