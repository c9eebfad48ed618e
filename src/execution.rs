//! The command lines that executing a result runs; the caller hands them
//! to the window manager.
use vstd::prelude::*;
use crate::dynamic::{replace_all, replace_all_exec};
use crate::text::{chars_of, concat_str, has_infix, has_infix_exec, has_prefix, has_prefix_exec, is_space, is_space_char, string_of};

verus! {

/// `path` in single quotes for a POSIX shell, each `'` in it written `'\''`.
pub open spec fn shell_quoted(path: Seq<char>) -> Seq<char> {
    seq!['\''] + replace_all(path, seq!['\''], seq!['\'', '\\', '\'', '\'']) + seq!['\'']
}

/// Quotes `path` for a POSIX shell.
pub fn shell_quote(path: &str) -> (r: String)
    ensures
        r@ == shell_quoted(path@),
{
    let mut quote: Vec<char> = Vec::new();
    quote.push('\'');
    let mut escaped: Vec<char> = Vec::new();
    escaped.push('\'');
    escaped.push('\\');
    escaped.push('\'');
    escaped.push('\'');
    let mut body = replace_all_exec(&chars_of(path), &quote, &escaped);
    let mut out: Vec<char> = Vec::new();
    out.push('\'');
    out.append(&mut body);
    out.push('\'');
    assert(quote@ =~= seq!['\'']);
    assert(escaped@ =~= seq!['\'', '\\', '\'', '\'']);
    assert(out@ =~= shell_quoted(path@));
    string_of(&out)
}

/// The command that opens `terminal` in `path` with the user's shell.
pub open spec fn navigate_line(terminal: Seq<char>, path: Seq<char>) -> Seq<char> {
    terminal + " -d "@ + shell_quoted(path) + " $SHELL"@
}

/// The command that runs `command`, in `terminal` where it needs one.
pub open spec fn launch_line(terminal: Seq<char>, command: Seq<char>, needs_terminal: bool) -> Seq<char> {
    if needs_terminal {
        terminal + " -e "@ + command
    } else {
        command
    }
}

/// Some character of `s` is not white space.
pub open spec fn has_word(s: Seq<char>) -> bool {
    exists|i: int| 0 <= i < s.len() && !is_space(#[trigger] s[i])
}

fn has_word_exec(s: &Vec<char>) -> (r: bool)
    ensures
        r == has_word(s@),
{
    let mut i: usize = 0;
    while i < s.len()
        invariant
            i <= s@.len(),
            forall|j: int| 0 <= j < i ==> is_space(#[trigger] s@[j]),
        decreases s@.len() - i,
    {
        if !is_space_char(s[i]) {
            return true;
        }
        i = i + 1;
    }
    false
}

/// The command that opens a terminal in `path`.
pub fn kitty_cd_command(path: &str) -> (r: String)
    ensures
        r@ == navigate_line("kitty"@, path@),
{
    let head = concat_str("kitty -d ", shell_quote(path).as_str());
    let r = concat_str(head.as_str(), " $SHELL");
    proof {
        reveal_strlit("kitty -d ");
        reveal_strlit("kitty");
        reveal_strlit(" -d ");
        assert("kitty -d "@ =~= "kitty"@ + " -d "@);
    }
    assert(r@ =~= navigate_line("kitty"@, path@));
    r
}

/// The command that launches an application: none for an `Exec` line with
/// no word; in a terminal where the application needs one.
pub fn application_command(exec_command: &str, needs_terminal: bool) -> (r: Option<String>)
    ensures
        !has_word(exec_command@) ==> r is None,
        has_word(exec_command@) ==> (r matches Some(c) && c@ == launch_line(
            "kitty"@,
            exec_command@,
            needs_terminal,
        )),
{
    if !has_word_exec(&chars_of(exec_command)) {
        return None;
    }
    proof {
        reveal_strlit("kitty -e ");
        reveal_strlit("kitty");
        reveal_strlit(" -e ");
        assert("kitty -e "@ =~= "kitty"@ + " -e "@);
    }
    if needs_terminal {
        Some(concat_str("kitty -e ", exec_command))
    } else {
        Some(String::from_str(exec_command))
    }
}

/// Turns results into the commands that execute them.
pub struct ExecutionService {}

impl ExecutionService {
    pub fn new() -> Self {
        ExecutionService {  }
    }

    /// The command that launches `command`, in `terminal` where needed.
    pub fn launch_command(&self, terminal: &str, command: &str, needs_terminal: bool) -> (r: String)
        ensures
            r@ == launch_line(terminal@, command@, needs_terminal),
    {
        if needs_terminal {
            let head = concat_str(terminal, " -e ");
            concat_str(head.as_str(), command)
        } else {
            String::from_str(command)
        }
    }

    /// The command that opens `terminal` in `path`.
    pub fn navigate_command(&self, terminal: &str, path: &str) -> (r: String)
        ensures
            r@ == navigate_line(terminal@, path@),
    {
        let head = concat_str(concat_str(terminal, " -d ").as_str(), shell_quote(path).as_str());
        let r = concat_str(head.as_str(), " $SHELL");
        assert(r@ =~= navigate_line(terminal@, path@));
        r
    }
}

/// Completes directory paths as they are typed.
pub struct DirectoryAutocomplete {}

/// Input that reads as a path.
pub open spec fn path_like(input: Seq<char>) -> bool {
    has_prefix(input, "/"@) || has_prefix(input, "~/"@) || has_prefix(input, "./"@) || has_prefix(
        input,
        "../"@,
    ) || has_infix(input, "/"@)
}

impl DirectoryAutocomplete {
    pub fn new() -> Self {
        DirectoryAutocomplete {  }
    }

    /// Whether the input reads as a path: it starts with `/`, `~/`, `./` or
    /// `../`, or holds a `/`.
    pub fn looks_like_path(&self, input: &str) -> (r: bool)
        ensures
            r == path_like(input@),
    {
        let s = chars_of(input);
        has_prefix_exec(&s, &chars_of("/")) || has_prefix_exec(&s, &chars_of("~/")) || has_prefix_exec(
            &s,
            &chars_of("./"),
        ) || has_prefix_exec(&s, &chars_of("../")) || has_infix_exec(&s, &chars_of("/"))
    }
}

} // verus!
