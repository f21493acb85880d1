//! Shell words and the code a shell evaluates.

use vstd::prelude::*;

use crate::env::Vars;
use crate::text::{
    begins, cat2, cat3, cat4, cat5, chars_of, debug_of, debug_text, digit, find, is_digit,
    is_letter, letter, lines, replace, replaced, same_text, text_of, trim, trimmed, Text,
};

verus! {

/// A character that may stand in a variable name after its first.
pub open spec fn name_char(c: char) -> bool {
    letter(c) || digit(c) || c == '_'
}

/// A valid sh variable name: `[A-Za-z_][A-Za-z0-9_]*`.
pub open spec fn identifier(s: Text) -> bool {
    &&& s.len() > 0
    &&& !digit(s[0])
    &&& forall|i: int| 0 <= i < s.len() ==> name_char(#[trigger] s[i])
}

pub fn is_name_char(c: char) -> (r: bool)
    ensures
        r == name_char(c),
{
    is_letter(c) || is_digit(c) || c == '_'
}

/// Whether the characters form a valid sh variable name.
pub fn is_name(s: &[char]) -> (r: bool)
    ensures
        r == identifier(s@),
{
    if s.len() == 0 || is_digit(s[0]) {
        return false;
    }
    let mut i: usize = 0;
    while i < s.len()
        invariant
            i <= s@.len(),
            forall|j: int| 0 <= j < i ==> name_char(#[trigger] s@[j]),
        decreases s@.len() - i,
    {
        if !is_name_char(s[i]) {
            return false;
        }
        i += 1;
    }
    true
}

/// A valid sh variable name: `[A-Za-z_][A-Za-z0-9_]*`.
pub fn is_identifier(s: &str) -> (r: bool)
    ensures
        r == identifier(s@),
{
    is_name(&chars_of(s))
}

// ---------------------------------------------------------------------------
// Quoting
// ---------------------------------------------------------------------------

/// Characters safe to leave unquoted in a bash word. Deliberately conservative:
/// `$`, backtick, `*`, `?`, `~`, `!`, `#`, `&`, `;`, spaces and quotes are all
/// absent, so they always end up quoted.
pub open spec fn safe_unquoted(c: char) -> bool {
    ||| letter(c)
    ||| digit(c)
    ||| c == '%'
    ||| c == '+'
    ||| c == ','
    ||| c == '-'
    ||| c == '.'
    ||| c == '/'
    ||| c == ':'
    ||| c == '='
    ||| c == '@'
    ||| c == '_'
    ||| c == '^'
}

pub fn is_safe_unquoted(c: char) -> (r: bool)
    ensures
        r == safe_unquoted(c),
{
    is_letter(c) || is_digit(c) || c == '%' || c == '+' || c == ',' || c == '-' || c == '.' || c
        == '/' || c == ':' || c == '=' || c == '@' || c == '_' || c == '^'
}

/// A value as a bash word: as it is where every character is safe, else in
/// single quotes, with a quote inside it written as `'\''`.
pub open spec fn quoted(value: Text) -> Text {
    if value.len() == 0 {
        "''"@
    } else if forall|i: int| 0 <= i < value.len() ==> safe_unquoted(#[trigger] value[i]) {
        value
    } else {
        "'"@ + replace(value, '\'', "'\\''"@) + "'"@
    }
}

/// Quote a value for bash. Single quotes stop all expansion; embedded single
/// quotes are emitted with the `'\''` dance.
pub fn quote(value: &str) -> (r: String)
    ensures
        r@ == quoted(value@),
{
    if value.is_empty() {
        return "''".to_owned();
    }
    let chars: Vec<char> = chars_of(value);
    let mut i: usize = 0;
    while i < chars.len()
        invariant
            i <= chars@.len(),
            chars@ == value@,
            value@.len() > 0,
            forall|j: int| 0 <= j < i ==> safe_unquoted(#[trigger] value@[j]),
        decreases chars@.len() - i,
    {
        if !is_safe_unquoted(chars[i]) {
            return cat3("'", replaced(value, '\'', "'\\''").as_str(), "'");
        }
        i += 1;
    }
    value.to_owned()
}

/// A value as a PowerShell literal: in single quotes, with a quote inside it
/// doubled.
pub open spec fn quoted_powershell(value: Text) -> Text {
    "'"@ + replace(value, '\'', "''"@) + "'"@
}

/// PowerShell takes the same trick as bash, with a different escape: doubling
/// the quote instead of closing and reopening it.
pub fn quote_powershell(value: &str) -> (r: String)
    ensures
        r@ == quoted_powershell(value@),
{
    cat3("'", replaced(value, '\'', "''").as_str(), "'")
}

/// The batch command that sets `key`.
pub open spec fn cmd_set(key: Text, value: Text) -> Text {
    "set \""@ + key + "="@ + replace(value, '%', "%%"@) + "\""@
}

/// cmd is the odd one out: there is no quoting to speak of, only the
/// `set "KEY=VALUE"` form, which ends at the *last* quote on the line. A `%`
/// would be read as a variable reference inside a batch file, so it is doubled.
pub fn set_cmd(key: &str, value: &str) -> (r: String)
    ensures
        r@ == cmd_set(key@, value@),
{
    cat5("set \"", key, "=", replaced(value, '%', "%%").as_str(), "\"")
}

// ---------------------------------------------------------------------------
// Shells
// ---------------------------------------------------------------------------

/// Which shell's syntax to emit.
///
/// bash and zsh take identical code, so they share `Posix`. Windows has no
/// `eval`, which is why `Cmd` does not print anything evaluable at all.
#[derive(Debug, Clone, Copy, PartialEq, Eq, Structural)]
pub enum Shell {
    Posix,
    PowerShell,
    Cmd,
}

/// A change to one variable: the value it gets, or `None` where it is unset.
pub struct Change {
    pub key: Text,
    pub value: Option<Text>,
}

/// The code that makes a shell set `key`.
pub open spec fn assign_line(shell: Shell, key: Text, value: Text) -> Text {
    match shell {
        Shell::Posix => "export "@ + key + "="@ + quoted(value),
        Shell::PowerShell => "$env:"@ + key + "="@ + quoted_powershell(value),
        Shell::Cmd => cmd_set(key, value),
    }
}

/// The code that makes a shell unset `key`.
pub open spec fn unset_line(shell: Shell, key: Text) -> Text {
    match shell {
        Shell::Posix => "unset "@ + key,
        Shell::PowerShell => "Remove-Item Env:"@ + key + " -ErrorAction SilentlyContinue"@,
        Shell::Cmd => cmd_set(key, ""@),
    }
}

/// The code that makes a shell carry out a change.
pub open spec fn change_line(shell: Shell, change: Change) -> Text {
    match change.value {
        Some(v) => assign_line(shell, change.key, v),
        None => unset_line(shell, change.key),
    }
}

/// The code that makes a shell carry out changes, one line for each.
pub open spec fn change_lines(shell: Shell, changes: Seq<Change>) -> Seq<Text> {
    changes.map_values(|c: Change| change_line(shell, c))
}

pub open spec fn shell_name(shell: Shell) -> Text {
    match shell {
        Shell::Posix => "bash"@,
        Shell::PowerShell => "powershell"@,
        Shell::Cmd => "cmd"@,
    }
}

/// The shell that a name stands for.
pub open spec fn named_shell(name: Text) -> Option<Shell> {
    if name == "bash"@ || name == "zsh"@ || name == "sh"@ || name == "posix"@ {
        Some(Shell::Posix)
    } else if name == "powershell"@ || name == "pwsh"@ || name == "ps"@ {
        Some(Shell::PowerShell)
    } else if name == "cmd"@ || name == "cmd.exe"@ || name == "bat"@ || name == "batch"@ {
        Some(Shell::Cmd)
    } else {
        None
    }
}

/// What was asked for: the flag, else `ENVC_SHELL` where it is not blank.
pub open spec fn wanted_shell(flag: Option<Text>, variable: Option<Text>) -> Option<Text> {
    match flag {
        Some(name) => Some(trim(name)),
        None => match variable {
            Some(name) => if trim(name).len() == 0 {
                None
            } else {
                Some(trim(name))
            },
            None => None,
        },
    }
}

/// A shell that envc does not know.
pub struct UnknownShell {
    pub name: String,
}

impl UnknownShell {
    /// The error in words.
    pub fn message(&self) -> (r: String)
        ensures
            r@ == unknown_shell_text(self.name@),
    {
        cat3(
            "unknown shell ",
            debug_of(self.name.as_str()).as_str(),
            "; expected bash, powershell or cmd",
        )
    }
}

pub open spec fn unknown_shell_text(name: Text) -> Text {
    "unknown shell "@ + debug_text(name) + "; expected bash, powershell or cmd"@
}

impl Shell {
    pub fn name(self) -> (r: &'static str)
        ensures
            r@ == shell_name(self),
    {
        match self {
            Shell::Posix => "bash",
            Shell::PowerShell => "powershell",
            Shell::Cmd => "cmd",
        }
    }

    /// The shell a name stands for.
    fn named(name: &str) -> (r: Option<Shell>)
        ensures
            r == named_shell(name@),
    {
        if same_text(name, "bash") || same_text(name, "zsh") || same_text(name, "sh") || same_text(
            name,
            "posix",
        ) {
            Some(Shell::Posix)
        } else if same_text(name, "powershell") || same_text(name, "pwsh") || same_text(name, "ps") {
            Some(Shell::PowerShell)
        } else if same_text(name, "cmd") || same_text(name, "cmd.exe") || same_text(name, "bat")
            || same_text(name, "batch") {
            Some(Shell::Cmd)
        } else {
            None
        }
    }

    /// `--shell` / `ENVC_SHELL`, else the one that was detected.
    pub fn resolve(flag: Option<&str>, variable: Option<&str>, detected: Shell) -> (r: Result<
        Shell,
        UnknownShell,
    >)
        ensures
            match wanted_shell(str_opt(flag), str_opt(variable)) {
                None => r == Ok::<Shell, UnknownShell>(detected),
                Some(name) => match named_shell(name) {
                    Some(shell) => r == Ok::<Shell, UnknownShell>(shell),
                    None => r matches Err(e) && e.name@ == name,
                },
            },
    {
        let wanted: String = match flag {
            Some(name) => text_of(trimmed(&chars_of(name))),
            None => match variable {
                Some(name) => {
                    let text: String = text_of(trimmed(&chars_of(name)));
                    if text.as_str().is_empty() {
                        return Ok(detected);
                    }
                    text
                },
                None => {
                    return Ok(detected);
                },
            },
        };
        match Shell::named(wanted.as_str()) {
            Some(shell) => Ok(shell),
            None => Err(UnknownShell { name: wanted }),
        }
    }

    /// PowerShell exports `PSModulePath` to every session it starts, including
    /// the ones it hands to a child process; cmd does not. That is the only
    /// signal available from inside the child.
    pub fn detect(windows: bool, ps_module_path: bool) -> (r: Shell)
        ensures
            r == (if !windows {
                Shell::Posix
            } else if ps_module_path {
                Shell::PowerShell
            } else {
                Shell::Cmd
            }),
    {
        if windows {
            if ps_module_path {
                Shell::PowerShell
            } else {
                Shell::Cmd
            }
        } else {
            Shell::Posix
        }
    }

    /// The code that sets `key` to `value`.
    pub fn assign(self, key: &str, value: &str) -> (r: String)
        ensures
            r@ == assign_line(self, key@, value@),
    {
        match self {
            Shell::Posix => cat4("export ", key, "=", quote(value).as_str()),
            Shell::PowerShell => cat4("$env:", key, "=", quote_powershell(value).as_str()),
            Shell::Cmd => set_cmd(key, value),
        }
    }

    /// The code that unsets `key`.
    pub fn unset(self, key: &str) -> (r: String)
        ensures
            r@ == unset_line(self, key@),
    {
        match self {
            Shell::Posix => cat2("unset ", key),
            Shell::PowerShell => cat3("Remove-Item Env:", key, " -ErrorAction SilentlyContinue"),
            Shell::Cmd => set_cmd(key, ""),
        }
    }
}

/// The view of an optional string slice.
pub open spec fn str_opt(o: Option<&str>) -> Option<Text> {
    match o {
        Some(s) => Some(s@),
        None => None,
    }
}

// ---------------------------------------------------------------------------
// How shells read the code
// ---------------------------------------------------------------------------

/// `env` after a change.
pub open spec fn apply_change(env: Vars, change: Change) -> Vars {
    match change.value {
        Some(v) => env.insert(change.key, v),
        None => env.remove(change.key),
    }
}

/// `env` after changes, in order.
pub open spec fn apply_changes(env: Vars, changes: Seq<Change>) -> Vars
    decreases changes.len(),
{
    if changes.len() == 0 {
        env
    } else {
        apply_change(apply_changes(env, changes.drop_last()), changes.last())
    }
}

/// A character in front of a word, if there is one.
pub open spec fn front(c: char, rest: Option<Text>) -> Option<Text> {
    match rest {
        Some(t) => Some(seq![c] + t),
        None => None,
    }
}

/// The value of a POSIX shell word made of plain characters, backslash escapes
/// and sections in single quotes; `inside` says whether such a section is open.
/// `None` stands for a word that the shell would expand or not accept.
pub open spec fn shell_word(s: Text, inside: bool) -> Option<Text>
    decreases s.len(),
{
    if s.len() == 0 {
        if inside {
            None
        } else {
            Some(Seq::empty())
        }
    } else if inside {
        if s[0] == '\'' {
            shell_word(s.drop_first(), false)
        } else {
            front(s[0], shell_word(s.drop_first(), true))
        }
    } else if s[0] == '\'' {
        shell_word(s.drop_first(), true)
    } else if s[0] == '\\' {
        if s.len() > 1 && s[1] != '\n' {
            front(s[1], shell_word(s.skip(2), false))
        } else {
            None
        }
    } else if safe_unquoted(s[0]) {
        front(s[0], shell_word(s.drop_first(), false))
    } else {
        None
    }
}

/// What a POSIX shell makes of its environment on `export KEY=word` or
/// `unset KEY`; `None` for any other command.
pub open spec fn posix_step(env: Vars, line: Text) -> Option<Vars> {
    if begins(line, "export "@) {
        let body = line.skip(7);
        let eq: int = find(body, '=', 0);
        if eq < body.len() && identifier(body.take(eq)) {
            match shell_word(body.skip(eq + 1), false) {
                Some(w) => Some(env.insert(body.take(eq), w)),
                None => None,
            }
        } else {
            None
        }
    } else if begins(line, "unset "@) && identifier(line.skip(6)) {
        Some(env.remove(line.skip(6)))
    } else {
        None
    }
}

/// What a POSIX shell makes of its environment on carrying out commands in order.
pub open spec fn posix_run(env: Vars, code: Seq<Text>) -> Option<Vars>
    decreases code.len(),
{
    if code.len() == 0 {
        Some(env)
    } else {
        match posix_run(env, code.drop_last()) {
            Some(e) => posix_step(e, code.last()),
            None => None,
        }
    }
}

/// The line feed that ends a command in a POSIX shell, looked for from position
/// `i` on, or the end of `s`. A line feed inside single quotes ends nothing;
/// `inside` says whether a quoted section is open.
pub open spec fn command_end(s: Text, i: int, inside: bool) -> int
    decreases s.len() - i,
{
    if i < 0 || i >= s.len() {
        s.len() as int
    } else if inside {
        command_end(s, i + 1, s[i] != '\'')
    } else if s[i] == '\n' {
        i
    } else if s[i] != '\\' {
        command_end(s, i + 1, s[i] == '\'')
    } else if i + 1 < s.len() {
        command_end(s, i + 2, false)
    } else {
        s.len() as int
    }
}

/// The commands of the text from position `i` on.
pub open spec fn commands_from(s: Text, i: int) -> Seq<Text>
    decreases s.len() - i,
    via commands_from_decreases
{
    if i < 0 || i >= s.len() {
        Seq::empty()
    } else {
        let end: int = command_end(s, i, false);
        if end >= s.len() {
            seq![s.skip(i)]
        } else {
            seq![s.subrange(i, end)] + commands_from(s, end + 1)
        }
    }
}

#[via_fn]
proof fn commands_from_decreases(s: Text, i: int) {
    lemma_command_end(s, i, false);
}

proof fn lemma_command_end(s: Text, i: int, inside: bool)
    ensures
        0 <= i <= s.len() ==> i <= command_end(s, i, inside) <= s.len(),
    decreases s.len() - i,
{
    if 0 <= i < s.len() {
        if inside {
            lemma_command_end(s, i + 1, s[i] != '\'');
        } else if s[i] != '\\' {
            lemma_command_end(s, i + 1, s[i] == '\'');
        } else if i + 1 < s.len() {
            lemma_command_end(s, i + 2, false);
        }
    }
}

/// What a POSIX shell makes of its environment on evaluating a text, command by
/// command.
pub open spec fn posix_eval(env: Vars, text: Text) -> Option<Vars> {
    posix_run(env, commands_from(text, 0))
}

/// A PowerShell literal in single quotes, after the opening quote, and what
/// stands behind it: it ends at a lone quote, and two quotes stand for one.
pub open spec fn literal_part(s: Text) -> Option<(Text, Text)>
    decreases s.len(),
{
    if s.len() == 0 {
        None
    } else if s[0] != '\'' {
        match literal_part(s.drop_first()) {
            Some((v, tail)) => Some((seq![s[0]] + v, tail)),
            None => None,
        }
    } else if s.len() > 1 && s[1] == '\'' {
        match literal_part(s.skip(2)) {
            Some((v, tail)) => Some((seq!['\''] + v, tail)),
            None => None,
        }
    } else {
        Some((Seq::empty(), s.drop_first()))
    }
}

/// The value of a PowerShell literal in single quotes, after the opening quote,
/// where nothing stands behind it.
pub open spec fn powershell_literal(s: Text) -> Option<Text> {
    match literal_part(s) {
        Some((v, tail)) => if tail.len() == 0 {
            Some(v)
        } else {
            None
        },
        None => None,
    }
}

/// What PowerShell makes of its environment on `$env:KEY='value'`, or on
/// removing `Env:KEY`; `None` for any other command. Nothing is said of an empty
/// value, which some versions take for a removal.
pub open spec fn powershell_step(env: Vars, line: Text) -> Option<Vars> {
    if begins(line, "$env:"@) {
        let body = line.skip(5);
        let eq: int = find(body, '=', 0);
        if eq + 1 < body.len() && identifier(body.take(eq)) && body[eq + 1] == '\'' {
            match powershell_literal(body.skip(eq + 2)) {
                Some(v) => if v.len() > 0 {
                    Some(env.insert(body.take(eq), v))
                } else {
                    None
                },
                None => None,
            }
        } else {
            None
        }
    } else if begins(line, "Remove-Item Env:"@) {
        let body = line.skip(16);
        let end: int = find(body, ' ', 0);
        if identifier(body.take(end)) && body.skip(end) == " -ErrorAction SilentlyContinue"@ {
            Some(env.remove(body.take(end)))
        } else {
            None
        }
    } else {
        None
    }
}

/// What PowerShell makes of its environment on evaluating lines in order.
pub open spec fn powershell_run(env: Vars, code: Seq<Text>) -> Option<Vars>
    decreases code.len(),
{
    if code.len() == 0 {
        Some(env)
    } else {
        match powershell_run(env, code.drop_last()) {
            Some(e) => powershell_step(e, code.last()),
            None => None,
        }
    }
}

/// What PowerShell makes of its environment on evaluating a text line by line.
pub open spec fn powershell_eval(env: Vars, text: Text) -> Option<Vars> {
    powershell_run(env, lines(text))
}

/// The text that a batch file takes `s` for: two percent signs stand for one,
/// and a lone one begins a variable reference.
pub open spec fn batch_text(s: Text) -> Option<Text>
    decreases s.len(),
{
    if s.len() == 0 {
        Some(Seq::empty())
    } else if s[0] == '%' {
        if s.len() > 1 && s[1] == '%' {
            front('%', batch_text(s.skip(2)))
        } else {
            None
        }
    } else {
        front(s[0], batch_text(s.drop_first()))
    }
}

/// What cmd makes of its environment on a line of a batch file: `@echo off` or
/// `set "KEY=value"`, which ends at the last quote on the line and unsets the
/// variable where the value is empty; `None` for any other line.
pub open spec fn cmd_step(env: Vars, line: Text) -> Option<Vars> {
    if line == "@echo off"@ {
        Some(env)
    } else if begins(line, "set \""@) && line.len() > 5 && line.last() == '"' {
        let body = line.subrange(5, line.len() - 1);
        let eq: int = find(body, '=', 0);
        if eq < body.len() && identifier(body.take(eq)) {
            match batch_text(body.skip(eq + 1)) {
                Some(v) => if v.len() > 0 {
                    Some(env.insert(body.take(eq), v))
                } else {
                    Some(env.remove(body.take(eq)))
                },
                None => None,
            }
        } else {
            None
        }
    } else {
        None
    }
}

/// What cmd makes of its environment on running lines in order.
pub open spec fn cmd_run(env: Vars, code: Seq<Text>) -> Option<Vars>
    decreases code.len(),
{
    if code.len() == 0 {
        Some(env)
    } else {
        match cmd_run(env, code.drop_last()) {
            Some(e) => cmd_step(e, code.last()),
            None => None,
        }
    }
}

/// What cmd makes of its environment on calling a batch file.
pub open spec fn cmd_call(env: Vars, body: Text) -> Option<Vars> {
    cmd_run(env, lines(body))
}

} // verus!
