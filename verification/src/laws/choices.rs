//! What is chosen, remembered and set up.

use vstd::prelude::*;

use crate::cli::{job, Command, Job};
use crate::laws::commands::{a_written_startup_is_read_back, profile_names_are_keepable};
use crate::laws::file_grammar::all_white;
use crate::laws::profiles::lemma_occurs;
use crate::laws::rc_file::{disable_undoes_enable, enabled_after_enable, plain};
use crate::laws::texts::trimming_takes_the_white_space_around;
use crate::loading::{
    adoption, disabling, enabling, initializing, is_on, memory, place_text, selection, EnableFault,
    EnableTarget, Memory, Place,
};
use crate::paths::{last_name, login_shell, part_start, ShellKind};
use crate::profile::name_problem;
use crate::rc::{has_block, hooked, without_block, BEGIN_MARKER};
use crate::shell::{named_shell, shell_name, wanted_shell, Shell};
use crate::stack::Record;
use crate::startup::{first_entry, startup_text};
use crate::text::{begins, lowercase, occurs, raw_lines, trim, white, Text};

verus! {

// ---------------------------------------------------------------------------
// The startup file
// ---------------------------------------------------------------------------

/// A line of the startup file that names nothing: white space, or a comment behind
/// white space.
pub open spec fn names_nothing(line: Text) -> bool {
    all_white(line) || exists|indent: Text, comment: Text|
        all_white(indent) && line == #[trigger] (indent + seq!['#'] + comment)
}

/// The startup file names what its first line that is neither blank nor a comment
/// holds, less the white space around it, whatever follows; and nothing where
/// there is no such line.
pub proof fn the_first_name_counts(
    notes: Seq<Text>,
    before: Text,
    name: Text,
    after: Text,
    rest: Seq<Text>,
)
    requires
        forall|i: int| 0 <= i < notes.len() ==> names_nothing(#[trigger] notes[i]),
        all_white(before),
        all_white(after),
        name.len() > 0 && !white(name[0]) && !white(name.last()) && name[0] != '#',
    ensures
        first_entry(notes + seq![before + name + after] + rest, 0) == Some(name),
        first_entry(notes, 0) is None,
{
    let ls = notes + seq![before + name + after] + rest;
    trimming_takes_the_white_space_around(before, name, after);
    assert(ls[notes.len() as int] == before + name + after);
    assert forall|i: int| 0 <= i < notes.len() implies trim(#[trigger] notes[i]).len() == 0 || trim(
        notes[i],
    )[0] == '#' by {
        lemma_names_nothing(notes[i]);
    }
    assert(first_entry(ls, notes.len() as int) == Some(name));
    lemma_notes(notes, ls, 0);
}

proof fn lemma_names_nothing(line: Text)
    requires
        names_nothing(line),
    ensures
        trim(line).len() == 0 || trim(line)[0] == '#',
{
    if all_white(line) {
        trimming_takes_the_white_space_around(line, Seq::empty(), Seq::empty());
        assert(line + Seq::<char>::empty() + Seq::<char>::empty() =~= line);
    } else {
        let (indent, comment) = choose|indent: Text, comment: Text|
            all_white(indent) && line == #[trigger] (indent + seq!['#'] + comment);
        crate::text::lemma_last_solid(line, line.len() as int);
        let end: int = crate::text::last_solid(line, line.len() as int);
        let n: int = indent.len() as int;
        assert(line[n] == '#');
        if end <= n {
            assert(white(line[n]));
        }
        let part = line.take(end);
        let tail = part.skip(n);
        assert(part =~= indent + tail);
        assert(tail[0] == '#');
        crate::laws::file_grammar::lemma_led(indent, tail);
    }
}

proof fn lemma_notes(notes: Seq<Text>, ls: Seq<Text>, i: int)
    requires
        0 <= i <= notes.len() <= ls.len(),
        forall|j: int| 0 <= j < notes.len() ==> ls[j] == #[trigger] notes[j],
        forall|j: int|
            0 <= j < notes.len() ==> trim(#[trigger] notes[j]).len() == 0 || trim(notes[j])[0]
                == '#',
    ensures
        first_entry(ls, i) == first_entry(ls, notes.len() as int),
        first_entry(notes, i) is None,
    decreases notes.len() - i,
{
    if i < notes.len() {
        assert(ls[i] == notes[i]);
        lemma_notes(notes, ls, i + 1);
    }
}

// ---------------------------------------------------------------------------
// Choosing
// ---------------------------------------------------------------------------

/// A profile that is named is selected whatever is remembered, and one that is
/// remembered where none is named; but only one that is there, and only under a
/// name that a profile can have.
pub proof fn what_is_named_is_selected(name: Text, remembered: Option<Text>, there: bool)
    ensures
        selection(Some(name), remembered, there) == Ok::<Text, EnableFault>(name) <==> there
            && name_problem(name) is None,
        selection(Some(name), remembered, there) == selection(Some(name), None, there),
        name_problem(name) matches Some(problem) ==> selection(Some(name), remembered, there)
            == Err::<Text, EnableFault>(EnableFault::Name { name, problem }),
        name_problem(name) is None && !there ==> selection(Some(name), remembered, there) == Err::<
            Text,
            EnableFault,
        >(EnableFault::Missing { profile: name }),
        selection(None, Some(name), true) == Ok::<Text, EnableFault>(name),
        selection(None, Some(name), false) == Err::<Text, EnableFault>(
            EnableFault::Missing { profile: name },
        ),
        selection(None, None, there) == Err::<Text, EnableFault>(EnableFault::NoneChosen),
{
}

/// A profile that was chosen is kept without a word; one that is only on the
/// restore stack is adopted, written down and announced, but only where it is
/// there. What is written down is what is loaded from then on.
pub proof fn an_adoption_happens_once(profile: Text, there: bool, stack: Option<Result<Text, Text>>)
    ensures
        adoption(Memory::Chosen(profile), there).profile == Some(profile),
        adoption(Memory::Chosen(profile), there).save is None,
        adoption(Memory::Chosen(profile), there).note is None,
        adoption(Memory::OnStack(profile), there).profile is Some <==> there,
        adoption(Memory::OnStack(profile), there).profile matches Some(p) ==> p == profile,
        adoption(Memory::OnStack(profile), there).save == adoption(
            Memory::OnStack(profile),
            there,
        ).profile,
        adoption(Memory::OnStack(profile), there).note is Some <==> there,
        adoption(Memory::OnStack(profile), there).note matches Some(note) ==> occurs(note, profile),
        adoption(Memory::Nothing, there).profile is None,
        adoption(Memory::Nothing, there).save is None,
        name_problem(profile) is None && there ==> memory(
            Some(Ok(startup_text(adoption(Memory::OnStack(profile), there).save->0))),
            stack,
        ) == Ok::<Memory, crate::loading::RememberFault>(Memory::Chosen(profile)),
{
    lemma_occurs(
        "envc: '"@,
        profile,
        "' is now the startup profile (it was selected before the upgrade; `envc enable <name>` changes it)"@,
    );
    if name_problem(profile) is None {
        profile_names_are_keepable(profile);
        a_written_startup_is_read_back(profile);
    }
}

// ---------------------------------------------------------------------------
// Setting up
// ---------------------------------------------------------------------------

/// The first-time setup puts the hook into the startup file where it is not there
/// yet, behind everything that is, and then startup loading is on; done again it
/// changes nothing. It says which it was, where, and for which profile.
pub proof fn setting_up_again_changes_nothing(
    quiet: bool,
    shell: ShellKind,
    source: Text,
    rc: Text,
    content: Text,
    startup: Option<Text>,
)
    ensures
        ({
            let first = initializing(quiet, shell, source, rc, content, startup);
            &&& first.rc is Some <==> !occurs(content, BEGIN_MARKER@)
            &&& first.rc matches Some(updated) ==> {
                let again = initializing(quiet, shell, source, rc, updated, startup);
                &&& is_on(Place::Rc { path: rc, content: updated })
                &&& has_block(updated)
                &&& again.rc is None
                &&& again.hook != first.hook
                &&& (forall|i: int|
                    0 <= i < raw_lines(content).len() ==> plain(#[trigger] raw_lines(content)[i]))
                    ==> updated == hooked(content) && without_block(updated) == content
            }
            &&& startup matches Some(p) ==> first.profile == "profile: "@ + p
            &&& first.next.len() == (if first.rc is Some {
                2int
            } else {
                0
            }) + (if quiet {
                0int
            } else {
                2
            })
        }),
{
    enabled_after_enable(content);
    reveal_strlit("hook:    already installed");
    reveal_strlit("hook:    installed");
    assert("hook:    already installed"@.len() != "hook:    installed"@.len());
    if forall|i: int| 0 <= i < raw_lines(content).len() ==> plain(#[trigger] raw_lines(content)[i]) {
        disable_undoes_enable(content);
    }
}

/// Startup loading is on once it has been enabled, and the choice that is written
/// down is the profile that was asked for; disabling then takes back exactly what
/// enabling did.
pub proof fn disabling_takes_back_what_enabling_did(
    profile: Text,
    path: Text,
    content: Text,
    quiet: bool,
    startup: Option<Text>,
)
    requires
        forall|i: int| 0 <= i < raw_lines(content).len() ==> plain(#[trigger] raw_lines(content)[i]),
    ensures
        enabling(profile, EnableTarget::Rc { path, content }) matches Ok(on) && {
            &&& on.startup == profile
            &&& on.script is None && on.user_stack is None
            &&& on.rc matches Some(updated) && {
                let off = disabling(quiet, Place::Rc { path, content: updated }, startup);
                &&& is_on(Place::Rc { path, content: updated })
                &&& off.rc == Some(content)
                &&& off.script is None && !off.clear_user_stack
                &&& disabling(quiet, Place::Rc { path, content }, startup).rc is None
                &&& off.notes.len() == (if startup is Some {
                    1int
                } else {
                    0
                }) + (if quiet {
                    0int
                } else {
                    1
                })
            }
        },
{
    enabled_after_enable(content);
    disable_undoes_enable(content);
}

/// Startup loading is on exactly where the begin marker stands in the startup file,
/// or where user-level variables are recorded; and reports say where that is.
pub proof fn loading_is_on_where_it_shows(path: Text, content: Text, stack: Option<Record>)
    ensures
        is_on(Place::Rc { path, content }) <==> exists|i: int|
            0 <= i <= content.len() && begins(#[trigger] content.skip(i), BEGIN_MARKER@),
        is_on(Place::UserEnvironment { stack }) <==> stack is Some,
        place_text(Place::Rc { path, content }) == path,
        place_text(Place::UserEnvironment { stack }) == "user environment"@,
{
}

/// On Windows, disabling with no record of anything does nothing, and with one it
/// clears it.
pub proof fn disabling_needs_a_record(quiet: bool, startup: Option<Text>, place: Place)
    requires
        place is UserEnvironment,
    ensures
        ({
            let off = disabling(quiet, place, startup);
            &&& off.rc is None
            &&& off.clear_user_stack <==> is_on(place)
            &&& !is_on(place) ==> off.script is None && off.notes.len() == 0
            &&& !is_on(place) && quiet ==> off.report.len() == 0
        }),
{
}

// ---------------------------------------------------------------------------
// Shells
// ---------------------------------------------------------------------------

/// A shell goes by the name it gives itself, and its name is that of no other.
pub proof fn a_shell_goes_by_its_name(shell: Shell)
    ensures
        named_shell(shell_name(shell)) == Some(shell),
{
    reveal_strlit("bash");
    reveal_strlit("zsh");
    reveal_strlit("sh");
    reveal_strlit("posix");
    reveal_strlit("powershell");
    reveal_strlit("pwsh");
    reveal_strlit("ps");
    reveal_strlit("cmd");
    reveal_strlit("cmd.exe");
    reveal_strlit("bat");
    reveal_strlit("batch");
    assert("powershell"@[0] == 'p' && "bash"@[0] == 'b' && "zsh"@[0] == 'z' && "sh"@[0] == 's');
    assert("powershell"@[2] == 'w' && "posix"@[2] == 's');
    assert("cmd"@[0] == 'c');
    assert("pwsh"@[0] == 'p' && "ps"@[0] == 'p');
}

/// Each shell goes by a few names, and by no others.
pub proof fn shells_go_by_these_names(name: Text)
    ensures
        named_shell(name) is Some <==> {
            ||| name == "bash"@ || name == "zsh"@ || name == "sh"@ || name == "posix"@
            ||| name == "powershell"@ || name == "pwsh"@ || name == "ps"@
            ||| name == "cmd"@ || name == "cmd.exe"@ || name == "bat"@ || name == "batch"@
        },
        name == "bash"@ || name == "zsh"@ || name == "sh"@ || name == "posix"@ ==> named_shell(name)
            == Some(Shell::Posix),
        named_shell(name) == Some(Shell::PowerShell) ==> name == "powershell"@ || name == "pwsh"@
            || name == "ps"@,
        named_shell(name) == Some(Shell::Cmd) ==> name == "cmd"@ || name == "cmd.exe"@ || name
            == "bat"@ || name == "batch"@,
{
}

/// What the flag says counts, whatever the variable says; the variable counts
/// where there is no flag and it is not blank; and white space around a name does
/// not matter.
pub proof fn the_flag_comes_before_the_variable(
    before: Text,
    name: Text,
    after: Text,
    variable: Option<Text>,
)
    requires
        all_white(before),
        all_white(after),
        name.len() > 0 && !white(name[0]) && !white(name.last()),
    ensures
        wanted_shell(Some(before + name + after), variable) == Some(name),
        wanted_shell(None, Some(before + name + after)) == Some(name),
        wanted_shell(None, Some(before)) is None,
        wanted_shell(None, None) is None,
{
    trimming_takes_the_white_space_around(before, name, after);
    trimming_takes_the_white_space_around(before, Seq::empty(), Seq::empty());
    assert(before + Seq::<char>::empty() + Seq::<char>::empty() =~= before);
}

/// The login shell is told by the last name in its path alone: zsh where that
/// speaks of zsh, else bash where it speaks of bash, else the system's own, which
/// is zsh on macOS and bash elsewhere.
pub proof fn the_login_shell_is_told_by_its_name(dir: Text, name: Text, macos: bool)
    requires
        name.len() > 0,
        !name.contains('/'),
        name != "."@ && name != ".."@,
    ensures
        login_shell(dir + seq!['/'] + name, macos) == login_shell(name, macos),
        login_shell(dir + seq!['/'] + name + seq!['/'], macos) == login_shell(name, macos),
        occurs(lowercase(name), "zsh"@) ==> login_shell(name, macos) == ShellKind::Zsh,
        !occurs(lowercase(name), "zsh"@) && occurs(lowercase(name), "bash"@) ==> login_shell(
            name,
            macos,
        ) == ShellKind::Bash,
        !occurs(lowercase(name), "zsh"@) && !occurs(lowercase(name), "bash"@) ==> login_shell(
            name,
            macos,
        ) == if macos {
            ShellKind::Zsh
        } else {
            ShellKind::Bash
        },
{
    let path = dir + seq!['/'] + name;
    let long = path + seq!['/'];
    let start: int = dir.len() as int + 1;
    assert forall|j: int| 0 <= j < name.len() implies name[j] != '/' by {
        assert(name.contains(name[j]));
    }
    lemma_part(name, 0, name.len() as int);
    assert(name.subrange(0, name.len() as int) =~= name);
    lemma_part(path, start, path.len() as int);
    assert(path.subrange(start, path.len() as int) =~= name);
    assert(last_name(name, name.len() as int) == name);
    assert(last_name(path, path.len() as int) == name);
    let n: int = long.len() as int;
    assert(part_start(long, n) == n);
    assert(long.subrange(n, n).len() == 0);
    assert(last_name(long, n) == last_name(long, n - 1));
    lemma_part(long, start, n - 1);
    assert(long.subrange(start, n - 1) =~= name);
}

proof fn lemma_part(path: Text, start: int, n: int)
    requires
        0 <= start <= n <= path.len(),
        start == 0 || path[start - 1] == '/',
        forall|j: int| start <= j < n ==> path[j] != '/',
    ensures
        part_start(path, n) == start,
    decreases n - start,
{
    if start < n {
        lemma_part(path, start, n - 1);
    }
}

// ---------------------------------------------------------------------------
// Commands
// ---------------------------------------------------------------------------

/// The shell that a job is for, if it is for one.
pub open spec fn job_shell(j: Job) -> Option<Shell> {
    match j {
        Job::Activate { name: _, quiet: _, shell } => Some(shell),
        Job::Deactivate { quiet: _, shell } => Some(shell),
        Job::Autoload { shell } => Some(shell),
        _ => None,
    }
}

/// Whether a job is done without messages, where it has any.
pub open spec fn job_quiet(j: Job) -> Option<bool> {
    match j {
        Job::Delete { name: _, force: _, quiet } => Some(quiet),
        Job::Activate { name: _, quiet, shell: _ } => Some(quiet),
        Job::Deactivate { quiet, shell: _ } => Some(quiet),
        Job::Init { quiet } => Some(quiet),
        Job::Disable { quiet } => Some(quiet),
        _ => None,
    }
}

/// A job is what was asked for, for the shell and as quiet as it was asked for,
/// with the names and by the force that were given.
pub proof fn a_job_is_what_was_asked_for(command: Command, quiet: bool, shell: Shell)
    ensures
        job_shell(job(command, quiet, shell)) is Some <==> command is Activate
            || command is Deactivate || command is Autoload,
        job_shell(job(command, quiet, shell)) matches Some(s) ==> s == shell,
        job_quiet(job(command, quiet, shell)) is Some <==> command is Delete || command is Activate
            || command is Deactivate || command is Init || command is Disable,
        job_quiet(job(command, quiet, shell)) matches Some(q) ==> q == quiet,
        match (command, job(command, quiet, shell)) {
            (Command::Create { name, force }, Job::Create { name: n, force: f }) => n == name && f
                == force,
            (Command::Delete { name, force }, Job::Delete { name: n, force: f, quiet: _ }) => n
                == name && f == force,
            (Command::Activate { name }, Job::Activate { name: n, quiet: _, shell: _ }) => n == name,
            (Command::Enable(name), Job::Enable(n)) => n == name,
            (Command::List, Job::List) => true,
            (Command::Deactivate, Job::Deactivate { quiet: _, shell: _ }) => true,
            (Command::Init, Job::Init { quiet: _ }) => true,
            (Command::Disable, Job::Disable { quiet: _ }) => true,
            (Command::Stack, Job::Stack) => true,
            (Command::Status, Job::Status) => true,
            (Command::Autoload, Job::Autoload { shell: _ }) => true,
            _ => false,
        },
{
}

} // verus!
