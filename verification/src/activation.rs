//! What this shell has loaded: `activate`, `deactivate` and `autoload`.
//!
//! A process can never modify its parent shell's environment, so these commands
//! make shell code instead of exporting anything themselves:
//!
//! ```text
//! eval "$(envc activate work)"
//! ```

use vstd::prelude::*;

use crate::dotenv::{Assignment, Setting};
use crate::env::{Env, Vars};
use crate::files::{
    env_file, env_file_fault_text, load_fault_text, load_stack, loaded_stack, parse_env_file,
    read_opt_view, EnvFileError, EnvFileFault, LoadError, LoadFault,
};
use crate::profile::{name_error_text, name_problem, validate_profile_name, NameError, NameProblem};
use crate::shell::{apply_changes, change_line, change_lines, str_opt, Change, Shell};
use crate::stack::{overrides, put_backs, setting_changes, undo_changes, Record, Stack};
use crate::text::{
    cat2, cat3, cat4, cat5, crlf_lines, decimal, decimal_of, joined_lines, opt_view, push_item,
    same_text, unlines, views, Text,
};

verus! {

/// The variable that records which profile this shell has applied.
pub const ENVC_ACTIVE_VAR: &'static str = "ENVC_ACTIVE";

// ---------------------------------------------------------------------------
// Handing code and messages over
// ---------------------------------------------------------------------------

/// How shell code is handed to the caller.
pub enum Emitted {
    /// On standard output, for the shell to evaluate.
    Printed(String),
    /// In a batch file, for cmd to call.
    Batch(String),
}

/// What an `Emitted` holds.
pub enum Emission {
    Printed(Text),
    Batch(Text),
}

impl View for Emitted {
    type V = Emission;

    open spec fn view(&self) -> Emission {
        match self {
            Emitted::Printed(s) => Emission::Printed(s@),
            Emitted::Batch(s) => Emission::Batch(s@),
        }
    }
}

/// Shell code as it is handed to the caller.
pub open spec fn emission(shell: Shell, code: Seq<Text>) -> Emission {
    match shell {
        Shell::Cmd => Emission::Batch("@echo off\r\n"@ + crlf_lines(code)),
        _ => Emission::Printed(unlines(code)),
    }
}

/// Hand the generated shell code to the caller.
///
/// POSIX shells and PowerShell evaluate what lands on stdout. cmd cannot -- there
/// is no `eval` -- so the code goes into a batch file and the caller is told to
/// `call` it. cmd wants CRLF, and a batch file starts with echo off or every
/// line shows.
pub fn emit(shell: Shell, code: &Vec<String>) -> (r: Emitted)
    ensures
        r@ == emission(shell, views(code@)),
{
    if shell != Shell::Cmd {
        return Emitted::Printed(joined_lines(code));
    }
    let mut body: String = "@echo off\r\n".to_owned();
    let ghost head = "@echo off\r\n"@;
    let ghost all = views(code@);
    let mut i: usize = 0;
    assert(all.take(0) =~= Seq::<Text>::empty());
    assert(head + Seq::<char>::empty() =~= head);
    while i < code.len()
        invariant
            i <= code@.len(),
            all == views(code@),
            body@ == head + crlf_lines(all.take(i as int)),
        decreases code@.len() - i,
    {
        let ghost part = all.take(i + 1);
        assert(part.drop_last() =~= all.take(i as int));
        assert(part.last() == code@[i as int]@);
        body.append(code[i].as_str());
        body.append("\r\n");
        assert(body@ =~= head + crlf_lines(part));
        i += 1;
    }
    assert(all.take(i as int) =~= all);
    Emitted::Batch(body)
}

/// What is said once a batch file has been written; `shown` is its path as
/// messages show it, `path` the path itself.
pub fn batch_notes(shown: &str, path: &str) -> (r: Vec<String>)
    ensures
        views(r@) == seq![
            "envc: wrote "@ + shown@,
            "envc: in cmd, run: call \""@ + path@ + "\""@,
        ],
{
    let mut notes: Vec<String> = Vec::new();
    push_item(&mut notes, cat2("envc: wrote ", shown));
    push_item(&mut notes, cat3("envc: in cmd, run: call \"", path, "\""));
    assert(views(notes@) =~= seq![
        "envc: wrote "@ + shown@,
        "envc: in cmd, run: call \""@ + path@ + "\""@,
    ]);
    notes
}

/// A message, unless messages are not wanted.
pub open spec fn notice(quiet: bool, msg: Text) -> Seq<Text> {
    if quiet {
        Seq::empty()
    } else {
        seq!["envc: "@ + msg]
    }
}

/// A message, unless messages are not wanted.
pub fn notify(quiet: bool, msg: &str) -> (r: Vec<String>)
    ensures
        views(r@) == notice(quiet, msg@),
{
    let mut notes: Vec<String> = Vec::new();
    if !quiet {
        push_item(&mut notes, cat2("envc: ", msg));
    }
    assert(views(notes@) =~= notice(quiet, msg@));
    notes
}

/// Is the shell code being captured (and will therefore be eval'd), or is it
/// going straight to the terminal where it does nothing useful? `wrapped` is
/// what `ENVC_WRAPPED` holds.
pub fn hint_wanted(terminal: bool, wrapped: Option<&str>) -> (r: bool)
    ensures
        r == (terminal && str_opt(wrapped) != Some("1"@)),
{
    if !terminal {
        return false;
    }
    match wrapped {
        Some(w) => !same_text(w, "1"),
        None => true,
    }
}

/// What is said when shell code was made but nothing is going to eval it. cmd
/// got a batch file instead, and was told which one.
pub open spec fn activation_hint(quiet: bool, command: Text, shell: Shell, wanted: bool) -> Seq<
    Text,
> {
    if quiet || shell == Shell::Cmd || !wanted {
        Seq::empty()
    } else {
        seq![
            ""@,
            "envc: this shell is unchanged until you evaluate that:"@,
            "envc:     eval \"$("@ + command + ")\""@,
            "envc: `envc enable` installs a wrapper so that is not needed."@,
        ]
    }
}

fn add_hint(notes: &mut Vec<String>, quiet: bool, command: &str, shell: Shell, wanted: bool)
    ensures
        views(final(notes)@) == views(old(notes)@) + activation_hint(
            quiet,
            command@,
            shell,
            wanted,
        ),
{
    let ghost before = views(notes@);
    if !(quiet || shell == Shell::Cmd || !wanted) {
        push_item(notes, "".to_owned());
        push_item(notes, "envc: this shell is unchanged until you evaluate that:".to_owned());
        push_item(notes, cat3("envc:     eval \"$(", command, ")\""));
        push_item(
            notes,
            "envc: `envc enable` installs a wrapper so that is not needed.".to_owned(),
        );
    }
    assert(views(notes@) =~= before + activation_hint(quiet, command@, shell, wanted));
}

/// Adds the code that sets what the assignments say.
fn add_assignments(code: &mut Vec<String>, assignments: &Vec<Assignment>, shell: Shell)
    ensures
        views(final(code)@) == views(old(code)@) + change_lines(
            shell,
            setting_changes(views(assignments@)),
        ),
{
    let ghost before = views(code@);
    let ghost all = change_lines(shell, setting_changes(views(assignments@)));
    let mut i: usize = 0;
    assert(before + all.take(0) =~= before);
    while i < assignments.len()
        invariant
            i <= assignments@.len(),
            all == change_lines(shell, setting_changes(views(assignments@))),
            views(code@) == before + all.take(i as int),
        decreases assignments@.len() - i,
    {
        let a: &Assignment = &assignments[i];
        assert(views(assignments@)[i as int] == a@);
        let line: String = shell.assign(a.key.as_str(), a.value.as_str());
        assert(line@ == all[i as int]);
        push_item(code, line);
        i += 1;
        assert(views(code@) =~= before + all.take(i as int));
    }
    assert(all.take(i as int) =~= all);
}

// ---------------------------------------------------------------------------
// Activate
// ---------------------------------------------------------------------------

/// Why a profile was not activated.
pub enum ActivateError {
    /// The name is none that a profile can have.
    Name(NameError),
    /// There is no such profile.
    Missing,
    /// The profile could not be read.
    Profile(EnvFileError),
    /// The restore stack could not be loaded.
    Stack(LoadError),
}

/// What an `ActivateError` says.
pub enum ActivateFault {
    Name { name: Text, problem: NameProblem },
    Missing,
    Profile(EnvFileFault),
    Stack(LoadFault),
}

impl View for ActivateError {
    type V = ActivateFault;

    open spec fn view(&self) -> ActivateFault {
        match self {
            ActivateError::Name(e) => ActivateFault::Name { name: e.name@, problem: e.problem },
            ActivateError::Missing => ActivateFault::Missing,
            ActivateError::Profile(e) => ActivateFault::Profile(e@),
            ActivateError::Stack(e) => ActivateFault::Stack(e@),
        }
    }
}

pub open spec fn no_such_profile(name: Text, file: Text) -> Text {
    "no such profile: '"@ + name + "' (expected "@ + file + ")"@
}

pub fn no_such_profile_message(name: &str, file: &str) -> (r: String)
    ensures
        r@ == no_such_profile(name@, file@),
{
    cat5("no such profile: '", name, "' (expected ", file, ")")
}

/// The fault in words; `file` is the profile's file and `stack` the restore
/// stack's, as messages show them.
pub open spec fn activate_fault_text(
    fault: ActivateFault,
    name: Text,
    file: Text,
    stack: Text,
) -> Text {
    match fault {
        ActivateFault::Name { name, problem } => name_error_text(name, problem),
        ActivateFault::Missing => no_such_profile(name, file),
        ActivateFault::Profile(e) => env_file_fault_text(file, e),
        ActivateFault::Stack(e) => load_fault_text(stack, e),
    }
}

impl ActivateError {
    /// The error in words; `file` is the profile's file and `stack` the restore
    /// stack's, as messages show them.
    pub fn message(&self, name: &str, file: &str, stack: &str) -> (r: String)
        ensures
            r@ == activate_fault_text(self@, name@, file@, stack@),
    {
        match self {
            ActivateError::Name(e) => e.message(),
            ActivateError::Missing => no_such_profile_message(name, file),
            ActivateError::Profile(e) => e.message(file),
            ActivateError::Stack(e) => e.message(stack),
        }
    }
}

/// The environment that was there before any profile was applied.
pub open spec fn base_of(env: Vars, previous: Option<Record>) -> Vars {
    match previous {
        Some(old) => apply_changes(env, put_backs(old.entries)),
        None => env,
    }
}

/// The changes that activating a profile makes: the previous profile is peeled
/// off first, then every setting is made and the profile's name recorded.
pub open spec fn activation_changes(
    name: Text,
    settings: Seq<Setting>,
    previous: Option<Record>,
) -> Seq<Change> {
    let peeled = match previous {
        Some(old) => undo_changes(old.entries),
        None => Seq::empty(),
    };
    (peeled + setting_changes(settings)).push(
        Change { key: ENVC_ACTIVE_VAR@, value: Some(name) },
    )
}

/// What is remembered of an activation: the values from before *any* envc
/// profile was applied.
pub open spec fn activation_record(
    name: Text,
    settings: Seq<Setting>,
    env: Vars,
    previous: Option<Record>,
) -> Record {
    Record { profile: name, entries: overrides(base_of(env, previous), settings) }
}

/// What activating came to, in words.
pub open spec fn activation_text(name: Text, count: nat, previous: Option<Record>) -> Text {
    (match previous {
        None => "activated '"@ + name + "'"@,
        Some(old) => if old.profile == name {
            "reloaded '"@ + name + "'"@
        } else {
            "switched '"@ + old.profile + "' -> '"@ + name + "'"@
        },
    }) + " ("@ + decimal(count) + " vars)"@
}

/// What activating a profile asks for.
pub struct Activation {
    /// The code for the shell.
    pub emitted: Emitted,
    /// What to remember.
    pub stack: Stack,
    /// What to say.
    pub messages: Vec<String>,
}

/// What an `Activation` holds.
pub struct ActivationPlan {
    pub emitted: Emission,
    pub stack: Record,
    pub messages: Seq<Text>,
}

impl View for Activation {
    type V = ActivationPlan;

    open spec fn view(&self) -> ActivationPlan {
        ActivationPlan {
            emitted: self.emitted@,
            stack: self.stack@,
            messages: views(self.messages@),
        }
    }
}

/// What activating the profile `name` comes to. `file` is what was read of the
/// profile and `stack` what was read of the restore stack.
pub open spec fn activation(
    name: Text,
    quiet: bool,
    shell: Shell,
    file: Option<Result<Text, Text>>,
    env: Vars,
    stack: Option<Result<Text, Text>>,
    hint: bool,
) -> Result<ActivationPlan, ActivateFault> {
    match name_problem(name) {
        Some(problem) => Err(ActivateFault::Name { name, problem }),
        None => match file {
            None => Err(ActivateFault::Missing),
            Some(read) => match env_file(read, env) {
                Err(e) => Err(ActivateFault::Profile(e)),
                Ok(settings) => match loaded_stack(stack) {
                    Err(e) => Err(ActivateFault::Stack(e)),
                    Ok(previous) => Ok(
                        ActivationPlan {
                            emitted: emission(
                                shell,
                                change_lines(shell, activation_changes(name, settings, previous)),
                            ),
                            stack: activation_record(name, settings, env, previous),
                            messages: notice(
                                quiet,
                                activation_text(name, settings.len(), previous),
                            ) + activation_hint(quiet, "envc activate "@ + name, shell, hint),
                        },
                    ),
                },
            },
        },
    }
}

/// The views of a plan or of the reason why there is none.
pub open spec fn activation_view(r: Result<Activation, ActivateError>) -> Result<
    ActivationPlan,
    ActivateFault,
> {
    match r {
        Ok(a) => Ok(a@),
        Err(e) => Err(e@),
    }
}

/// Override this shell's environment with a profile.
///
/// `file` is what was read of the profile's file, `stack` what was read of the
/// restore stack, and `hint` says whether nothing is going to evaluate the code.
pub fn cmd_activate(
    name: &str,
    quiet: bool,
    shell: Shell,
    file: &Option<Result<String, String>>,
    env: &Env,
    stack: &Option<Result<String, String>>,
    hint: bool,
) -> (r: Result<Activation, ActivateError>)
    ensures
        activation_view(r) == activation(
            name@,
            quiet,
            shell,
            read_opt_view(*file),
            env@,
            read_opt_view(*stack),
            hint,
        ),
{
    if let Err(e) = validate_profile_name(name) {
        return Err(ActivateError::Name(e));
    }
    let read: &Result<String, String> = match file {
        Some(read) => read,
        None => {
            return Err(ActivateError::Missing);
        },
    };
    let assignments: Vec<Assignment> = match parse_env_file(read, env) {
        Ok(a) => a,
        Err(e) => {
            return Err(ActivateError::Profile(e));
        },
    };
    let previous: Option<Stack> = match load_stack(stack) {
        Ok(s) => s,
        Err(e) => {
            return Err(ActivateError::Stack(e));
        },
    };
    Ok(activate(name, quiet, shell, &assignments, env, &previous, hint))
}

/// Activates a profile that has been read.
pub fn activate(
    name: &str,
    quiet: bool,
    shell: Shell,
    assignments: &Vec<Assignment>,
    env: &Env,
    previous: &Option<Stack>,
    hint: bool,
) -> (r: Activation)
    ensures
        r@ == (ActivationPlan {
            emitted: emission(
                shell,
                change_lines(
                    shell,
                    activation_changes(name@, views(assignments@), opt_view(*previous)),
                ),
            ),
            stack: activation_record(name@, views(assignments@), env@, opt_view(*previous)),
            messages: notice(
                quiet,
                activation_text(name@, assignments@.len(), opt_view(*previous)),
            ) + activation_hint(quiet, "envc activate "@ + name@, shell, hint),
        }),
{
    let ghost settings = views(assignments@);
    let ghost changes = activation_changes(name@, settings, opt_view(*previous));
    let mut code: Vec<String> = match previous {
        Some(old) => old.restore_lines(shell),
        None => Vec::new(),
    };
    add_assignments(&mut code, assignments, shell);
    push_item(&mut code, shell.assign(ENVC_ACTIVE_VAR, name));
    assert(views(code@) =~= change_lines(shell, changes));
    let base: Env = match previous {
        Some(old) => old.base_env(env),
        None => env.copy(),
    };
    let stack: Stack = Stack::new(name, Stack::entries_from(&base, assignments));
    let what: String = match previous {
        None => cat3("activated '", name, "'"),
        Some(old) => if same_text(old.profile.as_str(), name) {
            cat3("reloaded '", name, "'")
        } else {
            cat5("switched '", old.profile.as_str(), "' -> '", name, "'")
        },
    };
    let text: String = cat4(
        what.as_str(),
        " (",
        decimal_of(assignments.len()).as_str(),
        " vars)",
    );
    let mut messages: Vec<String> = notify(quiet, text.as_str());
    add_hint(&mut messages, quiet, cat2("envc activate ", name).as_str(), shell, hint);
    Activation { emitted: emit(shell, &code), stack, messages }
}

// ---------------------------------------------------------------------------
// Deactivate
// ---------------------------------------------------------------------------

/// The changes that undo a profile: every variable is put back, the newest
/// override first, and the record of the profile's name dropped.
pub open spec fn deactivation_changes(stack: Record) -> Seq<Change> {
    undo_changes(stack.entries).push(Change { key: ENVC_ACTIVE_VAR@, value: None })
}

/// What undoing a profile asks for.
pub struct Deactivation {
    /// The code for the shell, if there is any.
    pub emitted: Option<Emitted>,
    /// Whether to remove the restore stack.
    pub clear_stack: bool,
    /// What to say.
    pub messages: Vec<String>,
}

/// What a `Deactivation` holds.
pub struct DeactivationPlan {
    pub emitted: Option<Emission>,
    pub clear_stack: bool,
    pub messages: Seq<Text>,
}

impl View for Deactivation {
    type V = DeactivationPlan;

    open spec fn view(&self) -> DeactivationPlan {
        DeactivationPlan {
            emitted: opt_view(self.emitted),
            clear_stack: self.clear_stack,
            messages: views(self.messages@),
        }
    }
}

/// What undoing the active profile comes to. `active` says whether the variable
/// that records the profile's name is set.
pub open spec fn deactivation(
    quiet: bool,
    shell: Shell,
    stack: Option<Record>,
    active: bool,
    hint: bool,
) -> DeactivationPlan {
    match stack {
        Some(s) => DeactivationPlan {
            emitted: Some(emission(shell, change_lines(shell, deactivation_changes(s)))),
            clear_stack: true,
            messages: notice(
                quiet,
                "deactivated '"@ + s.profile + "' ("@ + decimal(s.entries.len())
                    + " vars restored)"@,
            ) + activation_hint(quiet, "envc deactivate"@, shell, hint),
        },
        None => if active {
            DeactivationPlan {
                emitted: Some(
                    emission(
                        shell,
                        seq![change_line(shell, Change { key: ENVC_ACTIVE_VAR@, value: None })],
                    ),
                ),
                clear_stack: false,
                messages: notice(
                    quiet,
                    "nothing on the restore stack; cleared ENVC_ACTIVE only"@,
                ),
            }
        } else {
            DeactivationPlan {
                emitted: None,
                clear_stack: false,
                messages: notice(quiet, "no profile is active in this shell"@),
            }
        },
    }
}

/// Undo the active profile, restoring the previous values.
///
/// `stack` is what was read of the restore stack, `active` says whether the
/// variable that records the profile's name is set, and `hint` whether nothing
/// is going to evaluate the code.
pub fn cmd_deactivate(
    quiet: bool,
    shell: Shell,
    stack: &Option<Result<String, String>>,
    active: bool,
    hint: bool,
) -> (r: Result<Deactivation, LoadError>)
    ensures
        match r {
            Ok(d) => loaded_stack(read_opt_view(*stack)) matches Ok(s) && d@ == deactivation(
                quiet,
                shell,
                s,
                active,
                hint,
            ),
            Err(e) => loaded_stack(read_opt_view(*stack)) == Err::<Option<Record>, LoadFault>(e@),
        },
{
    match load_stack(stack) {
        Ok(s) => Ok(deactivate(quiet, shell, &s, active, hint)),
        Err(e) => Err(e),
    }
}

/// Undoes what a stack that has been read remembers.
pub fn deactivate(quiet: bool, shell: Shell, stack: &Option<Stack>, active: bool, hint: bool) -> (r:
    Deactivation)
    ensures
        r@ == deactivation(quiet, shell, opt_view(*stack), active, hint),
{
    match stack {
        Some(s) => {
            let mut code: Vec<String> = s.restore_lines(shell);
            push_item(&mut code, shell.unset(ENVC_ACTIVE_VAR));
            assert(views(code@) =~= change_lines(shell, deactivation_changes(s@)));
            let text: String = cat5(
                "deactivated '",
                s.profile.as_str(),
                "' (",
                decimal_of(s.entries.len()).as_str(),
                " vars restored)",
            );
            let mut messages: Vec<String> = notify(quiet, text.as_str());
            add_hint(&mut messages, quiet, "envc deactivate", shell, hint);
            Deactivation { emitted: Some(emit(shell, &code)), clear_stack: true, messages }
        },
        None => {
            if active {
                let mut code: Vec<String> = Vec::new();
                push_item(&mut code, shell.unset(ENVC_ACTIVE_VAR));
                assert(views(code@) =~= seq![
                    change_line(shell, Change { key: ENVC_ACTIVE_VAR@, value: None }),
                ]);
                Deactivation {
                    emitted: Some(emit(shell, &code)),
                    clear_stack: false,
                    messages: notify(
                        quiet,
                        "nothing on the restore stack; cleared ENVC_ACTIVE only",
                    ),
                }
            } else {
                Deactivation {
                    emitted: None,
                    clear_stack: false,
                    messages: notify(quiet, "no profile is active in this shell"),
                }
            }
        },
    }
}

// ---------------------------------------------------------------------------
// Autoload
// ---------------------------------------------------------------------------

/// What loading the startup profile asks for.
pub enum Autoload {
    /// Its file is missing: only a warning.
    Skipped(String),
    /// The code for the shell, and what to remember.
    Loaded { emitted: Emitted, stack: Stack },
}

/// What an `Autoload` holds.
pub enum AutoloadPlan {
    Skipped(Text),
    Loaded { emitted: Emission, stack: Record },
}

impl View for Autoload {
    type V = AutoloadPlan;

    open spec fn view(&self) -> AutoloadPlan {
        match self {
            Autoload::Skipped(s) => AutoloadPlan::Skipped(s@),
            Autoload::Loaded { emitted, stack } => AutoloadPlan::Loaded {
                emitted: emitted@,
                stack: stack@,
            },
        }
    }
}

/// What loading the startup profile comes to: a profile that nothing comes
/// before, whatever the restore stack holds.
pub open spec fn autoload(
    profile: Text,
    shell: Shell,
    origin: Text,
    file: Option<Result<Text, Text>>,
    env: Vars,
) -> Result<AutoloadPlan, EnvFileFault> {
    match file {
        None => Ok(
            AutoloadPlan::Skipped(
                "envc: startup profile '"@ + profile + "' is selected but "@ + origin
                    + " is missing; skipping autoload"@,
            ),
        ),
        Some(read) => match env_file(read, env) {
            Err(e) => Err(e),
            Ok(settings) => Ok(
                AutoloadPlan::Loaded {
                    emitted: emission(
                        shell,
                        change_lines(shell, activation_changes(profile, settings, None)),
                    ),
                    stack: activation_record(profile, settings, env, None),
                },
            ),
        },
    }
}

/// Re-apply the startup profile in a fresh shell. Called by the hook.
///
/// Unlike `activate` there is no previous stack to peel off: a new shell starts
/// from the login environment, which is exactly the base we want to remember.
/// The stack made here is only there so `deactivate` can undo the autoload;
/// what gets loaded is decided by the startup file, never by the stack.
///
/// `file` is what was read of the profile's file, and `origin` is that file as
/// messages show it.
pub fn cmd_autoload(
    profile: &str,
    shell: Shell,
    origin: &str,
    file: &Option<Result<String, String>>,
    env: &Env,
) -> (r: Result<Autoload, EnvFileError>)
    ensures
        match r {
            Ok(a) => autoload(profile@, shell, origin@, read_opt_view(*file), env@) == Ok::<
                AutoloadPlan,
                EnvFileFault,
            >(a@),
            Err(e) => autoload(profile@, shell, origin@, read_opt_view(*file), env@) == Err::<
                AutoloadPlan,
                EnvFileFault,
            >(e@),
        },
{
    let read: &Result<String, String> = match file {
        Some(read) => read,
        None => {
            return Ok(
                Autoload::Skipped(
                    cat5(
                        "envc: startup profile '",
                        profile,
                        "' is selected but ",
                        origin,
                        " is missing; skipping autoload",
                    ),
                ),
            );
        },
    };
    match parse_env_file(read, env) {
        Err(e) => Err(e),
        Ok(assignments) => {
            let ghost changes = activation_changes(profile@, views(assignments@), None);
            let mut code: Vec<String> = Vec::new();
            add_assignments(&mut code, &assignments, shell);
            push_item(&mut code, shell.assign(ENVC_ACTIVE_VAR, profile));
            assert(views(code@) =~= change_lines(shell, changes));
            Ok(
                Autoload::Loaded {
                    emitted: emit(shell, &code),
                    stack: Stack::new(profile, Stack::entries_from(env, &assignments)),
                },
            )
        },
    }
}

} // verus!
