//! What new shells load: `init`, `enable` and `disable`.
//!
//! This is the other half of envc: it decides what the *next* shell does and
//! leaves the current one alone.

use vstd::prelude::*;

use crate::activation::{no_such_profile, no_such_profile_message};
use crate::dotenv::{Assignment, Setting};
use crate::files::{
    load_stack, load_startup, loaded_stack, loaded_startup, read_opt_view, LoadError, LoadFault,
};
use crate::paths::{kind_name, ShellKind};
use crate::profile::{name_error_text, name_problem, validate_profile_name, NameError, NameProblem};
use crate::rc::{
    has_block, rc_disable, rc_enable, rc_is_enabled, with_hook, without_block, EnableOutcome,
    BEGIN_MARKER,
};
use crate::shell::{shell_name, str_opt, Shell};
use crate::stack::{entries_of, put_backs, setting_changes, Record};
use crate::startup::Startup;
use crate::text::{cat2, cat3, cat4, cat5, occurs, opt_view, push_item, views, Text};
use crate::user_env::{
    disable_user_env, enable_user_env, no_variables, no_variables_message, script_text,
    user_disable_report, user_enable_report, user_overrides, user_vars, UserStack,
};

verus! {

// ---------------------------------------------------------------------------
// Where startup loading lives
// ---------------------------------------------------------------------------

/// Where startup loading lives, and what is there.
///
/// POSIX shells read the hook in the rc file; Windows has no such file, so the
/// equivalent evidence is that the user-level variables are currently applied.
pub enum StartupPlace {
    /// The startup file, as messages show it, and its content.
    Rc { path: String, content: String },
    /// The user environment, and what was overwritten there.
    UserEnvironment { stack: Option<UserStack> },
}

/// What a `StartupPlace` holds.
pub enum Place {
    Rc { path: Text, content: Text },
    UserEnvironment { stack: Option<Record> },
}

impl View for StartupPlace {
    type V = Place;

    open spec fn view(&self) -> Place {
        match self {
            StartupPlace::Rc { path, content } => Place::Rc { path: path@, content: content@ },
            StartupPlace::UserEnvironment { stack } => Place::UserEnvironment {
                stack: opt_view(*stack),
            },
        }
    }
}

pub open spec fn is_on(place: Place) -> bool {
    match place {
        Place::Rc { path: _, content } => occurs(content, BEGIN_MARKER@),
        Place::UserEnvironment { stack } => stack is Some,
    }
}

/// Is startup loading on?
pub fn startup_is_on(place: &StartupPlace) -> (r: bool)
    ensures
        r == is_on(place@),
{
    match place {
        StartupPlace::Rc { path: _, content } => rc_is_enabled(content.as_str()),
        StartupPlace::UserEnvironment { stack } => stack.is_some(),
    }
}

pub open spec fn place_text(place: Place) -> Text {
    match place {
        Place::Rc { path, content: _ } => path,
        Place::UserEnvironment { stack: _ } => "user environment"@,
    }
}

/// Where startup loading lives, for the reports.
pub fn startup_where(place: &StartupPlace) -> (r: String)
    ensures
        r@ == place_text(place@),
{
    match place {
        StartupPlace::Rc { path, content: _ } => path.as_str().to_owned(),
        StartupPlace::UserEnvironment { stack: _ } => "user environment".to_owned(),
    }
}

// ---------------------------------------------------------------------------
// The choice that is remembered
// ---------------------------------------------------------------------------

/// What is remembered of the choice.
pub enum Remembered {
    /// This profile was chosen.
    Chosen(String),
    /// None was, but this one is on the restore stack.
    OnStack(String),
    /// Neither.
    Nothing,
}

/// What a `Remembered` holds.
pub enum Memory {
    Chosen(Text),
    OnStack(Text),
    Nothing,
}

impl View for Remembered {
    type V = Memory;

    open spec fn view(&self) -> Memory {
        match self {
            Remembered::Chosen(p) => Memory::Chosen(p@),
            Remembered::OnStack(p) => Memory::OnStack(p@),
            Remembered::Nothing => Memory::Nothing,
        }
    }
}

/// Which file could not be loaded, and why.
pub enum RememberError {
    Startup(LoadError),
    Stack(LoadError),
}

/// What a `RememberError` says.
pub enum RememberFault {
    Startup(LoadFault),
    Stack(LoadFault),
}

impl View for RememberError {
    type V = RememberFault;

    open spec fn view(&self) -> RememberFault {
        match self {
            RememberError::Startup(e) => RememberFault::Startup(e@),
            RememberError::Stack(e) => RememberFault::Stack(e@),
        }
    }
}

/// What is remembered, given what was read of the startup file and of the
/// restore stack. The stack counts only where no profile was chosen.
pub open spec fn memory(
    startup: Option<Result<Text, Text>>,
    stack: Option<Result<Text, Text>>,
) -> Result<Memory, RememberFault> {
    match loaded_startup(startup) {
        Err(e) => Err(RememberFault::Startup(e)),
        Ok(Some(p)) => Ok(Memory::Chosen(p)),
        Ok(None) => match loaded_stack(stack) {
            Err(e) => Err(RememberFault::Stack(e)),
            Ok(Some(s)) => Ok(Memory::OnStack(s.profile)),
            Ok(None) => Ok(Memory::Nothing),
        },
    }
}

/// The chosen startup profile, falling back to the restore stack for installs
/// that predate the startup file -- before, `activate` was what chose it, and
/// starting to load nothing after an upgrade would be a nasty surprise.
pub fn remembered_startup(
    startup: &Option<Result<String, String>>,
    stack: &Option<Result<String, String>>,
) -> (r: Result<Remembered, RememberError>)
    ensures
        match r {
            Ok(m) => memory(read_opt_view(*startup), read_opt_view(*stack)) == Ok::<
                Memory,
                RememberFault,
            >(m@),
            Err(e) => memory(read_opt_view(*startup), read_opt_view(*stack)) == Err::<
                Memory,
                RememberFault,
            >(e@),
        },
{
    match load_startup(startup) {
        Err(e) => Err(RememberError::Startup(e)),
        Ok(Some(s)) => Ok(Remembered::Chosen(s.profile)),
        Ok(None) => match load_stack(stack) {
            Err(e) => Err(RememberError::Stack(e)),
            Ok(Some(s)) => Ok(Remembered::OnStack(s.profile)),
            Ok(None) => Ok(Remembered::Nothing),
        },
    }
}

/// What comes of the memory: the startup profile, if there is one, and what to
/// do and say where it is adopted from the restore stack.
pub struct Adoption {
    pub profile: Option<String>,
    /// The choice to write down.
    pub save: Option<Startup>,
    /// What to say.
    pub note: Option<String>,
}

/// What an `Adoption` holds.
pub struct AdoptionPlan {
    pub profile: Option<Text>,
    pub save: Option<Text>,
    pub note: Option<Text>,
}

impl View for Adoption {
    type V = AdoptionPlan;

    open spec fn view(&self) -> AdoptionPlan {
        AdoptionPlan {
            profile: opt_view(self.profile),
            save: opt_view(self.save),
            note: opt_view(self.note),
        }
    }
}

/// What comes of the memory: a profile that was chosen counts as it is, and one on
/// the restore stack is adopted where its file is `there`.
pub open spec fn adoption(memory: Memory, there: bool) -> AdoptionPlan {
    match memory {
        Memory::Chosen(p) => AdoptionPlan { profile: Some(p), save: None, note: None },
        Memory::OnStack(p) => if there {
            AdoptionPlan { profile: Some(p), save: Some(p), note: Some(adoption_text(p)) }
        } else {
            AdoptionPlan { profile: None, save: None, note: None }
        },
        Memory::Nothing => AdoptionPlan { profile: None, save: None, note: None },
    }
}

pub open spec fn adoption_text(profile: Text) -> Text {
    "envc: '"@ + profile
        + "' is now the startup profile (it was selected before the upgrade; `envc enable <name>` changes it)"@
}

/// A profile on the restore stack is adopted where its file is `there`. That is
/// announced once, and written down so it never happens again.
pub fn adopt_startup(remembered: &Remembered, there: bool) -> (r: Adoption)
    ensures
        r@ == adoption(remembered@, there),
{
    match remembered {
        Remembered::Chosen(p) => Adoption {
            profile: Some(p.as_str().to_owned()),
            save: None,
            note: None,
        },
        Remembered::OnStack(p) => if there {
            Adoption {
                profile: Some(p.as_str().to_owned()),
                save: Some(Startup { profile: p.as_str().to_owned() }),
                note: Some(
                    cat3(
                        "envc: '",
                        p.as_str(),
                        "' is now the startup profile (it was selected before the upgrade; `envc enable <name>` changes it)",
                    ),
                ),
            }
        } else {
            Adoption { profile: None, save: None, note: None }
        },
        Remembered::Nothing => Adoption { profile: None, save: None, note: None },
    }
}

// ---------------------------------------------------------------------------
// Enable
// ---------------------------------------------------------------------------

/// Why no profile was chosen.
pub enum EnableError {
    /// The name is none that a profile can have.
    Name(NameError),
    /// No name was given and none is remembered.
    NoneChosen,
    /// There is no such profile.
    Missing { profile: String },
}

/// What an `EnableError` says.
pub enum EnableFault {
    Name { name: Text, problem: NameProblem },
    NoneChosen,
    Missing { profile: Text },
}

impl View for EnableError {
    type V = EnableFault;

    open spec fn view(&self) -> EnableFault {
        match self {
            EnableError::Name(e) => EnableFault::Name { name: e.name@, problem: e.problem },
            EnableError::NoneChosen => EnableFault::NoneChosen,
            EnableError::Missing { profile } => EnableFault::Missing { profile: profile@ },
        }
    }
}

/// The fault in words; `file` is the profile's file as messages show it.
pub open spec fn enable_fault_text(fault: EnableFault, file: Text) -> Text {
    match fault {
        EnableFault::Name { name, problem } => name_error_text(name, problem),
        EnableFault::NoneChosen => "no startup profile chosen yet; run `envc enable <name>`"@,
        EnableFault::Missing { profile } => no_such_profile(profile, file),
    }
}

impl EnableError {
    /// The error in words; `file` is the profile's file as messages show it.
    pub fn message(&self, file: &str) -> (r: String)
        ensures
            r@ == enable_fault_text(self@, file@),
    {
        match self {
            EnableError::Name(e) => e.message(),
            EnableError::NoneChosen =>
            "no startup profile chosen yet; run `envc enable <name>`".to_owned(),
            EnableError::Missing { profile } => no_such_profile_message(profile.as_str(), file),
        }
    }
}

/// The profile that `enable` is about: the one named on the command line, else
/// the one already remembered.
pub open spec fn candidate(name: Option<Text>, remembered: Option<Text>) -> Result<
    Text,
    EnableFault,
> {
    match name {
        Some(n) => match name_problem(n) {
            Some(problem) => Err(EnableFault::Name { name: n, problem }),
            None => Ok(n),
        },
        None => match remembered {
            Some(p) => Ok(p),
            None => Err(EnableFault::NoneChosen),
        },
    }
}

/// Which profile `enable` should select, given whether it is `there`.
pub open spec fn selection(name: Option<Text>, remembered: Option<Text>, there: bool) -> Result<
    Text,
    EnableFault,
> {
    match candidate(name, remembered) {
        Ok(profile) => if there {
            Ok(profile)
        } else {
            Err(EnableFault::Missing { profile })
        },
        Err(e) => Err(e),
    }
}

/// The views of a name or of the reason why there is none.
pub open spec fn choice_view(r: Result<String, EnableError>) -> Result<Text, EnableFault> {
    match r {
        Ok(p) => Ok(p@),
        Err(e) => Err(e@),
    }
}

/// The profile that `enable` is about: the one named on the command line, else
/// the one already remembered.
pub fn startup_candidate(name: Option<&str>, remembered: Option<&str>) -> (r: Result<
    String,
    EnableError,
>)
    ensures
        choice_view(r) == candidate(str_opt(name), str_opt(remembered)),
{
    match name {
        Some(n) => {
            if let Err(e) = validate_profile_name(n) {
                return Err(EnableError::Name(e));
            }
            Ok(n.to_owned())
        },
        None => match remembered {
            Some(p) => Ok(p.to_owned()),
            None => Err(EnableError::NoneChosen),
        },
    }
}

/// Which profile `enable` should select: the one named on the command line,
/// else the one already remembered. Either way its file has to be `there`.
pub fn resolve_startup_profile(name: Option<&str>, remembered: Option<&str>, there: bool) -> (r:
    Result<String, EnableError>)
    ensures
        choice_view(r) == selection(str_opt(name), str_opt(remembered), there),
{
    match startup_candidate(name, remembered) {
        Ok(profile) => if there {
            Ok(profile)
        } else {
            Err(EnableError::Missing { profile })
        },
        Err(e) => Err(e),
    }
}

/// Where startup loading is switched on, and what it goes by there.
pub enum EnablePlace {
    /// POSIX: the startup file, as messages show it, and its content.
    Rc { path: String, content: String },
    /// Windows: what the profile assigns, what the query printed, and what is
    /// recorded of a profile that was made permanent before.
    UserEnvironment { assignments: Vec<Assignment>, output: String, earlier: Option<UserStack> },
}

/// What an `EnablePlace` holds.
pub enum EnableTarget {
    Rc { path: Text, content: Text },
    UserEnvironment { settings: Seq<Setting>, output: Text, earlier: Option<Record> },
}

impl View for EnablePlace {
    type V = EnableTarget;

    open spec fn view(&self) -> EnableTarget {
        match self {
            EnablePlace::Rc { path, content } => EnableTarget::Rc {
                path: path@,
                content: content@,
            },
            EnablePlace::UserEnvironment { assignments, output, earlier } => {
                EnableTarget::UserEnvironment {
                    settings: views(assignments@),
                    output: output@,
                    earlier: opt_view(*earlier),
                }
            },
        }
    }
}

/// What enabling startup loading asks for.
pub struct Enable {
    /// The choice to write down.
    pub startup: Startup,
    /// The new content of the startup file.
    pub rc: Option<String>,
    /// The script that makes the variables permanent.
    pub script: Option<String>,
    /// The record of what they held before.
    pub user_stack: Option<UserStack>,
    /// What to tell once that is done.
    pub report: Vec<String>,
}

/// What an `Enable` holds.
pub struct EnablePlan {
    pub startup: Text,
    pub rc: Option<Text>,
    pub script: Option<Text>,
    pub user_stack: Option<Record>,
    pub report: Seq<Text>,
}

impl View for Enable {
    type V = EnablePlan;

    open spec fn view(&self) -> EnablePlan {
        EnablePlan {
            startup: self.startup@,
            rc: opt_view(self.rc),
            script: opt_view(self.script),
            user_stack: opt_view(self.user_stack),
            report: views(self.report@),
        }
    }
}

/// What enabling startup loading of a profile comes to, or the complaint that it
/// has nothing to make permanent. The current shell is left alone either way.
pub open spec fn enabling(profile: Text, target: EnableTarget) -> Result<EnablePlan, Text> {
    match target {
        EnableTarget::Rc { path, content } => Ok(
            EnablePlan {
                startup: profile,
                rc: Some(with_hook(content)),
                script: None,
                user_stack: None,
                report: enable_report(profile, path, has_block(content)),
            },
        ),
        EnableTarget::UserEnvironment { settings, output, earlier } => if settings.len() == 0 {
            Err(no_variables(profile))
        } else {
            Ok(
                EnablePlan {
                    startup: profile,
                    rc: None,
                    script: script_text(setting_changes(settings)),
                    user_stack: Some(
                        Record {
                            profile,
                            entries: user_overrides(
                                entries_of(earlier),
                                user_vars(output),
                                settings,
                            ),
                        },
                    ),
                    report: user_enable_report(profile, settings.len()),
                },
            )
        },
    }
}

pub open spec fn enable_report(profile: Text, rc: Text, refreshed: bool) -> Seq<Text> {
    seq![
        "startup loading enabled: "@ + profile,
        "  "@ + (if refreshed {
            "refreshed the hook in"@
        } else {
            "installed the hook into"@
        }) + " "@ + rc,
        "  new shells load it; `envc activate "@ + profile + "` for this one"@,
    ]
}

/// Choose the profile new shells load and make sure that they do.
///
/// On POSIX the hook that loads the profile is installed (or refreshed). On
/// Windows the profile's variables are made permanent.
pub fn cmd_enable(startup: Startup, place: &EnablePlace) -> (r: Result<Enable, String>)
    ensures
        match r {
            Ok(e) => enabling(startup@, place@) == Ok::<EnablePlan, Text>(e@),
            Err(m) => enabling(startup@, place@) == Err::<EnablePlan, Text>(m@),
        },
{
    match place {
        EnablePlace::Rc { path, content } => {
            let (updated, outcome): (String, EnableOutcome) = rc_enable(content.as_str());
            let verb: &str = match outcome {
                EnableOutcome::Installed => "installed the hook into",
                EnableOutcome::Refreshed => "refreshed the hook in",
            };
            let mut report: Vec<String> = Vec::new();
            let profile: &str = startup.profile.as_str();
            push_item(&mut report, cat2("startup loading enabled: ", profile));
            push_item(&mut report, cat4("  ", verb, " ", path.as_str()));
            push_item(
                &mut report,
                cat3("  new shells load it; `envc activate ", profile, "` for this one"),
            );
            assert(views(report@) =~= enable_report(startup@, path@, has_block(content@)));
            Ok(Enable { startup, rc: Some(updated), script: None, user_stack: None, report })
        },
        EnablePlace::UserEnvironment { assignments, output, earlier } => {
            if assignments.len() == 0 {
                return Err(no_variables_message(startup.profile.as_str()));
            }
            let plan = enable_user_env(startup, assignments, output.as_str(), earlier);
            Ok(
                Enable {
                    startup: plan.startup,
                    rc: None,
                    script: plan.script,
                    user_stack: Some(plan.stack),
                    report: plan.report,
                },
            )
        },
    }
}

pub open spec fn path_warning_text(on_path: bool, exe: Text, install: Text) -> Seq<Text> {
    if on_path {
        Seq::empty()
    } else {
        seq![
            ""@,
            "envc: warning: not on PATH, so the hook cannot fire in new shells."@,
            "envc:          install -Dm755 "@ + exe + " "@ + install,
        ]
    }
}

/// The hook is useless if new shells cannot find the binary, and that is an easy
/// mistake to make after a plain build.
pub fn path_warning(on_path: bool, exe: &str, install: &str) -> (r: Vec<String>)
    ensures
        views(r@) == path_warning_text(on_path, exe@, install@),
{
    let mut warning: Vec<String> = Vec::new();
    if !on_path {
        push_item(&mut warning, "".to_owned());
        push_item(
            &mut warning,
            "envc: warning: not on PATH, so the hook cannot fire in new shells.".to_owned(),
        );
        push_item(&mut warning, cat4("envc:          install -Dm755 ", exe, " ", install));
    }
    assert(views(warning@) =~= path_warning_text(on_path, exe@, install@));
    warning
}

// ---------------------------------------------------------------------------
// Disable
// ---------------------------------------------------------------------------

/// What is said of the choice and of this shell once loading is off.
pub open spec fn disable_notes(startup: Option<Text>, quiet: bool) -> Seq<Text> {
    (match startup {
        Some(p) => seq!["  '"@ + p + "' remembered; a bare `envc enable` turns it back on"@],
        None => Seq::empty(),
    }) + if quiet {
        Seq::<Text>::empty()
    } else {
        seq!["  this shell keeps its profile -- `envc deactivate` drops it."@]
    }
}

fn notes_on_disable(startup: Option<&str>, quiet: bool) -> (r: Vec<String>)
    ensures
        views(r@) == disable_notes(str_opt(startup), quiet),
{
    let mut notes: Vec<String> = Vec::new();
    if let Some(p) = startup {
        push_item(
            &mut notes,
            cat3("  '", p, "' remembered; a bare `envc enable` turns it back on"),
        );
    }
    if !quiet {
        push_item(
            &mut notes,
            "  this shell keeps its profile -- `envc deactivate` drops it.".to_owned(),
        );
    }
    assert(views(notes@) =~= disable_notes(str_opt(startup), quiet));
    notes
}

/// What disabling startup loading asks for. The choice itself is kept.
pub struct Disable {
    /// The new content of the startup file, where it changes.
    pub rc: Option<String>,
    /// The script that puts the user-level variables back, if there are any.
    pub script: Option<String>,
    /// Whether to remove the record of what they held.
    pub clear_user_stack: bool,
    /// What to tell once that is done.
    pub report: Vec<String>,
    /// What to add on the choice and on this shell.
    pub notes: Vec<String>,
}

/// What a `Disable` holds.
pub struct DisablePlan {
    pub rc: Option<Text>,
    pub script: Option<Text>,
    pub clear_user_stack: bool,
    pub report: Seq<Text>,
    pub notes: Seq<Text>,
}

impl View for Disable {
    type V = DisablePlan;

    open spec fn view(&self) -> DisablePlan {
        DisablePlan {
            rc: opt_view(self.rc),
            script: opt_view(self.script),
            clear_user_stack: self.clear_user_stack,
            report: views(self.report@),
            notes: views(self.notes@),
        }
    }
}

pub open spec fn disable_report(rc: Text, had_block: bool, quiet: bool) -> Seq<Text> {
    if had_block {
        seq!["startup loading disabled"@, "  removed the hook from "@ + rc]
    } else if quiet {
        Seq::empty()
    } else {
        seq![
            "startup loading was already disabled ("@ + rc + " has no hook)"@,
            "  run `envc enable` to turn it back on"@,
        ]
    }
}

/// What disabling startup loading comes to: the hook is taken out of the startup
/// file, or the user-level variables are put back, where there is anything to
/// undo.
pub open spec fn disabling(quiet: bool, place: Place, startup: Option<Text>) -> DisablePlan {
    match place {
        Place::Rc { path, content } => DisablePlan {
            rc: if has_block(content) {
                Some(without_block(content))
            } else {
                None
            },
            script: None,
            clear_user_stack: false,
            report: disable_report(path, has_block(content), quiet),
            notes: if has_block(content) {
                disable_notes(startup, quiet)
            } else {
                Seq::empty()
            },
        },
        Place::UserEnvironment { stack: Some(record) } => DisablePlan {
            rc: None,
            script: script_text(put_backs(record.entries)),
            clear_user_stack: true,
            report: user_disable_report(record.entries.len()),
            notes: disable_notes(startup, quiet),
        },
        Place::UserEnvironment { stack: None } => DisablePlan {
            rc: None,
            script: None,
            clear_user_stack: false,
            report: if quiet {
                Seq::empty()
            } else {
                seq!["startup loading was already disabled"@]
            },
            notes: Seq::empty(),
        },
    }
}

/// Stop new shells from loading anything. The current shell keeps whatever it
/// has applied, and the chosen profile is remembered for a later `enable`.
pub fn cmd_disable(quiet: bool, place: &StartupPlace, startup: Option<&str>) -> (r: Disable)
    ensures
        r@ == disabling(quiet, place@, str_opt(startup)),
{
    let none: Vec<String> = Vec::new();
    assert(views(none@) =~= Seq::<Text>::empty());
    let mut report: Vec<String> = Vec::new();
    match place {
        StartupPlace::Rc { path, content } => match rc_disable(content.as_str()) {
            Some(stripped) => {
                push_item(&mut report, "startup loading disabled".to_owned());
                push_item(&mut report, cat2("  removed the hook from ", path.as_str()));
                assert(views(report@) =~= disable_report(path@, true, quiet));
                Disable {
                    rc: Some(stripped),
                    script: None,
                    clear_user_stack: false,
                    report,
                    notes: notes_on_disable(startup, quiet),
                }
            },
            None => {
                if !quiet {
                    push_item(
                        &mut report,
                        cat3(
                            "startup loading was already disabled (",
                            path.as_str(),
                            " has no hook)",
                        ),
                    );
                    push_item(&mut report, "  run `envc enable` to turn it back on".to_owned());
                }
                assert(views(report@) =~= disable_report(path@, false, quiet));
                Disable { rc: None, script: None, clear_user_stack: false, report, notes: none }
            },
        },
        StartupPlace::UserEnvironment { stack: Some(stack) } => {
            let undo = disable_user_env(stack);
            Disable {
                rc: None,
                script: undo.script,
                clear_user_stack: true,
                report: undo.report,
                notes: notes_on_disable(startup, quiet),
            }
        },
        StartupPlace::UserEnvironment { stack: None } => {
            if !quiet {
                push_item(&mut report, "startup loading was already disabled".to_owned());
            }
            assert(views(report@) =~= if quiet {
                Seq::<Text>::empty()
            } else {
                seq!["startup loading was already disabled"@]
            });
            Disable { rc: None, script: None, clear_user_stack: false, report, notes: none }
        },
    }
}

// ---------------------------------------------------------------------------
// Init
// ---------------------------------------------------------------------------

pub open spec fn profile_line(startup: Option<Text>) -> Text {
    match startup {
        Some(p) => "profile: "@ + p,
        None => "profile: none -- `envc enable <name>` picks one"@,
    }
}

fn line_on_profile(startup: Option<&str>) -> (r: String)
    ensures
        r@ == profile_line(str_opt(startup)),
{
    match startup {
        Some(p) => cat2("profile: ", p),
        None => "profile: none -- `envc enable <name>` picks one".to_owned(),
    }
}

/// What the first-time setup asks for, in the order in which it happens.
pub struct Init {
    /// What to tell first.
    pub found: Vec<String>,
    /// The new content of the startup file, where the hook is not in it yet.
    pub rc: Option<String>,
    /// What to tell of the hook.
    pub hook: String,
    /// What to tell of the startup profile.
    pub profile: String,
    /// What to tell in the end.
    pub next: Vec<String>,
}

/// What an `Init` holds.
pub struct InitPlan {
    pub found: Seq<Text>,
    pub rc: Option<Text>,
    pub hook: Text,
    pub profile: Text,
    pub next: Seq<Text>,
}

impl View for Init {
    type V = InitPlan;

    open spec fn view(&self) -> InitPlan {
        InitPlan {
            found: views(self.found@),
            rc: opt_view(self.rc),
            hook: self.hook@,
            profile: self.profile@,
            next: views(self.next@),
        }
    }
}

/// What the first-time setup comes to.
pub open spec fn initializing(
    quiet: bool,
    shell: ShellKind,
    source: Text,
    rc: Text,
    content: Text,
    startup: Option<Text>,
) -> InitPlan {
    let already = occurs(content, BEGIN_MARKER@);
    InitPlan {
        found: init_found(shell, source, rc),
        rc: if already {
            None
        } else {
            Some(with_hook(content))
        },
        hook: if already {
            "hook:    already installed"@
        } else {
            "hook:    installed"@
        },
        profile: profile_line(startup),
        next: init_next(rc, already, quiet),
    }
}

pub open spec fn init_found(shell: ShellKind, source: Text, rc: Text) -> Seq<Text> {
    seq!["shell:   "@ + kind_name(shell) + " ("@ + source + ")"@, "rc file: "@ + rc]
}

pub open spec fn init_next(rc: Text, already: bool, quiet: bool) -> Seq<Text> {
    (if already {
        Seq::<Text>::empty()
    } else {
        seq![""@, "open a new shell, or `source "@ + rc + "`."@]
    }) + if quiet {
        Seq::<Text>::empty()
    } else {
        seq![""@, "next: envc create work, then envc enable work"@]
    }
}

/// First-time setup: inject the hook into the file that the login shell reads,
/// unless it is already there. `source` says where the detection came from, and
/// `rc` is the file as messages show it.
pub fn cmd_init(
    quiet: bool,
    shell: ShellKind,
    source: &str,
    rc: &str,
    content: &str,
    startup: Option<&str>,
) -> (r: Init)
    ensures
        r@ == initializing(quiet, shell, source@, rc@, content@, str_opt(startup)),
{
    let already: bool = rc_is_enabled(content);
    let mut found: Vec<String> = Vec::new();
    push_item(&mut found, cat5("shell:   ", shell.name(), " (", source, ")"));
    push_item(&mut found, cat2("rc file: ", rc));
    assert(views(found@) =~= init_found(shell, source@, rc@));
    let mut next: Vec<String> = Vec::new();
    if !already {
        push_item(&mut next, "".to_owned());
        push_item(&mut next, cat3("open a new shell, or `source ", rc, "`."));
    }
    if !quiet {
        push_item(&mut next, "".to_owned());
        push_item(&mut next, "next: envc create work, then envc enable work".to_owned());
    }
    assert(views(next@) =~= init_next(rc@, already, quiet));
    if already {
        return Init {
            found,
            rc: None,
            hook: "hook:    already installed".to_owned(),
            profile: line_on_profile(startup),
            next,
        };
    }
    let (updated, _): (String, EnableOutcome) = rc_enable(content);
    Init {
        found,
        rc: Some(updated),
        hook: "hook:    installed".to_owned(),
        profile: line_on_profile(startup),
        next,
    }
}

pub open spec fn init_windows_found(shell: Shell) -> Seq<Text> {
    seq!["shell:   "@ + shell_name(shell), "startup: user environment (no rc file to patch)"@]
}

pub open spec fn init_windows_profile(startup: Option<Text>, quiet: bool) -> Seq<Text> {
    if quiet {
        seq![profile_line(startup)]
    } else {
        seq![
            profile_line(startup),
            ""@,
            "next: envc create work, then envc enable work"@,
            ""@,
            "to apply a profile to just this shell:"@,
            "    cmd        envc activate work && call \"%TEMP%\\envc\\activate.cmd\""@,
            "    powershell envc activate work | Invoke-Expression"@,
        ]
    }
}

/// What the first-time setup tells on Windows, in two parts: what was found, and
/// what follows once the startup profile is known.
pub struct InitWindows {
    pub found: Vec<String>,
    pub profile: Vec<String>,
}

/// Windows has nothing to patch.
///
/// cmd and PowerShell each read a different startup file, so there is no single
/// place to install a hook. `enable` sidesteps that by writing user-level
/// environment variables instead, which every new process sees regardless of
/// shell -- so `init` only has to report what is going on.
pub fn cmd_init_windows(quiet: bool, shell: Shell, startup: Option<&str>) -> (r: InitWindows)
    ensures
        views(r.found@) == init_windows_found(shell),
        views(r.profile@) == init_windows_profile(str_opt(startup), quiet),
{
    let mut found: Vec<String> = Vec::new();
    push_item(&mut found, cat2("shell:   ", shell.name()));
    push_item(&mut found, "startup: user environment (no rc file to patch)".to_owned());
    assert(views(found@) =~= init_windows_found(shell));
    let mut profile: Vec<String> = Vec::new();
    push_item(&mut profile, line_on_profile(startup));
    if !quiet {
        push_item(&mut profile, "".to_owned());
        push_item(&mut profile, "next: envc create work, then envc enable work".to_owned());
        push_item(&mut profile, "".to_owned());
        push_item(&mut profile, "to apply a profile to just this shell:".to_owned());
        push_item(
            &mut profile,
            "    cmd        envc activate work && call \"%TEMP%\\envc\\activate.cmd\"".to_owned(),
        );
        push_item(&mut profile, "    powershell envc activate work | Invoke-Expression".to_owned());
    }
    assert(views(profile@) =~= init_windows_profile(str_opt(startup), quiet));
    InitWindows { found, profile }
}

} // verus!
