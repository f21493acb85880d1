//! The commands, through the files they keep and the code they print.

use vstd::prelude::*;

use crate::activation::{
    activation, activation_changes, activation_record, autoload, deactivation, deactivation_changes,
    ActivateFault, ActivationPlan, AutoloadPlan, Emission, ENVC_ACTIVE_VAR,
};
use crate::dotenv::{settings, Setting};
use crate::env::Vars;
use crate::files::{env_file, loaded_stack, loaded_startup, EnvFileFault, LoadFault};
use crate::laws::profile_file::names_are_valid;
use crate::laws::quoting::posix_code_carries_out_changes;
use crate::laws::session::{
    activation_remembers_the_start, an_empty_stack_remembers, deactivation_returns_to_the_start,
    remembers,
};
use crate::laws::stack_file::{a_written_stack_is_read_back, keepable, keepable_profile};
use crate::loading::{memory, selection, EnableFault, Memory, RememberFault};
use crate::manage::{creation_fault, deletion};
use crate::profile::{name_problem, profile_char};
use crate::shell::{apply_changes, identifier, posix_eval, Shell};
use crate::stack::{
    no_progress, put_back, read_stack, setting_changes, stack_line, stack_text, take_line,
    take_lines, undo_changes, Progress, Record,
};
use crate::startup::{first_entry, read_startup, startup_lines, startup_text};
use crate::text::{
    decimal, lemma_lines_unlines, lemma_no_feeds, lemma_trim, lemma_trim_solid, lines, neat, trim,
    Text,
};

verus! {

// ---------------------------------------------------------------------------
// This shell
// ---------------------------------------------------------------------------

/// Activating a profile in a POSIX shell, through the stack file and the printed
/// code: evaluating the code makes the changes that activation is made of, the
/// stack is read back as it was written, and it still knows the way back to the
/// start.
pub proof fn activating_in_a_posix_shell(
    start: Vars,
    env: Vars,
    name: Text,
    content: Text,
    stack: Option<Result<Text, Text>>,
    quiet: bool,
    hint: bool,
)
    requires
        name_problem(name) is None,
        settings(content, env) is Ok,
        loaded_stack(stack) is Ok,
        remembers(loaded_stack(stack)->Ok_0, env, start),
    ensures
        ({
            let previous = loaded_stack(stack)->Ok_0;
            let made = settings(content, env)->Ok_0;
            let record = activation_record(name, made, env, previous);
            let after = apply_changes(env, activation_changes(name, made, previous));
            &&& activation(name, quiet, Shell::Posix, Some(Ok(content)), env, stack, hint) matches Ok(
                plan,
            ) && plan.emitted matches Emission::Printed(code) && posix_eval(env, code) == Some(
                after,
            ) && plan.stack == record
            &&& loaded_stack(Some(Ok(stack_text(record)))) == Ok::<Option<Record>, LoadFault>(
                Some(record),
            )
            &&& remembers(Some(record), after, start)
        }),
{
    let previous = loaded_stack(stack)->Ok_0;
    let made = settings(content, env)->Ok_0;
    let record = activation_record(name, made, env, previous);
    let changes = activation_changes(name, made, previous);
    assert(env_file(Ok(content), env) == Ok::<Seq<Setting>, EnvFileFault>(made));
    names_are_valid(content, env);
    loaded_names_are_valid(stack);
    lemma_active_name();
    let peeled = match previous {
        Some(old) => undo_changes(old.entries),
        None => Seq::empty(),
    };
    assert forall|i: int| 0 <= i < changes.len() implies identifier(#[trigger] changes[i].key) by {
        if i < peeled.len() {
            let old = previous->0;
            let j: int = old.entries.len() - 1 - i;
            assert(changes[i] == put_back(old.entries[j]));
            assert(identifier(old.entries[j].key));
        } else if i < peeled.len() + made.len() {
            assert(changes[i] == setting_changes(made)[i - peeled.len()]);
            assert(identifier(made[i - peeled.len()].key));
        }
    }
    posix_code_carries_out_changes(env, changes);
    profile_names_are_keepable(name);
    lemma_keepable(name, made, env, previous);
    a_written_stack_is_read_back(record);
    activation_remembers_the_start(start, env, previous, name, made);
}

/// Loading the startup profile in a fresh POSIX shell leaves a stack that knows
/// the way back, whatever an older stack file says.
pub proof fn autoloading_in_a_posix_shell(env: Vars, profile: Text, content: Text, origin: Text)
    requires
        settings(content, env) is Ok,
        keepable_profile(profile),
    ensures
        ({
            let made = settings(content, env)->Ok_0;
            let record = activation_record(profile, made, env, None);
            let after = apply_changes(env, activation_changes(profile, made, None));
            &&& autoload(profile, Shell::Posix, origin, Some(Ok(content)), env) matches Ok(
                AutoloadPlan::Loaded { emitted: Emission::Printed(code), stack },
            ) && posix_eval(env, code) == Some(after) && stack == record
            &&& loaded_stack(Some(Ok(stack_text(record)))) == Ok::<Option<Record>, LoadFault>(
                Some(record),
            )
            &&& remembers(Some(record), after, env)
        }),
{
    let made = settings(content, env)->Ok_0;
    let changes = activation_changes(profile, made, None);
    assert(env_file(Ok(content), env) == Ok::<Seq<Setting>, EnvFileFault>(made));
    names_are_valid(content, env);
    lemma_active_name();
    assert forall|i: int| 0 <= i < changes.len() implies identifier(#[trigger] changes[i].key) by {
        if i < made.len() {
            assert(changes[i] == setting_changes(made)[i]);
            assert(identifier(made[i].key));
        }
    }
    posix_code_carries_out_changes(env, changes);
    lemma_keepable(profile, made, env, None);
    a_written_stack_is_read_back(activation_record(profile, made, env, None));
    an_empty_stack_remembers(env);
    activation_remembers_the_start(env, env, None, profile, made);
}

/// Deactivating in a POSIX shell, through the stack file and the printed code,
/// lands on the start again.
pub proof fn deactivating_in_a_posix_shell(
    start: Vars,
    env: Vars,
    stack: Option<Result<Text, Text>>,
    quiet: bool,
    active: bool,
    hint: bool,
)
    requires
        loaded_stack(stack) matches Ok(Some(s)) && remembers(Some(s), env, start),
    ensures
        ({
            let plan = deactivation(quiet, Shell::Posix, loaded_stack(stack)->Ok_0, active, hint);
            &&& plan.emitted matches Some(Emission::Printed(code)) && posix_eval(env, code) == Some(
                start.remove(ENVC_ACTIVE_VAR@),
            )
            &&& plan.clear_stack
        }),
{
    let record = loaded_stack(stack)->Ok_0->0;
    let changes = deactivation_changes(record);
    loaded_names_are_valid(stack);
    lemma_active_name();
    assert forall|i: int| 0 <= i < changes.len() implies identifier(#[trigger] changes[i].key) by {
        if i < record.entries.len() {
            let j: int = record.entries.len() - 1 - i;
            assert(changes[i] == put_back(record.entries[j]));
            assert(identifier(record.entries[j].key));
        }
    }
    posix_code_carries_out_changes(env, changes);
    deactivation_returns_to_the_start(start, env, record);
}

/// A shell's environment, and what is in the stack file.
pub struct Session {
    pub env: Vars,
    pub stack: Option<Result<Text, Text>>,
}

/// What activating profiles one after the other makes of a POSIX shell that
/// started with `env` and no stack: each profile is a name and the content of
/// its file, its code is evaluated and its stack kept as the stack file.
/// Nothing, where one of them is refused.
pub open spec fn after_activations(
    env: Vars,
    profiles: Seq<(Text, Text)>,
    quiet: bool,
    hint: bool,
) -> Option<Session>
    decreases profiles.len(),
{
    if profiles.len() == 0 {
        Some(Session { env, stack: None })
    } else {
        match after_activations(env, profiles.drop_last(), quiet, hint) {
            Some(before) => {
                let (name, content) = profiles.last();
                match activation(
                    name,
                    quiet,
                    Shell::Posix,
                    Some(Ok(content)),
                    before.env,
                    before.stack,
                    hint,
                ) {
                    Ok(
                        ActivationPlan { emitted: Emission::Printed(code), stack, messages: _ },
                    ) => match posix_eval(before.env, code) {
                        Some(after) => Some(
                            Session { env: after, stack: Some(Ok(stack_text(stack))) },
                        ),
                        None => None,
                    },
                    _ => None,
                }
            },
            None => None,
        }
    }
}

/// Deactivating gives the shell back as it was, however many profiles were
/// activated one after the other: what is read from the stack file undoes them
/// all, and evaluating the code gives the environment from before the first of
/// them, less the record of the active profile, which is envc's own. The stack
/// is cleared. Where nothing was activated and no profile is recorded, there is
/// no code at all.
pub proof fn deactivating_gives_the_shell_back(
    env: Vars,
    profiles: Seq<(Text, Text)>,
    quiet: bool,
    active: bool,
    hint: bool,
)
    requires
        after_activations(env, profiles, quiet, hint) is Some,
    ensures
        ({
            let session = after_activations(env, profiles, quiet, hint)->0;
            let kept = loaded_stack(session.stack);
            &&& kept is Ok
            &&& profiles.len() > 0 ==> ({
                let plan = deactivation(quiet, Shell::Posix, kept->Ok_0, active, hint);
                &&& plan.emitted matches Some(Emission::Printed(code)) && posix_eval(
                    session.env,
                    code,
                ) == Some(env.remove(ENVC_ACTIVE_VAR@))
                &&& plan.clear_stack
            })
            &&& profiles.len() == 0 ==> deactivation(
                quiet,
                Shell::Posix,
                kept->Ok_0,
                false,
                hint,
            ).emitted is None
            &&& !env.dom().contains(ENVC_ACTIVE_VAR@) ==> env.remove(ENVC_ACTIVE_VAR@) == env
        }),
{
    let session = after_activations(env, profiles, quiet, hint)->0;
    lemma_after_activations(env, profiles, quiet, hint);
    if profiles.len() > 0 {
        deactivating_in_a_posix_shell(env, session.env, session.stack, quiet, active, hint);
    }
    if !env.dom().contains(ENVC_ACTIVE_VAR@) {
        assert(env.remove(ENVC_ACTIVE_VAR@) =~= env);
    }
}

proof fn lemma_after_activations(
    env: Vars,
    profiles: Seq<(Text, Text)>,
    quiet: bool,
    hint: bool,
)
    requires
        after_activations(env, profiles, quiet, hint) is Some,
    ensures
        ({
            let session = after_activations(env, profiles, quiet, hint)->0;
            &&& loaded_stack(session.stack) matches Ok(kept) && remembers(kept, session.env, env)
            &&& profiles.len() > 0 ==> loaded_stack(session.stack)->Ok_0 is Some
        }),
    decreases profiles.len(),
{
    if profiles.len() == 0 {
        an_empty_stack_remembers(env);
    } else {
        let shorter = profiles.drop_last();
        lemma_after_activations(env, shorter, quiet, hint);
        let before = after_activations(env, shorter, quiet, hint)->0;
        let (name, content) = profiles.last();
        activating_in_a_posix_shell(
            env,
            before.env,
            name,
            content,
            before.stack,
            quiet,
            hint,
        );
    }
}

/// An activation that is not refused is never lost on a POSIX shell: the code
/// can always be evaluated, whatever came before.
pub proof fn activations_are_refused_or_evaluated(
    env: Vars,
    profiles: Seq<(Text, Text)>,
    quiet: bool,
    hint: bool,
)
    requires
        profiles.len() > 0,
        after_activations(env, profiles.drop_last(), quiet, hint) is Some,
    ensures
        ({
            let before = after_activations(env, profiles.drop_last(), quiet, hint)->0;
            let (name, content) = profiles.last();
            after_activations(env, profiles, quiet, hint) is Some <==> name_problem(name) is None
                && settings(content, before.env) is Ok
        }),
{
    let before = after_activations(env, profiles.drop_last(), quiet, hint)->0;
    let (name, content) = profiles.last();
    lemma_after_activations(env, profiles.drop_last(), quiet, hint);
    if name_problem(name) is None && settings(content, before.env) is Ok {
        activating_in_a_posix_shell(env, before.env, name, content, before.stack, quiet, hint);
    }
}

/// What is remembered of an activation is kept by the stack file.
proof fn lemma_keepable(name: Text, made: Seq<Setting>, env: Vars, previous: Option<Record>)
    requires
        keepable_profile(name),
        forall|i: int| 0 <= i < made.len() ==> identifier(#[trigger] made[i].key),
    ensures
        keepable(activation_record(name, made, env, previous)),
{
    let record = activation_record(name, made, env, previous);
    assert forall|i: int| 0 <= i < record.entries.len() implies identifier(
        #[trigger] record.entries[i].key,
    ) by {
        assert(identifier(made[i].key));
    }
}

/// A profile that cannot be read to its end changes nothing: there is no code to
/// evaluate and no stack to write, only the error.
pub proof fn a_broken_profile_is_not_half_applied(
    name: Text,
    quiet: bool,
    shell: Shell,
    content: Text,
    env: Vars,
    stack: Option<Result<Text, Text>>,
    hint: bool,
)
    requires
        name_problem(name) is None,
        settings(content, env) is Err,
    ensures
        activation(name, quiet, shell, Some(Ok(content)), env, stack, hint) == Err::<
            ActivationPlan,
            ActivateFault,
        >(ActivateFault::Profile(EnvFileFault::Broken(settings(content, env)->Err_0))),
{
}

proof fn lemma_active_name()
    ensures
        identifier(ENVC_ACTIVE_VAR@),
{
    reveal_strlit("ENVC_ACTIVE");
}

/// Every name in a stack file that is read is a valid one.
pub proof fn restored_names_are_valid(content: Text)
    ensures
        read_stack(content) matches Ok(r) ==> forall|i: int|
            0 <= i < r.entries.len() ==> identifier(#[trigger] r.entries[i].key),
{
    lemma_valid_progress(no_progress(), lines(content), 0);
}

proof fn loaded_names_are_valid(stack: Option<Result<Text, Text>>)
    ensures
        loaded_stack(stack) matches Ok(Some(r)) ==> forall|i: int|
            0 <= i < r.entries.len() ==> identifier(#[trigger] r.entries[i].key),
{
    if let Some(Ok(content)) = stack {
        restored_names_are_valid(content);
    }
}

spec fn valid_progress(p: Progress) -> bool {
    &&& forall|i: int| 0 <= i < p.entries.len() ==> identifier(#[trigger] p.entries[i].key)
    &&& p.pending matches Some((key, _)) ==> identifier(key)
}

proof fn lemma_valid_progress(p: Progress, ls: Seq<Text>, i: int)
    requires
        0 <= i <= ls.len(),
        valid_progress(p),
    ensures
        take_lines(p, ls, i) matches Ok(q) ==> valid_progress(q),
    decreases ls.len() - i,
{
    if i < ls.len() {
        if let Ok(next) = take_line(p, (i + 1) as nat, stack_line(ls[i])) {
            assert(valid_progress(next)) by {
                assert forall|j: int| 0 <= j < next.entries.len() implies identifier(
                    #[trigger] next.entries[j].key,
                ) by {
                    if j < p.entries.len() {
                        assert(next.entries[j] == p.entries[j]);
                        assert(identifier(p.entries[j].key));
                    }
                }
            }
            lemma_valid_progress(next, ls, i + 1);
        }
    }
}

// ---------------------------------------------------------------------------
// New shells
// ---------------------------------------------------------------------------

/// A profile's name is safe as the name of a directory: it holds no separator
/// and does not begin with a dot, so it is neither `.` nor `..`.
pub proof fn profile_names_are_boring(name: Text)
    requires
        name_problem(name) is None,
    ensures
        name.len() > 0,
        name[0] != '.',
        !name.contains('/'),
        !name.contains('\\'),
{
    assert forall|i: int| 0 <= i < name.len() implies name[i] != '/' && name[i] != '\\' by {
        assert(profile_char(name[i]));
    }
}

/// Every name that a profile can have is kept by the files it is written to.
pub proof fn profile_names_are_keepable(name: Text)
    requires
        name_problem(name) is None,
    ensures
        keepable_profile(name),
        name[0] != '#',
{
    assert forall|i: int| 0 <= i < name.len() implies profile_char(#[trigger] name[i]) by {}
    assert(profile_char(name[0]) && profile_char(name[name.len() - 1]));
}

/// Every profile that a startup file names is kept by the files it is written to.
pub proof fn chosen_profiles_are_keepable(content: Text)
    ensures
        read_startup(content) matches Some(profile) ==> keepable_profile(profile),
{
    lemma_no_feeds(content, 0);
    lemma_first_entry(lines(content), 0);
}

proof fn lemma_first_entry(ls: Seq<Text>, i: int)
    requires
        0 <= i <= ls.len(),
        forall|j: int| 0 <= j < ls.len() ==> !(#[trigger] ls[j]).contains('\n'),
    ensures
        first_entry(ls, i) matches Some(profile) ==> keepable_profile(profile),
    decreases ls.len() - i,
{
    if i < ls.len() {
        let line = trim(ls[i]);
        lemma_trim(ls[i]);
        if line.len() > 0 && line[0] != '#' {
            assert(!ls[i].contains('\n'));
            assert forall|j: int| 0 <= j < line.len() implies line[j] != '\n' by {
                assert(ls[i].contains(line[j]));
            }
        } else {
            lemma_first_entry(ls, i + 1);
        }
    }
}

/// The startup file gives back the profile it was written with.
pub proof fn a_written_startup_is_read_back(profile: Text)
    requires
        keepable_profile(profile),
        profile[0] != '#',
    ensures
        read_startup(startup_text(profile)) == Some(profile),
{
    reveal_strlit("# envc startup profile -- what new shells load through the rc hook.");
    reveal_strlit("# `envc enable <name>` writes it; `envc disable` keeps it, stopped.");
    reveal_strlit("# format ");
    let ls = startup_lines(profile);
    assert(decimal(1) =~= seq!['1']);
    assert(ls[2] =~= "# format "@ + seq!['1']);
    assert forall|i: int| 0 <= i < ls.len() implies neat(#[trigger] ls[i]) by {}
    lemma_lines_unlines(ls);
    lemma_trim_solid(ls[0]);
    lemma_trim_solid(ls[1]);
    lemma_trim_solid(ls[2]);
    lemma_trim_solid(ls[3]);
    assert(first_entry(ls, 3) == Some(profile));
    assert(first_entry(ls, 2) == Some(profile));
    assert(first_entry(ls, 1) == Some(profile));
}

/// Once a profile has been enabled, it is what new shells load and what a bare
/// `enable` selects, whatever is activated and deactivated in the meantime.
pub proof fn an_enabled_profile_is_remembered(
    profile: Text,
    remembered: Option<Text>,
    stack: Option<Result<Text, Text>>,
)
    requires
        selection(Some(profile), remembered, true) == Ok::<Text, EnableFault>(profile),
    ensures
        memory(Some(Ok(startup_text(profile))), stack) == Ok::<Memory, RememberFault>(
            Memory::Chosen(profile),
        ),
        selection(None, Some(profile), true) == Ok::<Text, EnableFault>(profile),
{
    assert(name_problem(profile) is None);
    profile_names_are_keepable(profile);
    a_written_startup_is_read_back(profile);
}

/// Where a profile has been chosen, the restore stack has no say in what new
/// shells load.
pub proof fn the_stack_does_not_choose(
    startup: Option<Result<Text, Text>>,
    one: Option<Result<Text, Text>>,
    other: Option<Result<Text, Text>>,
)
    requires
        loaded_startup(startup) matches Ok(Some(_)),
    ensures
        memory(startup, one) == memory(startup, other),
{
}

/// An install from before there was a startup file keeps loading the profile
/// that is on its restore stack.
pub proof fn an_older_choice_is_kept(record: Record)
    requires
        keepable(record),
    ensures
        memory(None, Some(Ok(stack_text(record)))) == Ok::<Memory, RememberFault>(
            Memory::OnStack(record.profile),
        ),
{
    a_written_stack_is_read_back(record);
}

// ---------------------------------------------------------------------------
// Profiles
// ---------------------------------------------------------------------------

/// Without force, nothing that is there is overwritten, and nothing that is in
/// use is deleted.
pub proof fn without_force_nothing_in_use_is_lost(
    name: Text,
    quiet: bool,
    there: bool,
    active: Option<Text>,
    startup: Option<Text>,
    dir: Text,
)
    ensures
        there ==> creation_fault(name, false, there) is Some,
        active == Some(name) || startup == Some(name) ==> deletion(
            name,
            false,
            quiet,
            there,
            active,
            startup,
            dir,
        ) is Err,
{
}

} // verus!
