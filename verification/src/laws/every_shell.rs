//! Activation and deactivation do the same in every shell.

use vstd::prelude::*;

use crate::activation::{
    activation, activation_changes, activation_record, autoload, base_of, deactivation,
    deactivation_changes, emission, AutoloadPlan, Emission, ENVC_ACTIVE_VAR,
};
use crate::dotenv::{settings, Setting};
use crate::env::{lookup, Vars};
use crate::files::{env_file, loaded_stack, EnvFileFault, LoadFault};
use crate::laws::commands::{profile_names_are_keepable, restored_names_are_valid};
use crate::laws::profile_file::names_are_valid;
use crate::laws::quoting::{
    batch_file_carries_out_changes, batch_percents_round_trip, lemma_crlf_join, plain_change,
    posix_code_carries_out_changes, posix_quoting_round_trips, powershell_code_carries_out_changes,
    powershell_quoting_round_trips,
};
use crate::laws::session::{
    activation_applies_the_profile, activation_remembers_the_start, an_empty_stack_remembers,
    deactivation_returns_to_the_start, last_setting, last_value, lemma_apply, lemma_last_value,
    remembers,
};
use crate::laws::stack_file::{a_written_stack_is_read_back, keepable, keepable_profile};
use crate::profile::name_problem;
use crate::shell::{
    apply_changes, batch_text, change_line, change_lines, cmd_call, identifier, name_char,
    posix_eval, powershell_eval, powershell_literal, quoted, quoted_powershell, shell_word, Change,
    Shell,
};
use crate::stack::{
    entries_of, put_back, put_backs, setting_changes, stack_text, undo_changes, Override, Record,
};
use crate::text::{begins, crlf_lines, find, lemma_find_is, replace, unlines, Text};
use crate::user_env::recorded;

verus! {

/// What a shell makes of its environment on taking in what was handed to it:
/// POSIX shells and PowerShell evaluate what is printed, and cmd calls a batch
/// file. `None` for anything else.
pub open spec fn evaluated(shell: Shell, env: Vars, emitted: Emission) -> Option<Vars> {
    match (shell, emitted) {
        (Shell::Posix, Emission::Printed(code)) => posix_eval(env, code),
        (Shell::PowerShell, Emission::Printed(code)) => powershell_eval(env, code),
        (Shell::Cmd, Emission::Batch(body)) => cmd_call(env, body),
        _ => None,
    }
}

/// A value that a shell can be given: any for POSIX shells, and one on a single
/// line that is not empty for the others.
pub open spec fn sayable(shell: Shell, value: Text) -> bool {
    shell == Shell::Posix || (value.len() > 0 && !value.contains('\n'))
}

/// Settings that a shell can be given.
pub open spec fn sayable_settings(shell: Shell, made: Seq<Setting>) -> bool {
    forall|i: int| 0 <= i < made.len() ==> sayable(shell, (#[trigger] made[i]).value)
}

/// Old values that a shell can be given back.
pub open spec fn sayable_entries(shell: Shell, entries: Seq<Override>) -> bool {
    forall|i: int|
        0 <= i < entries.len() ==> ((#[trigger] entries[i]).prev matches Some(v) ==> sayable(
            shell,
            v,
        ))
}

/// Variables whose values a shell can be given.
pub open spec fn sayable_vars(shell: Shell, env: Vars) -> bool {
    forall|key: Text| #[trigger] lookup(env, key) matches Some(v) ==> sayable(shell, v)
}

/// What a variable holds once a profile is applied to the environment `start`:
/// what the profile says last, else what it held; and the profile's name in the
/// variable that records it.
pub open spec fn applied(start: Vars, made: Seq<Setting>, name: Text, key: Text) -> Option<Text> {
    if key == ENVC_ACTIVE_VAR@ {
        Some(name)
    } else {
        match last_setting(made, key) {
            Some(v) => Some(v),
            None => lookup(start, key),
        }
    }
}

/// Whatever the shell, the code that is handed to it carries out the changes it
/// was made for, and no others.
pub proof fn code_carries_out_changes(shell: Shell, env: Vars, changes: Seq<Change>)
    requires
        forall|i: int|
            0 <= i < changes.len() ==> identifier((#[trigger] changes[i]).key) && (
            changes[i].value matches Some(v) ==> sayable(shell, v)),
    ensures
        evaluated(shell, env, emission(shell, change_lines(shell, changes))) == Some(
            apply_changes(env, changes),
        ),
{
    if shell == Shell::Posix {
        assert forall|i: int| 0 <= i < changes.len() implies identifier(#[trigger] changes[i].key) by {
            assert(identifier(changes[i].key));
        }
        posix_code_carries_out_changes(env, changes);
    } else {
        assert forall|i: int| 0 <= i < changes.len() implies plain_change(#[trigger] changes[i]) by {
            assert(identifier(changes[i].key));
        }
        if shell == Shell::PowerShell {
            powershell_code_carries_out_changes(env, changes);
        } else {
            batch_file_carries_out_changes(env, changes);
        }
    }
}

/// Activating a profile, whatever the shell and whichever profile was active
/// before: evaluating the code peels that one off and applies this one, what is
/// kept in the stack file is read back as it was, and it knows the way back to
/// the start.
pub proof fn activating_in_any_shell(
    shell: Shell,
    start: Vars,
    env: Vars,
    name: Text,
    content: Text,
    stack: Option<Result<Text, Text>>,
    quiet: bool,
    hint: bool,
)
    requires
        name_problem(name) is None,
        settings(content, env) is Ok,
        loaded_stack(stack) is Ok,
        remembers(loaded_stack(stack)->Ok_0, env, start),
        sayable_settings(shell, settings(content, env)->Ok_0),
        loaded_stack(stack)->Ok_0 matches Some(old) ==> sayable_entries(shell, old.entries),
    ensures
        ({
            let previous = loaded_stack(stack)->Ok_0;
            let made = settings(content, env)->Ok_0;
            let after = apply_changes(env, activation_changes(name, made, previous));
            activation(name, quiet, shell, Some(Ok(content)), env, stack, hint) matches Ok(plan) && {
                &&& evaluated(shell, env, plan.emitted) == Some(after)
                &&& forall|key: Text| #[trigger] lookup(after, key) == applied(start, made, name, key)
                &&& remembers(Some(plan.stack), after, start)
                &&& plan.stack.profile == name
                &&& loaded_stack(Some(Ok(stack_text(plan.stack)))) == Ok::<
                    Option<Record>,
                    LoadFault,
                >(Some(plan.stack))
            }
        }),
{
    let previous = loaded_stack(stack)->Ok_0;
    let made = settings(content, env)->Ok_0;
    let record = activation_record(name, made, env, previous);
    let changes = activation_changes(name, made, previous);
    assert(env_file(Ok(content), env) == Ok::<Seq<Setting>, EnvFileFault>(made));
    names_are_valid(content, env);
    if let Some(Ok(text)) = stack {
        restored_names_are_valid(text);
    }
    lemma_name_is_sayable(shell, name);
    let peeled = match previous {
        Some(old) => undo_changes(old.entries),
        None => Seq::empty(),
    };
    assert forall|i: int| 0 <= i < changes.len() implies identifier((#[trigger] changes[i]).key) && (
    changes[i].value matches Some(v) ==> sayable(shell, v)) by {
        if i < peeled.len() {
            let old = previous->0;
            let j: int = old.entries.len() - 1 - i;
            assert(changes[i] == put_back(old.entries[j]));
            assert(identifier(old.entries[j].key));
        } else if i < peeled.len() + made.len() {
            let j: int = i - peeled.len();
            assert(changes[i] == setting_changes(made)[j]);
            assert(identifier(made[j].key));
            assert(sayable(shell, made[j].value));
        }
    }
    code_carries_out_changes(shell, env, changes);
    lemma_kept_by_the_file(name, made, env, previous);
    activation_remembers_the_start(start, env, previous, name, made);
    let after = apply_changes(env, changes);
    assert forall|key: Text| #[trigger] lookup(after, key) == applied(start, made, name, key) by {
        activation_applies_the_profile(start, env, previous, name, made, key);
    }
}

/// Loading the startup profile in a fresh shell, whatever the shell.
pub proof fn autoloading_in_any_shell(
    shell: Shell,
    env: Vars,
    profile: Text,
    content: Text,
    origin: Text,
)
    requires
        keepable_profile(profile),
        settings(content, env) is Ok,
        sayable_settings(shell, settings(content, env)->Ok_0),
    ensures
        ({
            let made = settings(content, env)->Ok_0;
            let after = apply_changes(env, activation_changes(profile, made, None));
            autoload(profile, shell, origin, Some(Ok(content)), env) matches Ok(
                AutoloadPlan::Loaded { emitted, stack },
            ) && evaluated(shell, env, emitted) == Some(after) && remembers(Some(stack), after, env)
                && (forall|key: Text| #[trigger]
                lookup(after, key) == applied(env, made, profile, key)) && stack.profile == profile
                && loaded_stack(Some(Ok(stack_text(stack)))) == Ok::<Option<Record>, LoadFault>(
                Some(stack),
            )
        }),
{
    let made = settings(content, env)->Ok_0;
    let changes = activation_changes(profile, made, None);
    assert(env_file(Ok(content), env) == Ok::<Seq<Setting>, EnvFileFault>(made));
    names_are_valid(content, env);
    reveal_strlit("ENVC_ACTIVE");
    assert(profile.len() > 0 && !profile.contains('\n'));
    assert forall|i: int| 0 <= i < changes.len() implies identifier((#[trigger] changes[i]).key) && (
    changes[i].value matches Some(v) ==> sayable(shell, v)) by {
        if i < made.len() {
            assert(changes[i] == setting_changes(made)[i]);
            assert(identifier(made[i].key));
            assert(sayable(shell, made[i].value));
        }
    }
    code_carries_out_changes(shell, env, changes);
    let record = activation_record(profile, made, env, None);
    assert forall|i: int| 0 <= i < record.entries.len() implies identifier(
        #[trigger] record.entries[i].key,
    ) by {
        assert(identifier(made[i].key));
    }
    a_written_stack_is_read_back(record);
    an_empty_stack_remembers(env);
    activation_remembers_the_start(env, env, None, profile, made);
    let after = apply_changes(env, changes);
    assert forall|key: Text| #[trigger] lookup(after, key) == applied(env, made, profile, key) by {
        activation_applies_the_profile(env, env, None, profile, made, key);
    }
}

/// Deactivating, whatever the shell: evaluating the code lands on the start, less
/// the record of the active profile, and the stack is cleared.
pub proof fn deactivating_in_any_shell(
    shell: Shell,
    start: Vars,
    env: Vars,
    stack: Option<Result<Text, Text>>,
    quiet: bool,
    active: bool,
    hint: bool,
)
    requires
        loaded_stack(stack) matches Ok(Some(s)) && remembers(Some(s), env, start)
            && sayable_entries(shell, s.entries),
    ensures
        ({
            let plan = deactivation(quiet, shell, loaded_stack(stack)->Ok_0, active, hint);
            &&& plan.emitted matches Some(emitted) && evaluated(shell, env, emitted) == Some(
                start.remove(ENVC_ACTIVE_VAR@),
            )
            &&& plan.clear_stack
        }),
{
    let record = loaded_stack(stack)->Ok_0->0;
    let changes = deactivation_changes(record);
    if let Some(Ok(text)) = stack {
        restored_names_are_valid(text);
    }
    reveal_strlit("ENVC_ACTIVE");
    assert forall|i: int| 0 <= i < changes.len() implies identifier((#[trigger] changes[i]).key) && (
    changes[i].value matches Some(v) ==> sayable(shell, v)) by {
        if i < record.entries.len() {
            let j: int = record.entries.len() - 1 - i;
            assert(changes[i] == put_back(record.entries[j]));
            assert(identifier(record.entries[j].key));
        }
    }
    code_carries_out_changes(shell, env, changes);
    deactivation_returns_to_the_start(start, env, record);
}

/// Where there is no stack, deactivating drops the record of the active profile
/// if there is one, in every shell, and does nothing else.
pub proof fn deactivating_without_a_stack(
    shell: Shell,
    env: Vars,
    quiet: bool,
    active: bool,
    hint: bool,
)
    ensures
        ({
            let plan = deactivation(quiet, shell, None, active, hint);
            &&& !plan.clear_stack
            &&& !active ==> plan.emitted is None
            &&& active ==> (plan.emitted matches Some(emitted) && evaluated(shell, env, emitted)
                == Some(env.remove(ENVC_ACTIVE_VAR@)))
        }),
{
    reveal_strlit("ENVC_ACTIVE");
    let change = Change { key: ENVC_ACTIVE_VAR@, value: None };
    let changes = seq![change];
    code_carries_out_changes(shell, env, changes);
    assert(change_lines(shell, changes) =~= seq![change_line(shell, change)]);
    assert(changes.drop_last() =~= Seq::<Change>::empty());
    assert(apply_changes(env, changes.drop_last()) == env);
    assert(apply_changes(env, changes) == env.remove(ENVC_ACTIVE_VAR@));
}

// ---------------------------------------------------------------------------
// Any number of activations
// ---------------------------------------------------------------------------

/// A shell's environment, and what is in the stack file.
pub struct ShellSession {
    pub env: Vars,
    pub stack: Option<Result<Text, Text>>,
}

/// What activating profiles one after the other makes of a shell that started
/// with `env` and no stack: each profile is a name and the content of its file,
/// its code is evaluated and its stack kept as the stack file. Nothing, where one
/// of them is refused or sets a value that the shell cannot be given.
pub open spec fn activated(
    shell: Shell,
    env: Vars,
    profiles: Seq<(Text, Text)>,
    quiet: bool,
    hint: bool,
) -> Option<ShellSession>
    decreases profiles.len(),
{
    if profiles.len() == 0 {
        Some(ShellSession { env, stack: None })
    } else {
        match activated(shell, env, profiles.drop_last(), quiet, hint) {
            Some(before) => {
                let (name, content) = profiles.last();
                match (
                    settings(content, before.env),
                    activation(
                        name,
                        quiet,
                        shell,
                        Some(Ok(content)),
                        before.env,
                        before.stack,
                        hint,
                    ),
                ) {
                    (Ok(made), Ok(plan)) => if sayable_settings(shell, made) {
                        match evaluated(shell, before.env, plan.emitted) {
                            Some(after) => Some(
                                ShellSession {
                                    env: after,
                                    stack: Some(Ok(stack_text(plan.stack))),
                                },
                            ),
                            None => None,
                        }
                    } else {
                        None
                    },
                    _ => None,
                }
            },
            None => None,
        }
    }
}

/// Deactivating gives any shell back as it was, however many profiles were
/// activated one after the other.
pub proof fn deactivating_gives_any_shell_back(
    shell: Shell,
    env: Vars,
    profiles: Seq<(Text, Text)>,
    quiet: bool,
    active: bool,
    hint: bool,
)
    requires
        sayable_vars(shell, env),
        profiles.len() > 0,
        activated(shell, env, profiles, quiet, hint) is Some,
    ensures
        ({
            let session = activated(shell, env, profiles, quiet, hint)->0;
            loaded_stack(session.stack) matches Ok(kept) && ({
                let plan = deactivation(quiet, shell, kept, active, hint);
                &&& plan.emitted matches Some(emitted) && evaluated(shell, session.env, emitted)
                    == Some(env.remove(ENVC_ACTIVE_VAR@))
                &&& plan.clear_stack
            })
        }),
{
    let session = activated(shell, env, profiles, quiet, hint)->0;
    lemma_activated(shell, env, profiles, quiet, hint);
    deactivating_in_any_shell(shell, env, session.env, session.stack, quiet, active, hint);
}

proof fn lemma_activated(
    shell: Shell,
    env: Vars,
    profiles: Seq<(Text, Text)>,
    quiet: bool,
    hint: bool,
)
    requires
        sayable_vars(shell, env),
        activated(shell, env, profiles, quiet, hint) is Some,
    ensures
        ({
            let session = activated(shell, env, profiles, quiet, hint)->0;
            &&& loaded_stack(session.stack) matches Ok(kept) && remembers(kept, session.env, env) && (
            kept matches Some(r) ==> sayable_entries(shell, r.entries)) && (profiles.len() > 0
                ==> kept is Some)
            &&& sayable_vars(shell, session.env)
        }),
    decreases profiles.len(),
{
    if profiles.len() == 0 {
        an_empty_stack_remembers(env);
    } else {
        let shorter = profiles.drop_last();
        lemma_activated(shell, env, shorter, quiet, hint);
        let before = activated(shell, env, shorter, quiet, hint)->0;
        let (name, content) = profiles.last();
        let made = settings(content, before.env)->Ok_0;
        let previous = loaded_stack(before.stack)->Ok_0;
        assert(name_problem(name) is None);
        activating_in_any_shell(
            shell,
            env,
            before.env,
            name,
            content,
            before.stack,
            quiet,
            hint,
        );
        lemma_name_is_sayable(shell, name);
        lemma_sayable_base(shell, before.env, previous);
        lemma_sayable_after(shell, before.env, name, made, previous);
        let record = activation_record(name, made, before.env, previous);
        assert forall|i: int| 0 <= i < record.entries.len() implies ((
        #[trigger] record.entries[i]).prev matches Some(v) ==> sayable(shell, v)) by {
            assert(record.entries[i].prev == lookup(
                base_of(before.env, previous),
                made[i].key,
            ));
        }
    }
}

proof fn lemma_name_is_sayable(shell: Shell, name: Text)
    requires
        name_problem(name) is None,
    ensures
        sayable(shell, name),
        identifier(ENVC_ACTIVE_VAR@),
{
    reveal_strlit("ENVC_ACTIVE");
    profile_names_are_keepable(name);
}

proof fn lemma_kept_by_the_file(name: Text, made: Seq<Setting>, env: Vars, previous: Option<Record>)
    requires
        name_problem(name) is None,
        forall|i: int| 0 <= i < made.len() ==> identifier(#[trigger] made[i].key),
    ensures
        ({
            let record = activation_record(name, made, env, previous);
            loaded_stack(Some(Ok(stack_text(record)))) == Ok::<Option<Record>, LoadFault>(
                Some(record),
            )
        }),
{
    let record = activation_record(name, made, env, previous);
    profile_names_are_keepable(name);
    assert forall|i: int| 0 <= i < record.entries.len() implies identifier(
        #[trigger] record.entries[i].key,
    ) by {
        assert(identifier(made[i].key));
    }
    assert(keepable(record));
    a_written_stack_is_read_back(record);
}

proof fn lemma_sayable_base(shell: Shell, env: Vars, previous: Option<Record>)
    requires
        sayable_vars(shell, env),
        previous matches Some(old) ==> sayable_entries(shell, old.entries),
    ensures
        sayable_vars(shell, base_of(env, previous)),
{
    if let Some(old) = previous {
        let back = put_backs(old.entries);
        assert forall|i: int| 0 <= i < back.len() implies ((#[trigger] back[i]).value matches Some(v)
            ==> sayable(shell, v)) by {
            assert(back[i] == put_back(old.entries[i]));
        }
        lemma_sayable_applied(shell, env, back);
    }
}

proof fn lemma_sayable_after(
    shell: Shell,
    env: Vars,
    name: Text,
    made: Seq<Setting>,
    previous: Option<Record>,
)
    requires
        sayable_vars(shell, env),
        sayable(shell, name),
        sayable_settings(shell, made),
        previous matches Some(old) ==> sayable_entries(shell, old.entries),
    ensures
        sayable_vars(shell, apply_changes(env, activation_changes(name, made, previous))),
{
    let changes = activation_changes(name, made, previous);
    let peeled = match previous {
        Some(old) => undo_changes(old.entries),
        None => Seq::empty(),
    };
    assert forall|i: int| 0 <= i < changes.len() implies ((
    #[trigger] changes[i]).value matches Some(v) ==> sayable(shell, v)) by {
        if i < peeled.len() {
            let old = previous->0;
            assert(changes[i] == put_back(old.entries[old.entries.len() - 1 - i]));
        } else if i < peeled.len() + made.len() {
            assert(changes[i] == setting_changes(made)[i - peeled.len()]);
            assert(sayable(shell, made[i - peeled.len()].value));
        }
    }
    lemma_sayable_applied(shell, env, changes);
}

proof fn lemma_sayable_applied(shell: Shell, env: Vars, changes: Seq<Change>)
    requires
        sayable_vars(shell, env),
        forall|i: int|
            0 <= i < changes.len() ==> ((#[trigger] changes[i]).value matches Some(v) ==> sayable(
                shell,
                v,
            )),
    ensures
        sayable_vars(shell, apply_changes(env, changes)),
{
    let after = apply_changes(env, changes);
    assert forall|key: Text| #[trigger] lookup(after, key) matches Some(v) ==> sayable(shell, v) by {
        assert(lookup(env, key) matches Some(v) ==> sayable(shell, v));
        lemma_apply(env, changes, key);
        lemma_last_value(changes, key);
        if let Some(v) = last_value(changes, key) {
            let j = choose|j: int|
                0 <= j < changes.len() && (#[trigger] changes[j]).key == key && changes[j].value
                    == v;
            assert(changes[j].value == v);
        }
    }
}

// ---------------------------------------------------------------------------
// Values of any kind
// ---------------------------------------------------------------------------

/// The change that one line of code asks a shell for. A batch file cannot tell an
/// empty value from none.
pub open spec fn asked(shell: Shell, line: Text) -> Option<Change> {
    match shell {
        Shell::Posix => if begins(line, "export "@) {
            let body = line.skip(7);
            let eq: int = find(body, '=', 0);
            match shell_word(body.skip(eq + 1), false) {
                Some(w) => Some(Change { key: body.take(eq), value: Some(w) }),
                None => None,
            }
        } else if begins(line, "unset "@) {
            Some(Change { key: line.skip(6), value: None })
        } else {
            None
        },
        Shell::PowerShell => if begins(line, "$env:"@) {
            let body = line.skip(5);
            let eq: int = find(body, '=', 0);
            match powershell_literal(body.skip(eq + 2)) {
                Some(v) => if body[eq + 1] == '\'' {
                    Some(Change { key: body.take(eq), value: Some(v) })
                } else {
                    None
                },
                None => None,
            }
        } else if begins(line, "Remove-Item Env:"@) {
            let body = line.skip(16);
            let end: int = find(body, ' ', 0);
            if body.skip(end) == " -ErrorAction SilentlyContinue"@ {
                Some(Change { key: body.take(end), value: None })
            } else {
                None
            }
        } else {
            None
        },
        Shell::Cmd => if begins(line, "set \""@) && line.len() > 5 && line.last() == '"' {
            let body = line.subrange(5, line.len() - 1);
            let eq: int = find(body, '=', 0);
            match batch_text(body.skip(eq + 1)) {
                Some(v) => Some(
                    Change {
                        key: body.take(eq),
                        value: if v.len() > 0 {
                            Some(v)
                        } else {
                            None
                        },
                    },
                ),
                None => None,
            }
        } else {
            None
        },
    }
}

/// A change as a shell can be asked for it.
pub open spec fn askable(shell: Shell, change: Change) -> Change {
    if shell == Shell::Cmd && change.value == Some(Text::empty()) {
        Change { key: change.key, value: None }
    } else {
        change
    }
}

/// Whether lines ask a shell for changes, one line for each, in order.
pub open spec fn asks_for(shell: Shell, code: Seq<Text>, changes: Seq<Change>) -> bool {
    &&& code.len() == changes.len()
    &&& forall|i: int|
        0 <= i < code.len() ==> asked(shell, #[trigger] code[i]) == Some(
            askable(shell, changes[i]),
        )
}

/// What is handed to a shell that holds exactly the given lines.
pub open spec fn holds_lines(shell: Shell, emitted: Emission, code: Seq<Text>) -> bool {
    match emitted {
        Emission::Printed(text) => shell != Shell::Cmd && text == unlines(code),
        Emission::Batch(text) => shell == Shell::Cmd && text == crlf_lines(
            seq!["@echo off"@] + code,
        ),
    }
}

/// Each change is asked for by its line, whatever the value holds.
pub proof fn every_change_has_its_line(shell: Shell, change: Change)
    requires
        identifier(change.key),
    ensures
        asked(shell, change_line(shell, change)) == Some(askable(shell, change)),
{
    reveal_strlit("export ");
    reveal_strlit("unset ");
    reveal_strlit("=");
    reveal_strlit("$env:");
    reveal_strlit("Remove-Item Env:");
    reveal_strlit(" -ErrorAction SilentlyContinue");
    reveal_strlit("set \"");
    reveal_strlit("\"");
    reveal_strlit("");
    reveal_strlit("%%");
    let key = change.key;
    let line = change_line(shell, change);
    assert forall|j: int| 0 <= j < key.len() implies #[trigger] key[j] != '=' && key[j] != ' ' by {
        assert(name_char(key[j]));
    }
    match (shell, change.value) {
        (Shell::Posix, Some(v)) => {
            posix_quoting_round_trips(v);
            let body = line.skip(7);
            assert(line.take(7) =~= "export "@);
            assert(body =~= key + "="@ + quoted(v));
            lemma_find_is(body, '=', 0, key.len() as int);
            assert(body.take(key.len() as int) =~= key);
            assert(body.skip(key.len() as int + 1) =~= quoted(v));
        },
        (Shell::Posix, None) => {
            assert(line[0] == 'u' && "export "@[0] == 'e');
            if begins(line, "export "@) {
                assert(line.take(7)[0] == line[0]);
            }
            assert(line.take(6) =~= "unset "@);
            assert(line.skip(6) =~= key);
        },
        (Shell::PowerShell, Some(v)) => {
            let literal = quoted_powershell(v);
            powershell_quoting_round_trips(v);
            let body = line.skip(5);
            assert(line.take(5) =~= "$env:"@);
            assert(body =~= key + "="@ + literal);
            lemma_find_is(body, '=', 0, key.len() as int);
            assert(body.take(key.len() as int) =~= key);
            assert(literal.len() > 0) by {
                reveal_strlit("'");
            }
            assert(body[key.len() as int + 1] == literal[0]);
            assert(body.skip(key.len() as int + 2) =~= literal.drop_first());
        },
        (Shell::PowerShell, None) => {
            let tail = " -ErrorAction SilentlyContinue"@;
            let body = line.skip(16);
            assert(line[0] == 'R' && "$env:"@[0] == '$');
            if begins(line, "$env:"@) {
                assert(line.take(5)[0] == line[0]);
            }
            assert(line.take(16) =~= "Remove-Item Env:"@);
            assert(body =~= key + tail);
            lemma_find_is(body, ' ', 0, key.len() as int);
            assert(body.take(key.len() as int) =~= key);
            assert(body.skip(key.len() as int) =~= tail);
        },
        (Shell::Cmd, value) => {
            let v = match value {
                Some(v) => v,
                None => ""@,
            };
            let written = replace(v, '%', "%%"@);
            batch_percents_round_trip(v);
            assert(line == "set \""@ + key + "="@ + written + "\""@);
            assert(line.take(5) =~= "set \""@);
            assert(line.last() == '"');
            let body = line.subrange(5, line.len() - 1);
            assert(body =~= key + "="@ + written);
            lemma_find_is(body, '=', 0, key.len() as int);
            assert(body.take(key.len() as int) =~= key);
            assert(body.skip(key.len() as int + 1) =~= written);
            if v.len() == 0 {
                assert(v =~= Text::empty());
            }
        },
    }
}

/// The code for changes asks for each of them on a line of its own, in order,
/// whatever their values hold; and what is handed to the shell holds those lines
/// and nothing else.
pub proof fn every_change_is_asked_for(shell: Shell, changes: Seq<Change>)
    requires
        forall|i: int| 0 <= i < changes.len() ==> identifier(#[trigger] changes[i].key),
    ensures
        asks_for(shell, change_lines(shell, changes), changes),
        holds_lines(
            shell,
            emission(shell, change_lines(shell, changes)),
            change_lines(shell, changes),
        ),
{
    let code = change_lines(shell, changes);
    assert forall|i: int| 0 <= i < code.len() implies asked(shell, #[trigger] code[i]) == Some(
        askable(shell, changes[i]),
    ) by {
        assert(identifier(changes[i].key));
        every_change_has_its_line(shell, changes[i]);
    }
    if shell == Shell::Cmd {
        reveal_strlit("@echo off");
        reveal_strlit("@echo off\r\n");
        reveal_strlit("\r\n");
        let head = seq!["@echo off"@];
        lemma_crlf_join(head, code);
        assert(head.drop_last() =~= Seq::<Text>::empty());
        assert(crlf_lines(Seq::<Text>::empty()) =~= Seq::<char>::empty());
        assert(crlf_lines(head) =~= "@echo off\r\n"@);
    }
}

/// Activating asks the shell, whatever it is and whatever the values hold, first
/// to put back what the previous profile replaced, the newest first, and then to
/// set each variable of this one and the record of its name.
pub proof fn activation_asks_for_every_change(
    shell: Shell,
    env: Vars,
    name: Text,
    content: Text,
    stack: Option<Result<Text, Text>>,
    quiet: bool,
    hint: bool,
) -> (code: Seq<Text>)
    requires
        name_problem(name) is None,
        settings(content, env) is Ok,
        loaded_stack(stack) is Ok,
    ensures
        activation(name, quiet, shell, Some(Ok(content)), env, stack, hint) matches Ok(plan)
            && holds_lines(shell, plan.emitted, code),
        ({
            let made = settings(content, env)->Ok_0;
            let peeled = entries_of(loaded_stack(stack)->Ok_0);
            let n: int = peeled.len() as int;
            &&& code.len() == n + made.len() + 1
            &&& forall|i: int|
                0 <= i < n ==> asked(shell, #[trigger] code[i]) == Some(
                    askable(
                        shell,
                        Change { key: peeled[n - 1 - i].key, value: peeled[n - 1 - i].prev },
                    ),
                )
            &&& forall|i: int|
                n <= i < n + made.len() ==> asked(shell, #[trigger] code[i]) == Some(
                    askable(
                        shell,
                        Change { key: made[i - n].key, value: Some(made[i - n].value) },
                    ),
                )
            &&& asked(shell, code.last()) == Some(
                Change { key: ENVC_ACTIVE_VAR@, value: Some(name) },
            )
        }),
{
    let previous = loaded_stack(stack)->Ok_0;
    let made = settings(content, env)->Ok_0;
    let changes = activation_changes(name, made, previous);
    assert(env_file(Ok(content), env) == Ok::<Seq<Setting>, EnvFileFault>(made));
    names_are_valid(content, env);
    if let Some(Ok(text)) = stack {
        restored_names_are_valid(text);
    }
    lemma_name_is_sayable(shell, name);
    profile_names_are_keepable(name);
    let peeled = entries_of(previous);
    let n: int = peeled.len() as int;
    let undo = match previous {
        Some(old) => undo_changes(old.entries),
        None => Seq::empty(),
    };
    assert(undo.len() == n);
    assert forall|i: int| 0 <= i < n implies #[trigger] changes[i] == put_back(peeled[n - 1 - i]) by {}
    assert forall|i: int| n <= i < n + made.len() implies #[trigger] changes[i] == (Change {
        key: made[i - n].key,
        value: Some(made[i - n].value),
    }) by {
        assert(changes[i] == setting_changes(made)[i - n]);
    }
    assert forall|i: int| 0 <= i < changes.len() implies identifier(#[trigger] changes[i].key) by {
        if i < n {
            assert(changes[i] == put_back(peeled[n - 1 - i]));
            assert(identifier(peeled[n - 1 - i].key));
        } else if i < n + made.len() {
            assert(identifier(made[i - n].key));
        }
    }
    every_change_is_asked_for(shell, changes);
    let code = change_lines(shell, changes);
    assert forall|i: int| 0 <= i < n implies asked(shell, #[trigger] code[i]) == Some(
        askable(shell, Change { key: peeled[n - 1 - i].key, value: peeled[n - 1 - i].prev }),
    ) by {
        assert(changes[i] == put_back(peeled[n - 1 - i]));
    }
    assert forall|i: int| n <= i < n + made.len() implies asked(shell, #[trigger] code[i]) == Some(
        askable(shell, Change { key: made[i - n].key, value: Some(made[i - n].value) }),
    ) by {
        assert(changes[i] == (Change { key: made[i - n].key, value: Some(made[i - n].value) }));
    }
    assert(code.last() == code[n + made.len()]);
    assert(changes[n + made.len()] == (Change { key: ENVC_ACTIVE_VAR@, value: Some(name) }));
    code
}

/// Deactivating asks the shell, whatever it is and whatever the values hold, to
/// put back what the profile replaced, the newest first, and to drop the record
/// of its name.
pub proof fn deactivation_asks_for_every_change(
    shell: Shell,
    stack: Option<Result<Text, Text>>,
    quiet: bool,
    active: bool,
    hint: bool,
) -> (code: Seq<Text>)
    requires
        loaded_stack(stack) matches Ok(Some(_)),
    ensures
        deactivation(quiet, shell, loaded_stack(stack)->Ok_0, active, hint).emitted matches Some(
            emitted,
        ) && holds_lines(shell, emitted, code),
        ({
            let entries = entries_of(loaded_stack(stack)->Ok_0);
            let n: int = entries.len() as int;
            &&& code.len() == n + 1
            &&& forall|i: int|
                0 <= i < n ==> asked(shell, #[trigger] code[i]) == Some(
                    askable(
                        shell,
                        Change { key: entries[n - 1 - i].key, value: entries[n - 1 - i].prev },
                    ),
                )
            &&& asked(shell, code.last()) == Some(Change { key: ENVC_ACTIVE_VAR@, value: None })
        }),
{
    let record = loaded_stack(stack)->Ok_0->0;
    let changes = deactivation_changes(record);
    if let Some(Ok(text)) = stack {
        restored_names_are_valid(text);
    }
    reveal_strlit("ENVC_ACTIVE");
    let entries = record.entries;
    let n: int = entries.len() as int;
    assert forall|i: int| 0 <= i < changes.len() implies identifier(#[trigger] changes[i].key) by {
        if i < n {
            assert(changes[i] == put_back(entries[n - 1 - i]));
            assert(identifier(entries[n - 1 - i].key));
        }
    }
    every_change_is_asked_for(shell, changes);
    let code = change_lines(shell, changes);
    assert forall|i: int| 0 <= i < n implies asked(shell, #[trigger] code[i]) == Some(
        askable(shell, Change { key: entries[n - 1 - i].key, value: entries[n - 1 - i].prev }),
    ) by {
        assert(changes[i] == put_back(entries[n - 1 - i]));
    }
    assert(code.last() == code[n]);
    code
}

/// What is remembered of an activation, whatever was active before: each variable
/// that the profile sets, in order, with what it installed and what the variable
/// holds once the stack's own entries are put back.
pub proof fn activation_remembers_every_setting(
    shell: Shell,
    env: Vars,
    name: Text,
    content: Text,
    stack: Option<Result<Text, Text>>,
    quiet: bool,
    hint: bool,
    i: int,
)
    requires
        name_problem(name) is None,
        settings(content, env) is Ok,
        loaded_stack(stack) is Ok,
        0 <= i < settings(content, env)->Ok_0.len(),
    ensures
        ({
            let made = settings(content, env)->Ok_0;
            let before = recorded(entries_of(loaded_stack(stack)->Ok_0), made[i].key);
            activation(name, quiet, shell, Some(Ok(content)), env, stack, hint) matches Ok(plan) && {
                &&& plan.stack.profile == name
                &&& plan.stack.entries.len() == made.len()
                &&& plan.stack.entries[i] == (Override {
                    key: made[i].key,
                    prev: match before {
                        Some(prev) => prev,
                        None => lookup(env, made[i].key),
                    },
                    now: Some(made[i].value),
                })
            }
        }),
{
    let previous = loaded_stack(stack)->Ok_0;
    let made = settings(content, env)->Ok_0;
    assert(env_file(Ok(content), env) == Ok::<Seq<Setting>, EnvFileFault>(made));
    let key = made[i].key;
    if let Some(old) = previous {
        let back = put_backs(old.entries);
        lemma_apply(env, back, key);
        lemma_recorded_is_last(old.entries, key);
    }
}

/// What a record says of a variable is what putting it back gives it last.
proof fn lemma_recorded_is_last(entries: Seq<Override>, key: Text)
    ensures
        recorded(entries, key) == last_value(put_backs(entries), key),
    decreases entries.len(),
{
    if entries.len() > 0 {
        let back = put_backs(entries);
        lemma_recorded_is_last(entries.drop_last(), key);
        assert(back.drop_last() =~= put_backs(entries.drop_last()));
        assert(back.last() == put_back(entries.last()));
    }
}

} // verus!
