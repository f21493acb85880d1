//! What `activate` overrides, `deactivate` puts back.

use vstd::prelude::*;

use crate::activation::{
    activation_changes, activation_record, base_of, deactivation_changes, ENVC_ACTIVE_VAR,
};
use crate::dotenv::Setting;
use crate::env::{lookup, Vars};
use crate::shell::{apply_changes, Change};
use crate::stack::{
    entries_of, put_back, put_backs, setting_changes, undo_changes, Override, Record,
};
use crate::text::Text;

verus! {

/// The value that the last change to `key` gives it, if one does: a value, or
/// `None` where the change unsets it.
pub open spec fn last_value(changes: Seq<Change>, key: Text) -> Option<Option<Text>>
    decreases changes.len(),
{
    if changes.len() == 0 {
        None
    } else if changes.last().key == key {
        Some(changes.last().value)
    } else {
        last_value(changes.drop_last(), key)
    }
}

/// The value that the last setting of `key` gives it, if one does.
pub open spec fn last_setting(settings: Seq<Setting>, key: Text) -> Option<Text>
    decreases settings.len(),
{
    if settings.len() == 0 {
        None
    } else if settings.last().key == key {
        Some(settings.last().value)
    } else {
        last_setting(settings.drop_last(), key)
    }
}

/// Whether entries still know how to get a variable from `env` back to `start`:
/// where they hold it, they hold it with the value from the start, and where
/// they do not, it has that value now.
pub open spec fn keeps(entries: Seq<Override>, env: Vars, start: Vars, key: Text) -> bool {
    &&& forall|i: int|
        0 <= i < entries.len() && (#[trigger] entries[i]).key == key ==> entries[i].prev == lookup(
            start,
            key,
        )
    &&& (forall|i: int| 0 <= i < entries.len() ==> (#[trigger] entries[i]).key != key) ==> lookup(
        env,
        key,
    ) == lookup(start, key)
}

/// Whether a stack still knows how to get from `env` back to `start`. The
/// variable that records the active profile is envc's own.
pub open spec fn remembers(stack: Option<Record>, env: Vars, start: Vars) -> bool {
    forall|key: Text|
        key != ENVC_ACTIVE_VAR@ ==> #[trigger] keeps(entries_of(stack), env, start, key)
}

/// Where nothing is on the stack, where the shell is is where it started.
pub proof fn an_empty_stack_remembers(start: Vars)
    ensures
        remembers(None, start, start),
{
}

/// Activating a profile keeps the way back to the start, whichever profile was
/// active before: the stack always describes the environment from before any
/// profile was applied.
pub proof fn activation_remembers_the_start(
    start: Vars,
    env: Vars,
    previous: Option<Record>,
    name: Text,
    settings: Seq<Setting>,
)
    requires
        remembers(previous, env, start),
    ensures
        remembers(
            Some(activation_record(name, settings, env, previous)),
            apply_changes(env, activation_changes(name, settings, previous)),
            start,
        ),
{
    let record = activation_record(name, settings, env, previous);
    let after = apply_changes(env, activation_changes(name, settings, previous));
    let base = base_of(env, previous);
    assert forall|key: Text| key != ENVC_ACTIVE_VAR@ implies #[trigger] keeps(
        record.entries,
        after,
        start,
        key,
    ) by {
        lemma_peeled(previous, env, start, key);
        if forall|i: int| 0 <= i < record.entries.len() ==> (#[trigger] record.entries[i]).key
            != key {
            assert forall|i: int| 0 <= i < settings.len() implies (#[trigger] settings[i]).key
                != key by {
                assert(record.entries[i].key != key);
            }
            lemma_last_setting(settings, key);
            lemma_after_activation(env, previous, name, settings, key);
        }
    }
}

/// Deactivating lands on the start again, whatever was activated in between:
/// every variable has its old value, and those that were not set are unset.
pub proof fn deactivation_returns_to_the_start(start: Vars, env: Vars, stack: Record)
    requires
        remembers(Some(stack), env, start),
    ensures
        apply_changes(env, deactivation_changes(stack)) == start.remove(ENVC_ACTIVE_VAR@),
{
    let changes = deactivation_changes(stack);
    let undo = undo_changes(stack.entries);
    let after = apply_changes(env, changes);
    assert(changes.drop_last() =~= undo);
    let goal = start.remove(ENVC_ACTIVE_VAR@);
    assert forall|key: Text| #[trigger] lookup(after, key) == lookup(goal, key) by {
        if key != ENVC_ACTIVE_VAR@ {
            lemma_undone(stack, env, start, key);
        }
    }
    lemma_same_vars(after, goal);
}

/// Deactivating changes no variable that the profile did not set.
pub proof fn deactivation_leaves_the_rest(env: Vars, stack: Record, key: Text)
    requires
        key != ENVC_ACTIVE_VAR@,
        forall|i: int| 0 <= i < stack.entries.len() ==> (#[trigger] stack.entries[i]).key != key,
    ensures
        lookup(apply_changes(env, deactivation_changes(stack)), key) == lookup(env, key),
{
    let changes = deactivation_changes(stack);
    let undo = undo_changes(stack.entries);
    assert(changes.drop_last() =~= undo);
    lemma_apply(env, undo, key);
    lemma_last_value(undo, key);
    if let Some(v) = last_value(undo, key) {
        let j = choose|j: int|
            0 <= j < undo.len() && (#[trigger] undo[j]).key == key && undo[j].value == v;
        assert(undo[j].key == stack.entries[stack.entries.len() - 1 - j].key);
    }
}

/// Activating a profile and deactivating it gives the environment from before.
pub proof fn deactivate_undoes_activate(env: Vars, name: Text, settings: Seq<Setting>)
    ensures
        apply_changes(
            apply_changes(env, activation_changes(name, settings, None)),
            deactivation_changes(activation_record(name, settings, env, None)),
        ) == env.remove(ENVC_ACTIVE_VAR@),
{
    an_empty_stack_remembers(env);
    activation_remembers_the_start(env, env, None, name, settings);
    deactivation_returns_to_the_start(
        env,
        apply_changes(env, activation_changes(name, settings, None)),
        activation_record(name, settings, env, None),
    );
}

/// Activating one profile, activating another and deactivating lands back on the
/// shell you started with, not on the first profile.
pub proof fn deactivate_undoes_a_switch(
    env: Vars,
    first: Text,
    first_settings: Seq<Setting>,
    second: Text,
    second_settings: Seq<Setting>,
)
    ensures
        ({
            let one = activation_record(first, first_settings, env, None);
            let env1 = apply_changes(env, activation_changes(first, first_settings, None));
            let two = activation_record(second, second_settings, env1, Some(one));
            let env2 = apply_changes(env1, activation_changes(second, second_settings, Some(one)));
            apply_changes(env2, deactivation_changes(two)) == env.remove(ENVC_ACTIVE_VAR@)
        }),
{
    let one = activation_record(first, first_settings, env, None);
    let env1 = apply_changes(env, activation_changes(first, first_settings, None));
    let two = activation_record(second, second_settings, env1, Some(one));
    let env2 = apply_changes(env1, activation_changes(second, second_settings, Some(one)));
    an_empty_stack_remembers(env);
    activation_remembers_the_start(env, env, None, first, first_settings);
    activation_remembers_the_start(env, env1, Some(one), second, second_settings);
    deactivation_returns_to_the_start(env, env2, two);
}

/// Activating a profile overrides: every variable that it sets has the value it
/// says (the last, where it says several), every other one the value from the
/// start, and the profile's name is recorded.
pub proof fn activation_applies_the_profile(
    start: Vars,
    env: Vars,
    previous: Option<Record>,
    name: Text,
    settings: Seq<Setting>,
    key: Text,
)
    requires
        remembers(previous, env, start),
    ensures
        lookup(apply_changes(env, activation_changes(name, settings, previous)), key) == if key
            == ENVC_ACTIVE_VAR@ {
            Some(name)
        } else {
            match last_setting(settings, key) {
                Some(v) => Some(v),
                None => lookup(start, key),
            }
        },
{
    if key != ENVC_ACTIVE_VAR@ {
        lemma_after_activation(env, previous, name, settings, key);
        lemma_peeled(previous, env, start, key);
    }
}

/// The values that are remembered of a profile's variables are those from the
/// start, and what it installed stands beside them.
pub proof fn the_stack_holds_both_sides(
    start: Vars,
    env: Vars,
    previous: Option<Record>,
    name: Text,
    settings: Seq<Setting>,
    i: int,
)
    requires
        remembers(previous, env, start),
        0 <= i < settings.len(),
        settings[i].key != ENVC_ACTIVE_VAR@,
    ensures
        activation_record(name, settings, env, previous).entries[i] == (Override {
            key: settings[i].key,
            prev: lookup(start, settings[i].key),
            now: Some(settings[i].value),
        }),
{
    lemma_peeled(previous, env, start, settings[i].key);
}

pub proof fn lemma_same_vars(a: Vars, b: Vars)
    requires
        forall|key: Text| #[trigger] lookup(a, key) == lookup(b, key),
    ensures
        a == b,
{
    assert forall|key: Text| #[trigger] a.dom().contains(key) implies b.dom().contains(key)
        && a[key] == b[key] by {
        assert(lookup(a, key) == lookup(b, key));
    }
    assert forall|key: Text| #[trigger] b.dom().contains(key) implies a.dom().contains(key) by {
        assert(lookup(a, key) == lookup(b, key));
    }
    assert(a.dom() =~= b.dom());
    assert(a =~= b);
}

/// What changes make of one variable.
pub proof fn lemma_apply(env: Vars, changes: Seq<Change>, key: Text)
    ensures
        lookup(apply_changes(env, changes), key) == match last_value(changes, key) {
            Some(v) => v,
            None => lookup(env, key),
        },
    decreases changes.len(),
{
    if changes.len() > 0 {
        lemma_apply(env, changes.drop_last(), key);
    }
}

pub proof fn lemma_last_value(changes: Seq<Change>, key: Text)
    ensures
        match last_value(changes, key) {
            Some(v) => exists|j: int|
                0 <= j < changes.len() && (#[trigger] changes[j]).key == key && changes[j].value
                    == v,
            None => forall|j: int| 0 <= j < changes.len() ==> (#[trigger] changes[j]).key != key,
        },
    decreases changes.len(),
{
    if changes.len() > 0 {
        let shorter = changes.drop_last();
        lemma_last_value(shorter, key);
        if changes.last().key == key {
            assert(changes[changes.len() - 1].key == key);
        } else {
            match last_value(shorter, key) {
                Some(v) => {
                    let j = choose|j: int|
                        0 <= j < shorter.len() && (#[trigger] shorter[j]).key == key
                            && shorter[j].value == v;
                    assert(changes[j].key == key);
                },
                None => {
                    assert forall|j: int| 0 <= j < changes.len() implies (#[trigger] changes[j]).key
                        != key by {
                        if j < shorter.len() {
                            assert(shorter[j].key != key);
                        }
                    }
                },
            }
        }
    }
}

proof fn lemma_last_value_join(a: Seq<Change>, b: Seq<Change>, key: Text)
    ensures
        last_value(a + b, key) == match last_value(b, key) {
            Some(v) => Some(v),
            None => last_value(a, key),
        },
    decreases b.len(),
{
    if b.len() == 0 {
        assert(a + b =~= a);
    } else {
        assert((a + b).drop_last() =~= a + b.drop_last());
        lemma_last_value_join(a, b.drop_last(), key);
    }
}

proof fn lemma_last_setting(settings: Seq<Setting>, key: Text)
    ensures
        last_value(setting_changes(settings), key) == match last_setting(settings, key) {
            Some(v) => Some(Some(v)),
            None => None,
        },
        (forall|i: int| 0 <= i < settings.len() ==> (#[trigger] settings[i]).key != key)
            ==> last_setting(settings, key) is None,
    decreases settings.len(),
{
    if settings.len() > 0 {
        let shorter = settings.drop_last();
        lemma_last_setting(shorter, key);
        assert(setting_changes(settings).drop_last() =~= setting_changes(shorter));
        if forall|i: int| 0 <= i < settings.len() ==> (#[trigger] settings[i]).key != key {
            assert(settings[settings.len() - 1].key != key);
            assert forall|i: int| 0 <= i < shorter.len() implies (#[trigger] shorter[i]).key
                != key by {
                assert(settings[i].key != key);
            }
        }
    }
}

/// Undoing a stack that remembers gives a variable its value from the start.
proof fn lemma_undone(stack: Record, env: Vars, start: Vars, key: Text)
    requires
        remembers(Some(stack), env, start),
        key != ENVC_ACTIVE_VAR@,
    ensures
        lookup(apply_changes(env, undo_changes(stack.entries)), key) == lookup(start, key),
{
    let undo = undo_changes(stack.entries);
    lemma_apply(env, undo, key);
    lemma_last_value(undo, key);
    assert(keeps(entries_of(Some(stack)), env, start, key));
    match last_value(undo, key) {
        Some(v) => {
            let j = choose|j: int|
                0 <= j < undo.len() && (#[trigger] undo[j]).key == key && undo[j].value == v;
            let i: int = stack.entries.len() - 1 - j;
            assert(undo[j] == put_back(stack.entries[i]));
        },
        None => {
            assert forall|i: int| 0 <= i < stack.entries.len() implies (
            #[trigger] stack.entries[i]).key != key by {
                let j: int = stack.entries.len() - 1 - i;
                assert(undo[j] == put_back(stack.entries[i]));
                assert(undo[j].key != key);
            }
        },
    }
}

/// The base that activation reads is the start.
proof fn lemma_peeled(previous: Option<Record>, env: Vars, start: Vars, key: Text)
    requires
        remembers(previous, env, start),
        key != ENVC_ACTIVE_VAR@,
    ensures
        lookup(base_of(env, previous), key) == lookup(start, key),
        match previous {
            Some(old) => lookup(apply_changes(env, undo_changes(old.entries)), key) == lookup(
                start,
                key,
            ),
            None => lookup(env, key) == lookup(start, key),
        },
{
    assert(keeps(entries_of(previous), env, start, key));
    if let Some(old) = previous {
        lemma_undone(old, env, start, key);
        let back = put_backs(old.entries);
        lemma_apply(env, back, key);
        lemma_last_value(back, key);
        match last_value(back, key) {
            Some(v) => {
                let j = choose|j: int|
                    0 <= j < back.len() && (#[trigger] back[j]).key == key && back[j].value == v;
                assert(back[j] == put_back(old.entries[j]));
            },
            None => {
                assert forall|i: int| 0 <= i < old.entries.len() implies (
                #[trigger] old.entries[i]).key != key by {
                    assert(back[i] == put_back(old.entries[i]));
                    assert(back[i].key != key);
                }
            },
        }
    }
}

/// What activation makes of one variable.
proof fn lemma_after_activation(
    env: Vars,
    previous: Option<Record>,
    name: Text,
    settings: Seq<Setting>,
    key: Text,
)
    requires
        key != ENVC_ACTIVE_VAR@,
    ensures
        lookup(apply_changes(env, activation_changes(name, settings, previous)), key)
            == match last_setting(settings, key) {
            Some(v) => Some(v),
            None => match previous {
                Some(old) => lookup(apply_changes(env, undo_changes(old.entries)), key),
                None => lookup(env, key),
            },
        },
{
    let all = activation_changes(name, settings, previous);
    let peeled = match previous {
        Some(old) => undo_changes(old.entries),
        None => Seq::empty(),
    };
    let made = setting_changes(settings);
    assert(all.drop_last() =~= peeled + made);
    lemma_apply(env, all, key);
    lemma_last_value_join(peeled, made, key);
    lemma_last_setting(settings, key);
    lemma_apply(env, peeled, key);
}

} // verus!
