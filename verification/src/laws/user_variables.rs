//! What `enable` overwrites at the user level, `disable` puts back.

use vstd::prelude::*;

use crate::dotenv::Setting;
use crate::env::{lookup, Vars};
use crate::laws::quoting::a_literal_ends_where_it_should;
use crate::laws::session::{
    keeps, last_setting, last_value, lemma_apply, lemma_last_value, lemma_same_vars,
};
use crate::laws::stack_file::{a_written_stack_is_read_back, keepable, keepable_profile};
use crate::loading::{disabling, enabling, EnableTarget, Place};
use crate::shell::{apply_changes, identifier, name_char, quoted_powershell, Change};
use crate::stack::{
    entries_of, put_back, put_backs, setting_changes, stack_state, stack_text, Override, Record,
};
use crate::text::{
    begins, crlf_lines, lemma_find_is, lemma_lines_crlf, lemma_trim_solid, lines, Text,
};
use crate::user_env::{
    asked_keys, carried, first_command, is_set, joined, query_output, query_tail, query_text,
    recorded, run_script, said_last, said_of, script_changes, script_text, setting_keys,
    user_effect, user_effects, user_line, user_override, user_overrides, user_vars, value_part,
    write_text, write_texts,
};

verus! {

/// A query asks for the keys it was made for.
pub proof fn a_query_asks_for_its_keys(keys: Seq<Text>)
    requires
        keys.len() > 0,
        forall|j: int| 0 <= j < keys.len() ==> identifier(#[trigger] keys[j]),
    ensures
        asked_keys(query_text(keys)) == Some(keys),
    decreases keys.len(),
{
    reveal_strlit("'");
    reveal_strlit(",");
    reveal_strlit(
        " | ForEach-Object { $v = [Environment]::GetEnvironmentVariable($_,'User'); if ($null -eq $v) { $_ } else { \"$_=$v\" } }",
    );
    let parts = keys.map_values(|k: Text| "'"@ + k + "'"@);
    let key = keys[0];
    let script = query_text(keys);
    let rest = keys.drop_first();
    assert(identifier(keys[0]));
    assert forall|j: int| 0 <= j < key.len() implies #[trigger] key[j] != '\'' by {
        assert(name_char(key[j]));
    }
    let tail = if keys.len() == 1 {
        query_tail()
    } else {
        seq![','] + query_text(rest)
    };
    if keys.len() > 1 {
        lemma_joined_first(parts, ","@);
        assert(parts.drop_first() =~= rest.map_values(|k: Text| "'"@ + k + "'"@));
        assert forall|j: int| 0 <= j < rest.len() implies identifier(#[trigger] rest[j]) by {
            assert(identifier(keys[j + 1]));
        }
        a_query_asks_for_its_keys(rest);
    }
    assert(parts[0] == "'"@ + key + "'"@);
    assert(script =~= seq!['\''] + key + seq!['\''] + tail);
    let end: int = key.len() as int + 1;
    lemma_find_is(script, '\'', 1, end);
    assert(script.subrange(1, end) =~= key);
    assert(script.skip(end + 1) =~= tail);
    if keys.len() == 1 {
        assert(seq![key] =~= keys);
    } else {
        assert(tail[0] == ',' && query_tail()[0] == ' ');
        assert(tail.drop_first() =~= query_text(rest));
        assert(seq![key] + rest =~= keys);
    }
}

/// A script makes the changes it was made for, whatever the values hold.
pub proof fn a_script_makes_its_changes(pairs: Seq<Change>)
    requires
        pairs.len() > 0,
        forall|j: int| 0 <= j < pairs.len() ==> identifier(#[trigger] pairs[j].key),
    ensures
        script_text(pairs) matches Some(script) && script_changes(script) == Some(pairs),
    decreases pairs.len(),
{
    reveal_strlit("; ");
    let parts = write_texts(pairs);
    let script = joined(parts, "; "@);
    let first = pairs[0];
    let rest = pairs.drop_first();
    assert(identifier(pairs[0].key));
    assert(parts[0] == write_text(first));
    if pairs.len() == 1 {
        lemma_command(first, Seq::empty());
        assert(script =~= write_text(first) + Seq::<char>::empty());
        assert(seq![first] =~= pairs);
    } else {
        lemma_joined_first(parts, "; "@);
        assert(parts.drop_first() =~= write_texts(rest));
        assert forall|j: int| 0 <= j < rest.len() implies identifier(#[trigger] rest[j].key) by {
            assert(identifier(pairs[j + 1].key));
        }
        a_script_makes_its_changes(rest);
        let more = joined(write_texts(rest), "; "@);
        let tail = "; "@ + more;
        assert(script =~= write_text(first) + tail);
        lemma_command(first, tail);
        assert(tail.skip(2) =~= more);
        assert(seq![first] + rest =~= pairs);
    }
}

/// One command of a script, and what stands behind it.
proof fn lemma_command(pair: Change, rest: Text)
    requires
        identifier(pair.key),
    ensures
        first_command(write_text(pair) + rest) == Some((pair, rest)),
{
    reveal_strlit("[Environment]::SetEnvironmentVariable('");
    reveal_strlit("',");
    reveal_strlit("$null");
    reveal_strlit(",'User')");
    let head = "[Environment]::SetEnvironmentVariable('"@;
    let end = ",'User')"@;
    let key = pair.key;
    let value = match pair.value {
        Some(v) => quoted_powershell(v),
        None => "$null"@,
    };
    let s = write_text(pair) + rest;
    let body = s.skip(head.len() as int);
    assert(s.take(head.len() as int) =~= head);
    assert(body =~= key + "',"@ + value + (end + rest));
    assert forall|j: int| 0 <= j < key.len() implies #[trigger] body[j] != '\'' by {
        assert(body[j] == key[j]);
        assert(name_char(key[j]));
    }
    let q: int = key.len() as int;
    assert(body[q] == '\'' && body[q + 1] == ',');
    lemma_find_is(body, '\'', 0, q);
    assert(body.take(q) =~= key);
    let behind = body.skip(q + 2);
    assert(behind =~= value + (end + rest));
    let tail = end + rest;
    assert(tail[0] == ',');
    match pair.value {
        Some(v) => {
            a_literal_ends_where_it_should(v, tail);
            assert(behind[0] == '\'');
            assert("$null"@[0] == '$');
            if begins(behind, "$null"@) {
                assert(behind.take(5)[0] == behind[0]);
            }
            assert(value_part(behind) == Some((Some(v), tail)));
        },
        None => {
            assert(behind.take(5) =~= "$null"@);
            assert(behind.skip(5) =~= tail);
            assert(value_part(behind) == Some((None::<Text>, tail)));
        },
    }
    assert(tail.take(end.len() as int) =~= end);
    assert(tail.skip(end.len() as int) =~= rest);
}

proof fn lemma_joined_first(parts: Seq<Text>, sep: Text)
    requires
        parts.len() > 1,
    ensures
        joined(parts, sep) == parts[0] + sep + joined(parts.drop_first(), sep),
    decreases parts.len(),
{
    let rest = parts.drop_first();
    let shorter = parts.drop_last();
    if parts.len() == 2 {
        assert(joined(shorter, sep) == parts[0]);
        assert(joined(rest, sep) == parts[1]);
        assert(parts.last() == parts[1]);
    } else {
        lemma_joined_first(shorter, sep);
        assert(shorter.drop_first() =~= rest.drop_last());
        assert(rest.last() == parts.last());
        assert(joined(parts, sep) =~= parts[0] + sep + joined(rest, sep));
    }
}

/// The values are taken from the query's output as they are, where none of them
/// holds a line feed.
pub proof fn the_query_is_understood(vars: Vars, keys: Seq<Text>, i: int)
    requires
        0 <= i < keys.len(),
        forall|j: int| 0 <= j < keys.len() ==> identifier(#[trigger] keys[j]),
        forall|j: int|
            0 <= j < keys.len() ==> (lookup(vars, #[trigger] keys[j]) matches Some(v)
                ==> !v.contains('\n')),
    ensures
        query_output(vars, query_text(keys)) matches Some(output) && said_last(
            user_vars(output),
            keys[i],
        ) == lookup(vars, keys[i]),
{
    a_query_asks_for_its_keys(keys);
    let ls = keys.map_values(|k: Text| said_of(vars, k));
    assert forall|j: int| 0 <= j < ls.len() implies !(#[trigger] ls[j]).contains('\n') by {
        lemma_said(vars, keys, j);
    }
    lemma_lines_crlf(ls);
    let said = user_vars(crlf_lines(ls));
    assert(said.len() == keys.len());
    assert forall|j: int| 0 <= j < keys.len() implies #[trigger] said[j] == (Change {
        key: keys[j],
        value: lookup(vars, keys[j]),
    }) by {
        assert(lines(crlf_lines(ls))[j] == ls[j]);
        lemma_said(vars, keys, j);
    }
    lemma_said_last(said, keys[i], lookup(vars, keys[i]), i);
}

/// Whether a record still knows how to get every user-level variable back to
/// what it held at the start.
pub open spec fn user_remembers(record: Option<Record>, vars: Vars, start: Vars) -> bool {
    forall|key: Text| #[trigger] keeps(entries_of(record), vars, start, key)
}

/// Settings of variables with proper names, to values on one line; one at least.
pub open spec fn one_line_settings(settings: Seq<Setting>) -> bool {
    &&& settings.len() > 0
    &&& forall|i: int|
        0 <= i < settings.len() ==> identifier((#[trigger] settings[i]).key)
            && !settings[i].value.contains('\n')
}

/// Variables whose values are on one line.
pub open spec fn one_line_vars(vars: Vars) -> bool {
    forall|key: Text| #[trigger] lookup(vars, key) matches Some(v) ==> !v.contains('\n')
}

/// Variables that the user environment can hold: empty ones only where `blanks`
/// says so.
pub open spec fn holdable(vars: Vars, blanks: bool) -> bool {
    blanks || forall|key: Text| #[trigger] lookup(vars, key) != Some(Text::empty())
}

/// Making a profile's variables permanent keeps the way back to the start,
/// whichever profile was made permanent before. `output` is what the query
/// prints.
pub proof fn enable_remembers_the_start(
    start: Vars,
    vars: Vars,
    earlier: Option<Record>,
    profile: Text,
    settings: Seq<Setting>,
    output: Text,
    blanks: bool,
)
    requires
        user_remembers(earlier, vars, start),
        one_line_settings(settings),
        one_line_vars(vars),
        query_output(vars, query_text(setting_keys(settings))) == Some(output),
    ensures
        user_remembers(
            Some(
                Record {
                    profile,
                    entries: user_overrides(entries_of(earlier), user_vars(output), settings),
                },
            ),
            apply_changes(vars, user_effects(setting_changes(settings), blanks)),
            start,
        ),
{
    let old_entries = entries_of(earlier);
    let keys = setting_keys(settings);
    let before = user_vars(output);
    let kept = carried(old_entries, settings);
    let made = settings.map_values(|s: Setting| user_override(old_entries, before, s));
    let entries = user_overrides(old_entries, before, settings);
    let set = user_effects(setting_changes(settings), blanks);
    let after = apply_changes(vars, set);
    assert forall|j: int| 0 <= j < keys.len() implies identifier(#[trigger] keys[j]) by {
        assert(identifier(settings[j].key));
    }
    assert forall|key: Text| #[trigger] keeps(entries, after, start, key) by {
        assert(keeps(old_entries, vars, start, key));
        lemma_recorded(old_entries, key);
        lemma_carried(old_entries, settings, key);
        assert forall|i: int| 0 <= i < entries.len() && (#[trigger] entries[i]).key
            == key implies entries[i].prev == lookup(start, key) by {
            if i < kept.len() {
                assert(entries[i] == kept[i]);
            } else {
                let j: int = i - kept.len();
                assert(entries[i] == made[j]);
                assert(keys[j] == key);
                the_query_is_understood(vars, keys, j);
            }
        }
        if forall|i: int| 0 <= i < entries.len() ==> (#[trigger] entries[i]).key != key {
            assert forall|j: int| 0 <= j < settings.len() implies (#[trigger] settings[j]).key
                != key by {
                assert(entries[kept.len() + j] == made[j]);
                assert(entries[kept.len() + j].key != key);
            }
            assert(!is_set(settings, key));
            assert forall|i: int| 0 <= i < old_entries.len() implies (
            #[trigger] old_entries[i]).key != key by {
                if old_entries[i].key == key {
                    let k = choose|k: int| 0 <= k < kept.len() && (#[trigger] kept[k]).key == key;
                    assert(entries[k] == kept[k]);
                }
            }
            lemma_apply(vars, set, key);
            lemma_last_value(set, key);
            if let Some(v) = last_value(set, key) {
                let j = choose|j: int|
                    0 <= j < set.len() && (#[trigger] set[j]).key == key && set[j].value == v;
                assert(settings[j].key == key);
            }
        }
    }
}

/// Putting the recorded values back gives every user-level variable what it held
/// at the start, and removes those that were not there.
pub proof fn disable_returns_to_the_start(start: Vars, vars: Vars, record: Record, blanks: bool)
    requires
        user_remembers(Some(record), vars, start),
        holdable(start, blanks),
    ensures
        apply_changes(vars, user_effects(put_backs(record.entries), blanks)) == start,
{
    let entries = record.entries;
    let back = user_effects(put_backs(entries), blanks);
    let after = apply_changes(vars, back);
    assert forall|key: Text| #[trigger] lookup(after, key) == lookup(start, key) by {
        assert(keeps(entries_of(Some(record)), vars, start, key));
        lemma_apply(vars, back, key);
        lemma_last_value(back, key);
        match last_value(back, key) {
            Some(v) => {
                let j = choose|j: int|
                    0 <= j < back.len() && (#[trigger] back[j]).key == key && back[j].value == v;
                assert(back[j] == user_effect(put_back(entries[j]), blanks));
                assert(entries[j].prev == lookup(start, key));
            },
            None => {
                assert forall|i: int| 0 <= i < entries.len() implies (#[trigger] entries[i]).key
                    != key by {
                    assert(back[i] == user_effect(put_back(entries[i]), blanks));
                    assert(back[i].key != key);
                }
            },
        }
    }
    lemma_same_vars(after, start);
}

/// The user environment and the record's file, if there is one.
pub struct UserState {
    pub vars: Vars,
    pub file: Option<Text>,
}

/// The record that a file holds, if there is one; an unreadable file has none.
pub open spec fn kept_record(file: Option<Text>) -> Option<Record> {
    match file {
        Some(content) => match stack_state(content) {
            Ok(r) => r,
            Err(_) => None,
        },
        None => None,
    }
}

/// What `enable` leaves behind on Windows: the query is run, and so is the script
/// that is made from what it printed. Nothing, where one of them fails.
pub open spec fn after_enable(
    before: UserState,
    profile: Text,
    settings: Seq<Setting>,
    blanks: bool,
) -> Option<UserState> {
    match query_output(before.vars, query_text(setting_keys(settings))) {
        Some(output) => match enabling(
            profile,
            EnableTarget::UserEnvironment { settings, output, earlier: kept_record(before.file) },
        ) {
            Ok(plan) => match (plan.script, plan.user_stack) {
                (Some(script), Some(record)) => match run_script(before.vars, script, blanks) {
                    Some(vars) => Some(UserState { vars, file: Some(stack_text(record)) }),
                    None => None,
                },
                _ => None,
            },
            Err(_) => None,
        },
        None => None,
    }
}

/// What profiles that are enabled one after the other leave behind, where there
/// was no record before. Each is its name and what it sets.
pub open spec fn after_enables(
    start: Vars,
    profiles: Seq<(Text, Seq<Setting>)>,
    blanks: bool,
) -> Option<UserState>
    decreases profiles.len(),
{
    if profiles.len() == 0 {
        Some(UserState { vars: start, file: None })
    } else {
        match after_enables(start, profiles.drop_last(), blanks) {
            Some(before) => {
                let (profile, settings) = profiles.last();
                after_enable(before, profile, settings, blanks)
            },
            None => None,
        }
    }
}

/// Profiles that are kept by the record's file, and what they set.
pub open spec fn proper_profiles(profiles: Seq<(Text, Seq<Setting>)>) -> bool {
    forall|i: int|
        0 <= i < profiles.len() ==> keepable_profile((#[trigger] profiles[i]).0)
            && one_line_settings(profiles[i].1)
}

/// However many profiles are enabled one after the other on Windows, `disable`
/// gives every user-level variable what it held before the first of them, and
/// removes those that were not there: what is read from the record's file makes
/// the script that does so, and the record is cleared. The values are on one
/// line, which is all that the query can tell.
pub proof fn disable_puts_user_variables_back(
    start: Vars,
    profiles: Seq<(Text, Seq<Setting>)>,
    blanks: bool,
    quiet: bool,
    startup: Option<Text>,
)
    requires
        profiles.len() > 0,
        proper_profiles(profiles),
        one_line_vars(start),
        holdable(start, blanks),
    ensures
        after_enables(start, profiles, blanks) matches Some(end) && ({
            let plan = disabling(
                quiet,
                Place::UserEnvironment { stack: kept_record(end.file) },
                startup,
            );
            &&& plan.script matches Some(script) && run_script(end.vars, script, blanks) == Some(
                start,
            )
            &&& plan.clear_user_stack
        }),
{
    lemma_after_enables(start, profiles, blanks);
    let end = after_enables(start, profiles, blanks)->0;
    let kept = kept_record(end.file);
    assert(entries_of(kept) == kept->0.entries);
    disable_undoes_a_record(start, end.vars, kept->0, blanks, quiet, startup);
}

/// `disable` on Windows undoes what a record remembers, and clears it.
pub proof fn disable_undoes_a_record(
    start: Vars,
    vars: Vars,
    record: Record,
    blanks: bool,
    quiet: bool,
    startup: Option<Text>,
)
    requires
        user_remembers(Some(record), vars, start),
        holdable(start, blanks),
        record.entries.len() > 0,
        forall|i: int| 0 <= i < record.entries.len() ==> identifier(#[trigger] record.entries[i].key),
    ensures
        ({
            let plan = disabling(
                quiet,
                Place::UserEnvironment { stack: Some(record) },
                startup,
            );
            &&& plan.script matches Some(script) && run_script(vars, script, blanks) == Some(start)
            &&& plan.clear_user_stack
        }),
{
    let pairs = put_backs(record.entries);
    assert forall|j: int| 0 <= j < pairs.len() implies identifier(#[trigger] pairs[j].key) by {
        assert(pairs[j] == put_back(record.entries[j]));
        assert(identifier(record.entries[j].key));
    }
    a_script_makes_its_changes(pairs);
    disable_returns_to_the_start(start, vars, record, blanks);
}

/// A state from which the start can still be reached.
spec fn on_the_way(state: UserState, start: Vars) -> bool {
    let kept = kept_record(state.file);
    &&& one_line_vars(state.vars)
    &&& user_remembers(kept, state.vars, start)
    &&& forall|i: int|
        0 <= i < entries_of(kept).len() ==> identifier(#[trigger] entries_of(kept)[i].key)
}

proof fn lemma_after_enables(start: Vars, profiles: Seq<(Text, Seq<Setting>)>, blanks: bool)
    requires
        one_line_vars(start),
        proper_profiles(profiles),
    ensures
        after_enables(start, profiles, blanks) matches Some(end) && on_the_way(end, start) && (
        profiles.len() > 0 ==> kept_record(end.file) is Some && kept_record(
            end.file,
        )->0.entries.len() > 0),
    decreases profiles.len(),
{
    if profiles.len() > 0 {
        let shorter = profiles.drop_last();
        let (profile, settings) = profiles.last();
        assert forall|i: int| 0 <= i < shorter.len() implies keepable_profile(
            (#[trigger] shorter[i]).0,
        ) && one_line_settings(shorter[i].1) by {
            assert(keepable_profile(profiles[i].0));
        }
        assert(keepable_profile(profiles[profiles.len() - 1].0));
        lemma_after_enables(start, shorter, blanks);
        let before = after_enables(start, shorter, blanks)->0;
        lemma_after_enable(start, before, profile, settings, blanks);
    }
}

/// One more `enable`.
proof fn lemma_after_enable(
    start: Vars,
    before: UserState,
    profile: Text,
    settings: Seq<Setting>,
    blanks: bool,
)
    requires
        on_the_way(before, start),
        keepable_profile(profile),
        one_line_settings(settings),
    ensures
        after_enable(before, profile, settings, blanks) matches Some(end) && on_the_way(end, start)
            && kept_record(end.file) is Some && kept_record(end.file)->0.entries.len() > 0,
{
    let earlier = kept_record(before.file);
    let keys = setting_keys(settings);
    let set = setting_changes(settings);
    assert forall|j: int| 0 <= j < keys.len() implies identifier(#[trigger] keys[j]) by {
        assert(identifier(settings[j].key));
    }
    a_query_asks_for_its_keys(keys);
    let output = query_output(before.vars, query_text(keys))->0;
    assert forall|j: int| 0 <= j < set.len() implies identifier(#[trigger] set[j].key) by {
        assert(identifier(settings[j].key));
    }
    a_script_makes_its_changes(set);
    enable_remembers_the_start(start, before.vars, earlier, profile, settings, output, blanks);
    let entries = user_overrides(entries_of(earlier), user_vars(output), settings);
    let record = Record { profile, entries };
    lemma_record_names(entries_of(earlier), user_vars(output), settings);
    assert(keepable(record));
    a_written_stack_is_read_back(record);
    let end = after_enable(before, profile, settings, blanks)->0;
    assert(kept_record(end.file) == Some(record));
    lemma_still_one_line(before.vars, settings, blanks);
}

/// The names in a record are those of an earlier one and those that are set.
proof fn lemma_record_names(earlier: Seq<Override>, before: Seq<Change>, settings: Seq<Setting>)
    requires
        one_line_settings(settings),
        forall|i: int| 0 <= i < earlier.len() ==> identifier(#[trigger] earlier[i].key),
    ensures
        ({
            let entries = user_overrides(earlier, before, settings);
            &&& entries.len() > 0
            &&& forall|i: int| 0 <= i < entries.len() ==> identifier(#[trigger] entries[i].key)
        }),
{
    let entries = user_overrides(earlier, before, settings);
    let kept = carried(earlier, settings);
    assert forall|i: int| 0 <= i < entries.len() implies identifier(#[trigger] entries[i].key) by {
        if i < kept.len() {
            assert(entries[i] == kept[i]);
            lemma_carried(earlier, settings, kept[i].key);
            let j = choose|j: int| 0 <= j < earlier.len() && earlier[j] == kept[i];
            assert(identifier(earlier[j].key));
        } else {
            assert(entries[i].key == settings[i - kept.len()].key);
        }
    }
}

/// Values on one line stay on one line.
proof fn lemma_still_one_line(vars: Vars, settings: Seq<Setting>, blanks: bool)
    requires
        one_line_vars(vars),
        one_line_settings(settings),
    ensures
        one_line_vars(apply_changes(vars, user_effects(setting_changes(settings), blanks))),
{
    let set = setting_changes(settings);
    let made = user_effects(set, blanks);
    let after = apply_changes(vars, made);
    assert forall|key: Text| #[trigger] lookup(after, key) matches Some(v) ==> !v.contains('\n') by {
        assert(lookup(vars, key) matches Some(v) ==> !v.contains('\n'));
        lemma_apply(vars, made, key);
        lemma_last_value(made, key);
        if let Some(v) = last_value(made, key) {
            let j = choose|j: int|
                0 <= j < made.len() && (#[trigger] made[j]).key == key && made[j].value == v;
            assert(made[j] == user_effect(set[j], blanks));
            assert(!settings[j].value.contains('\n'));
        }
    }
}

/// Enabling on Windows gives every variable that the profile sets the value that it
/// says last, and leaves every other alone; the choice that is written down is the
/// profile. One that sets nothing is refused.
pub proof fn enabling_sets_what_the_profile_says(
    vars: Vars,
    profile: Text,
    settings: Seq<Setting>,
    output: Text,
    earlier: Option<Record>,
    blanks: bool,
    key: Text,
)
    requires
        forall|i: int| 0 <= i < settings.len() ==> identifier(#[trigger] settings[i].key),
    ensures
        ({
            let result = enabling(
                profile,
                EnableTarget::UserEnvironment { settings, output, earlier },
            );
            &&& result is Ok <==> settings.len() > 0
            &&& result matches Ok(plan) ==> {
                &&& plan.startup == profile
                &&& plan.rc is None
                &&& plan.user_stack matches Some(record) && record.profile == profile
                &&& plan.script matches Some(script) && run_script(
                    vars,
                    script,
                    blanks,
                ) matches Some(after) && lookup(after, key) == match last_setting(settings, key) {
                    Some(v) => if v.len() == 0 && !blanks {
                        None
                    } else {
                        Some(v)
                    },
                    None => lookup(vars, key),
                }
            }
        }),
{
    if settings.len() > 0 {
        let set = setting_changes(settings);
        assert forall|j: int| 0 <= j < set.len() implies identifier(#[trigger] set[j].key) by {
            assert(identifier(settings[j].key));
        }
        a_script_makes_its_changes(set);
        lemma_apply(vars, user_effects(set, blanks), key);
        lemma_last_effect(settings, key, blanks);
    }
}

proof fn lemma_last_effect(settings: Seq<Setting>, key: Text, blanks: bool)
    ensures
        last_value(user_effects(setting_changes(settings), blanks), key) == match last_setting(
            settings,
            key,
        ) {
            Some(v) => Some(
                if v.len() == 0 && !blanks {
                    None
                } else {
                    Some(v)
                },
            ),
            None => None,
        },
    decreases settings.len(),
{
    let all = user_effects(setting_changes(settings), blanks);
    if settings.len() > 0 {
        lemma_last_effect(settings.drop_last(), key, blanks);
        assert(all.drop_last() =~= user_effects(setting_changes(settings.drop_last()), blanks));
        let v = settings.last().value;
        assert((v =~= Text::empty()) == (v.len() == 0));
    }
}

/// What a record says of a variable is what one of its entries says.
proof fn lemma_recorded(entries: Seq<Override>, key: Text)
    ensures
        match recorded(entries, key) {
            Some(prev) => exists|i: int|
                0 <= i < entries.len() && (#[trigger] entries[i]).key == key && entries[i].prev
                    == prev,
            None => forall|i: int| 0 <= i < entries.len() ==> (#[trigger] entries[i]).key != key,
        },
    decreases entries.len(),
{
    if entries.len() > 0 {
        let shorter = entries.drop_last();
        lemma_recorded(shorter, key);
        if entries.last().key == key {
            assert(entries[entries.len() - 1].key == key);
        } else {
            match recorded(shorter, key) {
                Some(prev) => {
                    let i = choose|i: int|
                        0 <= i < shorter.len() && (#[trigger] shorter[i]).key == key
                            && shorter[i].prev == prev;
                    assert(entries[i].key == key);
                },
                None => {
                    assert forall|i: int| 0 <= i < entries.len() implies (
                    #[trigger] entries[i]).key != key by {
                        if i < shorter.len() {
                            assert(shorter[i].key != key);
                        }
                    }
                },
            }
        }
    }
}

/// The entries that are carried over are entries, and none is left out whose
/// variable is not set.
proof fn lemma_carried(entries: Seq<Override>, settings: Seq<Setting>, key: Text)
    ensures
        forall|k: int|
            0 <= k < carried(entries, settings).len() && (#[trigger] carried(
                entries,
                settings,
            )[k]).key == key ==> exists|i: int|
                0 <= i < entries.len() && entries[i] == carried(entries, settings)[k],
        !is_set(settings, key) && (exists|i: int|
            0 <= i < entries.len() && (#[trigger] entries[i]).key == key) ==> exists|k: int|
            0 <= k < carried(entries, settings).len() && (#[trigger] carried(
                entries,
                settings,
            )[k]).key == key,
    decreases entries.len(),
{
    if entries.len() > 0 {
        let shorter = entries.drop_last();
        let before = carried(shorter, settings);
        let all = carried(entries, settings);
        lemma_carried(shorter, settings, key);
        assert forall|k: int| 0 <= k < all.len() && (#[trigger] all[k]).key == key implies exists|
            i: int,
        | 0 <= i < entries.len() && entries[i] == all[k] by {
            if k < before.len() {
                assert(all[k] == before[k]);
                let i = choose|i: int| 0 <= i < shorter.len() && shorter[i] == before[k];
                assert(entries[i] == all[k]);
            } else {
                assert(all[k] == entries[entries.len() - 1]);
            }
        }
        if !is_set(settings, key) && (exists|i: int|
            0 <= i < entries.len() && (#[trigger] entries[i]).key == key) {
            let i = choose|i: int| 0 <= i < entries.len() && (#[trigger] entries[i]).key == key;
            if i < shorter.len() {
                assert(shorter[i].key == key);
                let k = choose|k: int| 0 <= k < before.len() && (#[trigger] before[k]).key == key;
                assert(all[k] == before[k]);
            } else {
                assert(all[before.len() as int].key == key);
            }
        }
    }
}

/// One line of the output.
proof fn lemma_said(vars: Vars, keys: Seq<Text>, j: int)
    requires
        0 <= j < keys.len(),
        identifier(keys[j]),
        lookup(vars, keys[j]) matches Some(v) ==> !v.contains('\n'),
    ensures
        !said_of(vars, keys[j]).contains('\n'),
        user_line(said_of(vars, keys[j])) == (Change {
            key: keys[j],
            value: lookup(vars, keys[j]),
        }),
{
    let key = keys[j];
    let line = said_of(vars, key);
    assert forall|k: int| 0 <= k < key.len() implies #[trigger] line[k] == key[k] && name_char(
        key[k],
    ) by {
        assert(name_char(key[k]));
    }
    lemma_find_is(line, '=', 0, key.len() as int);
    assert(line.take(key.len() as int) =~= key);
    assert(line[key.len() - 1] == key[key.len() - 1]);
    assert(line[0] == key[0]);
    lemma_trim_solid(key);
    assert forall|k: int| 0 <= k < line.len() implies line[k] != '\n' by {
        if k < key.len() {
            assert(line[k] == key[k]);
        } else if k > key.len() {
            let v = lookup(vars, key)->0;
            assert(line[k] == v[k - key.len() - 1]);
            assert(v.contains(v[k - key.len() - 1]));
        }
    }
    if let Some(v) = lookup(vars, key) {
        assert(line.skip(key.len() as int + 1) =~= v);
    }
}

proof fn lemma_said_last(said: Seq<Change>, key: Text, value: Option<Text>, i: int)
    requires
        0 <= i < said.len(),
        said[i].key == key,
        forall|j: int| 0 <= j < said.len() && (#[trigger] said[j]).key == key ==> said[j].value
            == value,
    ensures
        said_last(said, key) == value,
    decreases said.len(),
{
    let last: int = said.len() - 1;
    if said[last].key != key {
        let shorter = said.drop_last();
        assert forall|j: int| 0 <= j < shorter.len() && (#[trigger] shorter[j]).key
            == key implies shorter[j].value == value by {
            assert(said[j].key == key);
        }
        lemma_said_last(shorter, key, value, i);
    }
}

} // verus!
