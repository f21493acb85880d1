//! Windows: permanent user-level variables.
//!
//! There is no startup file that cmd and PowerShell both read, so the variables
//! of the startup profile go into the user environment instead. They are read
//! and written by PowerShell: the scripts are made here, and so is what their
//! output means.

use vstd::prelude::*;
use vstd::slice::slice_subrange;

use crate::dotenv::{Assignment, Setting};
use crate::env::{lookup, Vars};
use crate::shell::{
    apply_changes, identifier, literal_part, quote_powershell, quoted_powershell, Change,
};
use crate::stack::{
    entries_of, parse_stack_state, put_backs, setting_changes, stack_state, stack_text, Entry,
    Override, Record, Stack, StackError, StackFault,
};
use crate::startup::Startup;
use crate::text::{
    begins, cat2, cat3, cat5, chars_of, copy_of, copy_opt, crlf_lines, decimal, decimal_of, find,
    find_char, lemma_find, lines, opt_view, push_item, same_text, split_lines, text_of, trim,
    trimmed, views, Text,
};

verus! {

/// The user-level variables an `enable` overwrote.
///
/// Same diff format and same rendering as the session stack -- only the file
/// differs, because the two layers are independent.
pub struct UserStack(pub Stack);

impl View for UserStack {
    type V = Record;

    open spec fn view(&self) -> Record {
        self.0@
    }
}

impl UserStack {
    /// The file that the stack is kept in.
    pub fn render(&self) -> (r: String)
        ensures
            r@ == stack_text(self@),
    {
        self.0.render()
    }
}

/// Reads the file that the stack is kept in. An empty one reads as no state.
pub fn parse_user_stack_state(content: &str) -> (r: Result<Option<UserStack>, StackError>)
    ensures
        match r {
            Ok(s) => stack_state(content@) == Ok::<Option<Record>, StackFault>(opt_view(s)),
            Err(e) => stack_state(content@) == Err::<Option<Record>, StackFault>(e@),
        },
{
    match parse_stack_state(content) {
        Ok(Some(s)) => Ok(Some(UserStack(s))),
        Ok(None) => Ok(None),
        Err(e) => Err(e),
    }
}

// ---------------------------------------------------------------------------
// Texts put together
// ---------------------------------------------------------------------------

/// The texts, with `sep` between them.
pub open spec fn joined(parts: Seq<Text>, sep: Text) -> Text
    decreases parts.len(),
{
    if parts.len() == 0 {
        Seq::empty()
    } else if parts.len() == 1 {
        parts[0]
    } else {
        joined(parts.drop_last(), sep) + sep + parts.last()
    }
}

fn join(parts: &Vec<String>, sep: &str) -> (r: String)
    ensures
        r@ == joined(views(parts@), sep@),
{
    let mut s: String = String::new();
    let mut i: usize = 0;
    let ghost all = views(parts@);
    assert(all.take(0) =~= Seq::<Text>::empty());
    while i < parts.len()
        invariant
            i <= parts@.len(),
            all == views(parts@),
            s@ == joined(all.take(i as int), sep@),
        decreases parts@.len() - i,
    {
        let ghost before = s@;
        assert(all.take(i + 1).drop_last() =~= all.take(i as int));
        assert(all.take(i + 1).last() == parts@[i as int]@);
        if i > 0 {
            s.append(sep);
        }
        s.append(parts[i].as_str());
        if i == 0 {
            assert(s@ =~= parts@[0]@);
        }
        i += 1;
    }
    assert(all.take(i as int) =~= all);
    s
}

// ---------------------------------------------------------------------------
// Running PowerShell
// ---------------------------------------------------------------------------

/// What running a script with one of the interpreters came to.
pub enum Attempt {
    /// The interpreter could not be started, and why.
    NotStarted(String),
    /// It ran: whether it succeeded, and what it wrote.
    Ran { success: bool, stdout: String, stderr: String },
}

/// What to do after an attempt.
pub enum NextStep {
    /// The script ran, and this is its output.
    Done(String),
    /// Try the next interpreter.
    TryNext,
    /// Give up, with this complaint.
    GiveUp(String),
}

/// What a `NextStep` holds.
pub enum Step {
    Done(Text),
    TryNext,
    GiveUp(Text),
}

impl View for NextStep {
    type V = Step;

    open spec fn view(&self) -> Step {
        match self {
            NextStep::Done(out) => Step::Done(out@),
            NextStep::TryNext => Step::TryNext,
            NextStep::GiveUp(why) => Step::GiveUp(why@),
        }
    }
}

/// What to do after an attempt with the interpreter `exe`; `more` says whether
/// there is another to try. One that ran is the right interpreter: a failure
/// then is the script's, not the lookup's.
pub open spec fn step_after(exe: Text, attempt: Attempt, more: bool) -> Step {
    match attempt {
        Attempt::NotStarted(why) => if more {
            Step::TryNext
        } else {
            Step::GiveUp("cannot run powershell ("@ + exe + ": "@ + why@ + ")"@)
        },
        Attempt::Ran { success, stdout, stderr } => if success {
            Step::Done(stdout@)
        } else {
            Step::GiveUp("powershell failed: "@ + trim(stderr@))
        },
    }
}

/// What to do after an attempt to run a script with the interpreter `exe`;
/// `more` says whether there is another to try.
pub fn powershell(exe: &str, attempt: &Attempt, more: bool) -> (r: NextStep)
    ensures
        r@ == step_after(exe@, *attempt, more),
{
    match attempt {
        Attempt::NotStarted(why) => if more {
            NextStep::TryNext
        } else {
            NextStep::GiveUp(cat5("cannot run powershell (", exe, ": ", why.as_str(), ")"))
        },
        Attempt::Ran { success, stdout, stderr } => if *success {
            NextStep::Done(copy_of(stdout))
        } else {
            let text: String = text_of(trimmed(&chars_of(stderr.as_str())));
            NextStep::GiveUp(cat2("powershell failed: ", text.as_str()))
        },
    }
}

// ---------------------------------------------------------------------------
// Reading
// ---------------------------------------------------------------------------

/// What is done with each key.
pub open spec fn query_tail() -> Text {
    " | ForEach-Object { $v = [Environment]::GetEnvironmentVariable($_,'User'); if ($null -eq $v) { $_ } else { \"$_=$v\" } }"@
}

/// The script that prints the user-level value of each key, one line for each:
/// `KEY=value`, or just `KEY` where it is not set at the user level.
pub open spec fn query_text(keys: Seq<Text>) -> Text {
    joined(keys.map_values(|k: Text| "'"@ + k + "'"@), ","@) + query_tail()
}

/// The script that prints the user-level value of each key, one line for each:
/// `KEY=value`, or just `KEY` where it is not set at the user level.
pub fn user_vars_query(keys: &Vec<String>) -> (r: String)
    ensures
        r@ == query_text(views(keys@)),
{
    let mut parts: Vec<String> = Vec::new();
    let mut i: usize = 0;
    let ghost all = views(keys@).map_values(|k: Text| "'"@ + k + "'"@);
    while i < keys.len()
        invariant
            i <= keys@.len(),
            all == views(keys@).map_values(|k: Text| "'"@ + k + "'"@),
            views(parts@) == all.take(i as int),
        decreases keys@.len() - i,
    {
        assert(views(keys@)[i as int] == keys@[i as int]@);
        push_item(&mut parts, cat3("'", keys[i].as_str(), "'"));
        i += 1;
        assert(views(parts@) =~= all.take(i as int));
    }
    assert(all.take(i as int) =~= all);
    let mut s: String = join(&parts, ",");
    s.append(
        " | ForEach-Object { $v = [Environment]::GetEnvironmentVariable($_,'User'); if ($null -eq $v) { $_ } else { \"$_=$v\" } }",
    );
    s
}

/// A variable and what it holds at the user level. `None` = it is not set.
pub struct UserVar {
    pub key: String,
    pub value: Option<String>,
}

impl View for UserVar {
    type V = Change;

    open spec fn view(&self) -> Change {
        Change { key: self.key@, value: opt_view(self.value) }
    }
}

/// What a line of the output says.
pub open spec fn user_line(line: Text) -> Change {
    let eq: int = find(line, '=', 0);
    Change {
        key: trim(line.take(eq)),
        value: if eq < line.len() {
            Some(line.skip(eq + 1))
        } else {
            None
        },
    }
}

/// What the output says of each variable, line by line.
pub open spec fn user_vars(output: Text) -> Seq<Change> {
    lines(output).map_values(|l: Text| user_line(l))
}

/// What is said last of a variable; `None` where it is not set, or nothing is
/// said of it.
pub open spec fn said_last(vars: Seq<Change>, key: Text) -> Option<Text>
    decreases vars.len(),
{
    if vars.len() == 0 {
        None
    } else if vars.last().key == key {
        vars.last().value
    } else {
        said_last(vars.drop_last(), key)
    }
}

/// The current user-level values, from what the query printed. `None` means
/// "not set at the user level", which is what makes `disable` able to remove
/// rather than blank.
///
/// Values containing newlines cannot be told apart from the line ending --
/// user-level variables rarely are.
pub fn read_user_vars(output: &str) -> (r: Vec<UserVar>)
    ensures
        views(r@) == user_vars(output@),
{
    let ls: Vec<Vec<char>> = split_lines(&chars_of(output));
    let mut found: Vec<UserVar> = Vec::new();
    let mut i: usize = 0;
    let ghost all = user_vars(output@);
    while i < ls.len()
        invariant
            i <= ls@.len(),
            views(ls@) == lines(output@),
            all == user_vars(output@),
            all.len() == ls@.len(),
            views(found@) == all.take(i as int),
        decreases ls@.len() - i,
    {
        let line: &[char] = &ls[i];
        assert(lines(output@)[i as int] == line@);
        let eq: usize = find_char(line, '=', 0);
        let left: &[char] = slice_subrange(line, 0, eq);
        assert(left@ =~= line@.take(eq as int));
        let key: String = text_of(trimmed(left));
        let var: UserVar = if eq < line.len() {
            let right: &[char] = slice_subrange(line, eq + 1, line.len());
            assert(right@ =~= line@.skip(eq + 1));
            UserVar { key, value: Some(text_of(right)) }
        } else {
            UserVar { key, value: None }
        };
        assert(var@ == all[i as int]);
        push_item(&mut found, var);
        i += 1;
        assert(views(found@) =~= all.take(i as int));
    }
    assert(all.take(i as int) =~= all);
    found
}

/// What a variable held, as far as it was said.
fn value_before(vars: &Vec<UserVar>, key: &str) -> (r: Option<String>)
    ensures
        opt_view(r) == said_last(views(vars@), key@),
{
    let mut n: usize = vars.len();
    let ghost all = views(vars@);
    assert(all.take(n as int) =~= all);
    while n > 0
        invariant
            n <= vars@.len(),
            all == views(vars@),
            said_last(all, key@) == said_last(all.take(n as int), key@),
        decreases n,
    {
        assert(all.take(n as int).drop_last() =~= all.take(n - 1));
        assert(all.take(n as int).last() == vars@[n - 1]@);
        if same_text(vars[n - 1].key.as_str(), key) {
            return copy_opt(&vars[n - 1].value);
        }
        n -= 1;
    }
    None
}

// ---------------------------------------------------------------------------
// Writing
// ---------------------------------------------------------------------------

/// The command that sets a user-level variable, or removes it.
pub open spec fn write_text(pair: Change) -> Text {
    "[Environment]::SetEnvironmentVariable('"@ + pair.key + "',"@ + (match pair.value {
        Some(v) => quoted_powershell(v),
        None => "$null"@,
    }) + ",'User')"@
}

/// The commands that set user-level variables, or remove them.
pub open spec fn write_texts(pairs: Seq<Change>) -> Seq<Text> {
    pairs.map_values(|p: Change| write_text(p))
}

/// The script that sets (or removes) user-level variables. Where there are none,
/// there is nothing to run.
pub open spec fn script_text(pairs: Seq<Change>) -> Option<Text> {
    if pairs.len() == 0 {
        None
    } else {
        Some(joined(write_texts(pairs), "; "@))
    }
}

/// The script that sets (or, for `None`, removes) user-level variables. Where
/// there are none, there is nothing to run.
pub fn write_user_vars(pairs: &Vec<UserVar>) -> (r: Option<String>)
    ensures
        opt_view(r) == script_text(views(pairs@)),
{
    if pairs.len() == 0 {
        return None;
    }
    let mut parts: Vec<String> = Vec::new();
    let mut i: usize = 0;
    let ghost all = write_texts(views(pairs@));
    while i < pairs.len()
        invariant
            i <= pairs@.len(),
            all == write_texts(views(pairs@)),
            views(parts@) == all.take(i as int),
        decreases pairs@.len() - i,
    {
        let p: &UserVar = &pairs[i];
        let value: String = match &p.value {
            Some(v) => quote_powershell(v.as_str()),
            None => "$null".to_owned(),
        };
        assert(views(pairs@)[i as int] == p@);
        push_item(
            &mut parts,
            cat5(
                "[Environment]::SetEnvironmentVariable('",
                p.key.as_str(),
                "',",
                value.as_str(),
                ",'User')",
            ),
        );
        i += 1;
        assert(views(parts@) =~= all.take(i as int));
    }
    assert(all.take(i as int) =~= all);
    Some(join(&parts, "; "))
}

// ---------------------------------------------------------------------------
// Enabling
// ---------------------------------------------------------------------------

/// The keys that settings are for.
pub open spec fn setting_keys(settings: Seq<Setting>) -> Seq<Text> {
    settings.map_values(|s: Setting| s.key)
}

pub open spec fn no_variables(profile: Text) -> Text {
    "profile '"@ + profile + "' sets no variables"@
}

pub fn no_variables_message(profile: &str) -> (r: String)
    ensures
        r@ == no_variables(profile@),
{
    cat3("profile '", profile, "' sets no variables")
}

/// What to ask before a profile's variables are made permanent, or the
/// complaint that it has none.
pub fn query_user_env(profile: &str, assignments: &Vec<Assignment>) -> (r: Result<String, String>)
    ensures
        match r {
            Ok(script) => assignments@.len() > 0 && script@ == query_text(
                setting_keys(views(assignments@)),
            ),
            Err(e) => assignments@.len() == 0 && e@ == no_variables(profile@),
        },
{
    if assignments.len() == 0 {
        return Err(no_variables_message(profile));
    }
    let mut keys: Vec<String> = Vec::new();
    let mut i: usize = 0;
    let ghost all = setting_keys(views(assignments@));
    while i < assignments.len()
        invariant
            i <= assignments@.len(),
            all == setting_keys(views(assignments@)),
            views(keys@) == all.take(i as int),
        decreases assignments@.len() - i,
    {
        assert(views(assignments@)[i as int] == assignments@[i as int]@);
        push_item(&mut keys, copy_of(&assignments[i].key));
        i += 1;
        assert(views(keys@) =~= all.take(i as int));
    }
    assert(all.take(i as int) =~= all);
    Ok(user_vars_query(&keys))
}

/// What a record says that `key` held: a value, or `None` where it was not set;
/// nothing where the record does not speak of it.
pub open spec fn recorded(entries: Seq<Override>, key: Text) -> Option<Option<Text>>
    decreases entries.len(),
{
    if entries.len() == 0 {
        None
    } else if entries.last().key == key {
        Some(entries.last().prev)
    } else {
        recorded(entries.drop_last(), key)
    }
}

/// Whether `key` is among the settings.
pub open spec fn is_set(settings: Seq<Setting>, key: Text) -> bool {
    exists|i: int| 0 <= i < settings.len() && (#[trigger] settings[i]).key == key
}

/// The entries whose variables the settings leave alone.
pub open spec fn carried(entries: Seq<Override>, settings: Seq<Setting>) -> Seq<Override>
    decreases entries.len(),
{
    if entries.len() == 0 {
        Seq::empty()
    } else {
        let before = carried(entries.drop_last(), settings);
        if is_set(settings, entries.last().key) {
            before
        } else {
            before.push(entries.last())
        }
    }
}

/// What a variable held before any profile was made permanent: what the earlier
/// record says, else what the query said.
pub open spec fn held_first(earlier: Seq<Override>, before: Seq<Change>, key: Text) -> Option<Text> {
    match recorded(earlier, key) {
        Some(prev) => prev,
        None => said_last(before, key),
    }
}

/// What overriding one user-level variable is remembered as.
pub open spec fn user_override(
    earlier: Seq<Override>,
    before: Seq<Change>,
    setting: Setting,
) -> Override {
    Override {
        key: setting.key,
        prev: held_first(earlier, before, setting.key),
        now: Some(setting.value),
    }
}

/// What overriding user-level variables is remembered as, where `earlier` is
/// remembered already: its other entries are carried over.
pub open spec fn user_overrides(
    earlier: Seq<Override>,
    before: Seq<Change>,
    settings: Seq<Setting>,
) -> Seq<Override> {
    carried(earlier, settings) + settings.map_values(|s: Setting| user_override(earlier, before, s))
}

fn sets(assignments: &Vec<Assignment>, key: &str) -> (r: bool)
    ensures
        r == is_set(views(assignments@), key@),
{
    let ghost all = views(assignments@);
    let mut i: usize = 0;
    while i < assignments.len()
        invariant
            i <= assignments@.len(),
            all == views(assignments@),
            forall|j: int| 0 <= j < i ==> (#[trigger] all[j]).key != key@,
        decreases assignments@.len() - i,
    {
        assert(all[i as int] == assignments@[i as int]@);
        if same_text(assignments[i].key.as_str(), key) {
            return true;
        }
        i += 1;
    }
    false
}

/// The entries whose variables the assignments leave alone.
fn carry_over(entries: &Vec<Entry>, assignments: &Vec<Assignment>) -> (r: Vec<Entry>)
    ensures
        views(r@) == carried(views(entries@), views(assignments@)),
{
    let ghost all = views(entries@);
    let mut out: Vec<Entry> = Vec::new();
    let mut i: usize = 0;
    assert(views(out@) =~= carried(all.take(0), views(assignments@)));
    while i < entries.len()
        invariant
            i <= entries@.len(),
            all == views(entries@),
            views(out@) == carried(all.take(i as int), views(assignments@)),
        decreases entries@.len() - i,
    {
        let e: &Entry = &entries[i];
        assert(all.take(i + 1).drop_last() =~= all.take(i as int));
        assert(all.take(i + 1).last() == e@);
        if !sets(assignments, e.key.as_str()) {
            let copy: Entry = Entry {
                key: copy_of(&e.key),
                prev: copy_opt(&e.prev),
                now: copy_opt(&e.now),
            };
            assert(copy@ == e@);
            push_item(&mut out, copy);
        }
        i += 1;
    }
    assert(all.take(i as int) =~= all);
    out
}

/// What a variable held before any profile was made permanent.
fn value_at_first(earlier: &Option<UserStack>, before: &Vec<UserVar>, key: &str) -> (r: Option<
    String,
>)
    ensures
        opt_view(r) == held_first(entries_of(opt_view(*earlier)), views(before@), key@),
{
    if let Some(stack) = earlier {
        let entries: &Vec<Entry> = &stack.0.entries;
        let ghost all = views(entries@);
        let mut n: usize = entries.len();
        assert(all.take(n as int) =~= all);
        while n > 0
            invariant
                n <= entries@.len(),
                all == views(entries@),
                all == entries_of(opt_view(*earlier)),
                recorded(all, key@) == recorded(all.take(n as int), key@),
            decreases n,
        {
            assert(all.take(n as int).drop_last() =~= all.take(n - 1));
            assert(all.take(n as int).last() == entries@[n - 1]@);
            if same_text(entries[n - 1].key.as_str(), key) {
                return copy_opt(&entries[n - 1].prev);
            }
            n -= 1;
        }
    }
    value_before(before, key)
}

/// How a profile's variables are made permanent.
pub struct UserEnable {
    /// The script that writes them, if there are any.
    pub script: Option<String>,
    /// What they held before.
    pub stack: UserStack,
    /// The choice of the profile.
    pub startup: Startup,
    /// What to tell once that is done.
    pub report: Vec<String>,
}

pub open spec fn user_enable_report(profile: Text, count: nat) -> Seq<Text> {
    seq![
        "startup loading enabled: "@ + profile,
        "  wrote "@ + decimal(count) + " variables to your user environment"@,
        "  new shells and programs see them; this one does not"@,
        "  `envc disable` puts the previous values back"@,
    ]
}

/// Windows `enable`: make the profile's variables permanent.
///
/// What they held before is recorded, because `disable` has to be able to put
/// that back. `output` is what the query printed, and `earlier` the record of a
/// profile that was made permanent before: what it remembers is older than what
/// the query saw, so it counts first, and the rest of it is carried over.
pub fn enable_user_env(
    startup: Startup,
    assignments: &Vec<Assignment>,
    output: &str,
    earlier: &Option<UserStack>,
) -> (r: UserEnable)
    ensures
        opt_view(r.script) == script_text(setting_changes(views(assignments@))),
        r.stack@ == (Record {
            profile: startup@,
            entries: user_overrides(
                entries_of(opt_view(*earlier)),
                user_vars(output@),
                views(assignments@),
            ),
        }),
        r.startup@ == startup@,
        views(r.report@) == user_enable_report(startup@, assignments@.len()),
{
    let before: Vec<UserVar> = read_user_vars(output);
    let ghost all = views(assignments@);
    let ghost old_entries = entries_of(opt_view(*earlier));
    let ghost kept = carried(old_entries, all);
    let ghost over = all.map_values(|s: Setting| user_override(old_entries, user_vars(output@), s));
    let ghost changes = setting_changes(all);
    let mut entries: Vec<Entry> = match earlier {
        Some(stack) => carry_over(&stack.0.entries, assignments),
        None => Vec::new(),
    };
    let mut pairs: Vec<UserVar> = Vec::new();
    let mut i: usize = 0;
    assert(views(entries@) =~= kept + over.take(0));
    while i < assignments.len()
        invariant
            i <= assignments@.len(),
            all == views(assignments@),
            old_entries == entries_of(opt_view(*earlier)),
            over == all.map_values(
                |s: Setting| user_override(old_entries, user_vars(output@), s),
            ),
            changes == setting_changes(all),
            views(before@) == user_vars(output@),
            views(entries@) == kept + over.take(i as int),
            views(pairs@) == changes.take(i as int),
        decreases assignments@.len() - i,
    {
        let a: &Assignment = &assignments[i];
        assert(all[i as int] == a@);
        let entry: Entry = Entry {
            key: copy_of(&a.key),
            prev: value_at_first(earlier, &before, a.key.as_str()),
            now: Some(copy_of(&a.value)),
        };
        assert(entry@ == over[i as int]);
        push_item(&mut entries, entry);
        let pair: UserVar = UserVar { key: copy_of(&a.key), value: Some(copy_of(&a.value)) };
        assert(pair@ == changes[i as int]);
        push_item(&mut pairs, pair);
        i += 1;
        assert(views(entries@) =~= kept + over.take(i as int));
        assert(views(pairs@) =~= changes.take(i as int));
    }
    assert(over.take(i as int) =~= over);
    assert(changes.take(i as int) =~= changes);
    let script: Option<String> = write_user_vars(&pairs);
    let profile: &str = startup.profile.as_str();
    let stack: UserStack = UserStack(Stack::new(profile, entries));
    let mut report: Vec<String> = Vec::new();
    push_item(&mut report, cat2("startup loading enabled: ", profile));
    push_item(
        &mut report,
        cat3(
            "  wrote ",
            decimal_of(assignments.len()).as_str(),
            " variables to your user environment",
        ),
    );
    push_item(&mut report, "  new shells and programs see them; this one does not".to_owned());
    push_item(&mut report, "  `envc disable` puts the previous values back".to_owned());
    assert(views(report@) =~= user_enable_report(startup@, assignments@.len()));
    UserEnable { script, stack, startup, report }
}

// ---------------------------------------------------------------------------
// Disabling
// ---------------------------------------------------------------------------

/// How the user-level variables are put back.
pub struct UserDisable {
    /// The script that writes them, if there are any.
    pub script: Option<String>,
    /// What to tell once that is done.
    pub report: Vec<String>,
}

pub open spec fn user_disable_report(count: nat) -> Seq<Text> {
    seq![
        "startup loading disabled"@,
        "  restored "@ + decimal(count) + " user variables"@,
    ]
}

/// Windows `disable`: put the user-level variables back the way they were. One
/// that did not exist at the user level is removed rather than set empty.
pub fn disable_user_env(stack: &UserStack) -> (r: UserDisable)
    ensures
        opt_view(r.script) == script_text(put_backs(stack@.entries)),
        views(r.report@) == user_disable_report(stack@.entries.len()),
{
    let entries: &Vec<Entry> = &stack.0.entries;
    let mut pairs: Vec<UserVar> = Vec::new();
    let ghost all = put_backs(stack@.entries);
    let mut i: usize = 0;
    while i < entries.len()
        invariant
            i <= entries@.len(),
            views(entries@) == stack@.entries,
            all == put_backs(stack@.entries),
            views(pairs@) == all.take(i as int),
        decreases entries@.len() - i,
    {
        let e: &Entry = &entries[i];
        assert(stack@.entries[i as int] == e@);
        let pair: UserVar = UserVar { key: copy_of(&e.key), value: copy_opt(&e.prev) };
        assert(pair@ == all[i as int]);
        push_item(&mut pairs, pair);
        i += 1;
        assert(views(pairs@) =~= all.take(i as int));
    }
    assert(all.take(i as int) =~= all);
    let script: Option<String> = write_user_vars(&pairs);
    let mut report: Vec<String> = Vec::new();
    push_item(&mut report, "startup loading disabled".to_owned());
    push_item(
        &mut report,
        cat3("  restored ", decimal_of(entries.len()).as_str(), " user variables"),
    );
    assert(views(report@) =~= user_disable_report(stack@.entries.len()));
    UserDisable { script, report }
}

// ---------------------------------------------------------------------------
// How PowerShell reads the scripts
// ---------------------------------------------------------------------------

/// The keys that a query is about: names in single quotes, with commas between
/// them, in front of what is done with each; `None` for any other script.
pub open spec fn asked_keys(script: Text) -> Option<Seq<Text>>
    decreases script.len(),
    via asked_keys_decreases
{
    if script.len() == 0 || script[0] != '\'' {
        None
    } else {
        let end: int = find(script, '\'', 1);
        let key = script.subrange(1, end);
        if end >= script.len() || !identifier(key) {
            None
        } else {
            let tail = script.skip(end + 1);
            if tail == query_tail() {
                Some(seq![key])
            } else if tail.len() > 0 && tail[0] == ',' {
                match asked_keys(tail.drop_first()) {
                    Some(keys) => Some(seq![key] + keys),
                    None => None,
                }
            } else {
                None
            }
        }
    }
}

#[via_fn]
proof fn asked_keys_decreases(script: Text) {
    if script.len() > 0 {
        lemma_find(script, '\'', 1);
    }
}

/// What a query prints of one variable: `KEY=value`, or just `KEY` where it is
/// not set.
pub open spec fn said_of(vars: Vars, key: Text) -> Text {
    match lookup(vars, key) {
        Some(v) => key + seq!['='] + v,
        None => key,
    }
}

/// What a query prints where the user-level variables are `vars`.
pub open spec fn query_output(vars: Vars, script: Text) -> Option<Text> {
    match asked_keys(script) {
        Some(keys) => Some(crlf_lines(keys.map_values(|k: Text| said_of(vars, k)))),
        None => None,
    }
}

/// A value at the beginning of a text, a literal or `$null`, and what stands
/// behind it.
pub open spec fn value_part(s: Text) -> Option<(Option<Text>, Text)> {
    if begins(s, "$null"@) {
        Some((None, s.skip("$null"@.len() as int)))
    } else if s.len() > 0 && s[0] == '\'' {
        match literal_part(s.drop_first()) {
            Some((v, tail)) => Some((Some(v), tail)),
            None => None,
        }
    } else {
        None
    }
}

/// The change that the first command of a script makes, and what stands behind
/// the command; `None` where it does not set a user-level variable.
pub open spec fn first_command(s: Text) -> Option<(Change, Text)> {
    let head = "[Environment]::SetEnvironmentVariable('"@;
    let end = ",'User')"@;
    let body = s.skip(head.len() as int);
    let q: int = find(body, '\'', 0);
    if !begins(s, head) || q + 1 >= body.len() || body[q + 1] != ',' || !identifier(body.take(q)) {
        None
    } else {
        match value_part(body.skip(q + 2)) {
            Some((value, tail)) => if begins(tail, end) {
                Some((Change { key: body.take(q), value }, tail.skip(end.len() as int)))
            } else {
                None
            },
            None => None,
        }
    }
}

/// The changes that a script makes, one for each of its commands, which stand
/// with `; ` between them; `None` for any other script.
pub open spec fn script_changes(s: Text) -> Option<Seq<Change>>
    decreases s.len(),
    via script_changes_decreases
{
    match first_command(s) {
        Some((change, tail)) => if tail.len() == 0 {
            Some(seq![change])
        } else if tail.len() > 1 && tail[0] == ';' && tail[1] == ' ' {
            match script_changes(tail.skip(2)) {
                Some(rest) => Some(seq![change] + rest),
                None => None,
            }
        } else {
            None
        },
        None => None,
    }
}

#[via_fn]
proof fn script_changes_decreases(s: Text) {
    if let Some((_, tail)) = first_command(s) {
        let body = s.skip("[Environment]::SetEnvironmentVariable('"@.len() as int);
        lemma_find(body, '\'', 0);
        let rest = body.skip(find(body, '\'', 0) + 2);
        if rest.len() > 0 {
            lemma_literal_tail(rest.drop_first());
        }
    }
}

proof fn lemma_literal_tail(s: Text)
    ensures
        literal_part(s) matches Some((_, tail)) ==> tail.len() <= s.len(),
    decreases s.len(),
{
    if s.len() > 0 {
        lemma_literal_tail(s.drop_first());
        if s.len() > 1 {
            lemma_literal_tail(s.skip(2));
        }
    }
}

/// What a change comes to in the user environment. `blanks` says whether that
/// can hold an empty value: where it cannot, setting one removes the variable.
pub open spec fn user_effect(change: Change, blanks: bool) -> Change {
    if !blanks && change.value == Some(Text::empty()) {
        Change { key: change.key, value: None }
    } else {
        change
    }
}

/// What changes come to in the user environment.
pub open spec fn user_effects(changes: Seq<Change>, blanks: bool) -> Seq<Change> {
    changes.map_values(|c: Change| user_effect(c, blanks))
}

/// What running a script makes of the user-level variables; `None` for a script
/// that does anything but set them.
pub open spec fn run_script(vars: Vars, script: Text, blanks: bool) -> Option<Vars> {
    match script_changes(script) {
        Some(changes) => Some(apply_changes(vars, user_effects(changes, blanks))),
        None => None,
    }
}

} // verus!
