//! What is refused, and what is said of it.

use vstd::prelude::*;

use crate::activation::{
    activate_fault_text, activation, autoload, no_such_profile, ActivateFault, ActivationPlan,
    AutoloadPlan,
};
use crate::dotenv::{
    complaint_text, located, settings, value_fault_text, EnvComplaint, EnvFault, Setting,
    ValueFault,
};
use crate::env::Vars;
use crate::files::{
    cannot_read, env_file, env_file_fault_brief, env_file_fault_text, existing, load_fault_text,
    loaded_stack, loaded_startup, EnvFileFault, LoadFault,
};
use crate::laws::profiles::lemma_occurs;
use crate::laws::reports::ends;
use crate::loading::{enable_fault_text, memory, EnableFault, Memory, RememberFault};
use crate::profile::{name_error_text, name_problem, problem_text, NameProblem};
use crate::shell::{identifier, name_char, quoted, safe_unquoted, unknown_shell_text, Shell};
use crate::stack::{stack_fault_text, stack_state, Record, StackFault};
use crate::startup::read_startup;
use crate::text::{begins, debug_text, decimal, occurs, trim, white, Text};
use crate::user_env::{step_after, Attempt, Step};

verus! {

// ---------------------------------------------------------------------------
// Kinds of characters
// ---------------------------------------------------------------------------

/// White space is what Unicode says it is.
pub proof fn white_space_is_unicodes(c: char)
    ensures
        white(c) <==> {
            let n = c as u32;
            ||| 9 <= n <= 13
            ||| n == 32
            ||| n == 0x85
            ||| n == 0xa0
            ||| n == 0x1680
            ||| 0x2000 <= n <= 0x200a
            ||| n == 0x2028
            ||| n == 0x2029
            ||| n == 0x202f
            ||| n == 0x205f
            ||| n == 0x3000
        },
{
}

/// A name begins with a letter or an underscore and goes on with letters, digits
/// and underscores, in ASCII.
pub proof fn names_are_made_of_these(s: Text)
    ensures
        identifier(s) <==> {
            &&& s.len() > 0
            &&& 'a' <= s[0] <= 'z' || 'A' <= s[0] <= 'Z' || s[0] == '_'
            &&& forall|i: int|
                0 < i < s.len() ==> 'a' <= (#[trigger] s[i]) <= 'z' || 'A' <= s[i] <= 'Z' || '0'
                    <= s[i] <= '9' || s[i] == '_'
        },
{
    if identifier(s) {
        assert(name_char(s[0]));
        assert forall|i: int| 0 < i < s.len() implies 'a' <= (#[trigger] s[i]) <= 'z' || 'A' <= s[i]
            <= 'Z' || '0' <= s[i] <= '9' || s[i] == '_' by {
            assert(name_char(s[i]));
        }
    } else if s.len() > 0 && ('a' <= s[0] <= 'z' || 'A' <= s[0] <= 'Z' || s[0] == '_') && forall|
        i: int,
    |
        0 < i < s.len() ==> 'a' <= (#[trigger] s[i]) <= 'z' || 'A' <= s[i] <= 'Z' || '0' <= s[i]
            <= '9' || s[i] == '_' {
        assert forall|i: int| 0 <= i < s.len() implies name_char(#[trigger] s[i]) by {}
    }
}

/// A word that a shell takes as it is is printed as it is; any other is quoted.
pub proof fn only_safe_words_stay_unquoted(value: Text)
    ensures
        value.len() > 0 && (forall|i: int|
            0 <= i < value.len() ==> safe_unquoted(#[trigger] value[i])) ==> quoted(value) == value,
        !(value.len() > 0 && (forall|i: int|
            0 <= i < value.len() ==> safe_unquoted(#[trigger] value[i]))) ==> quoted(value).len() >= 2
            && quoted(value)[0] == '\'' && quoted(value).last() == '\'',
        forall|c: char|
            (c as u32) < 33 || c == '"' || c == '$' || c == '`' || c == '\\' || c == '*' || c == '?'
                || c == '~' || c == '!' || c == '#' || c == '&' || c == ';' || c == '\'' || c == '('
                || c == ')' || c == '<' || c == '>' || c == '|' || c == '[' || c == ']' || c == '{'
                || c == '}' || (c as u32) > 126 ==> !#[trigger] safe_unquoted(c),
{
    reveal_strlit("''");
    reveal_strlit("'");
}

// ---------------------------------------------------------------------------
// Files
// ---------------------------------------------------------------------------

/// A file that is absent holds nothing; one that cannot be read is a fault, and
/// says so with the operating system's words; any other holds what its content
/// says.
pub proof fn files_hold_what_they_hold(content: Text, why: Text, env: Vars)
    ensures
        env_file(Err(why), env) == Err::<Seq<Setting>, EnvFileFault>(EnvFileFault::Unreadable(why)),
        settings(content, env) matches Ok(made) ==> env_file(Ok(content), env) == Ok::<
            Seq<Setting>,
            EnvFileFault,
        >(made),
        settings(content, env) matches Err(e) ==> env_file(Ok(content), env) == Err::<
            Seq<Setting>,
            EnvFileFault,
        >(EnvFileFault::Broken(e)),
        loaded_stack(None) == Ok::<Option<Record>, LoadFault>(None),
        loaded_startup(None) == Ok::<Option<Text>, LoadFault>(None),
        existing(None) == Ok::<Text, LoadFault>(Seq::empty()),
        loaded_stack(Some(Err(why))) == Err::<Option<Record>, LoadFault>(
            LoadFault::Unreadable(why),
        ),
        loaded_startup(Some(Err(why))) == Err::<Option<Text>, LoadFault>(
            LoadFault::Unreadable(why),
        ),
        existing(Some(Err(why))) == Err::<Text, LoadFault>(LoadFault::Unreadable(why)),
        existing(Some(Ok(content))) == Ok::<Text, LoadFault>(content),
        loaded_startup(Some(Ok(content))) == Ok::<Option<Text>, LoadFault>(read_startup(content)),
        stack_state(content) matches Ok(s) ==> loaded_stack(Some(Ok(content))) == Ok::<
            Option<Record>,
            LoadFault,
        >(s),
        stack_state(content) matches Err(e) ==> loaded_stack(Some(Ok(content))) == Err::<
            Option<Record>,
            LoadFault,
        >(LoadFault::Broken(e)),
{
}

/// What is remembered needs no stack where a profile was chosen, and is nothing
/// where there is neither; a file that cannot be read is a fault of that file.
pub proof fn memory_comes_from_the_files(
    startup: Option<Result<Text, Text>>,
    stack: Option<Result<Text, Text>>,
)
    ensures
        loaded_startup(startup) matches Err(e) ==> memory(startup, stack) == Err::<
            Memory,
            RememberFault,
        >(RememberFault::Startup(e)),
        loaded_startup(startup) matches Ok(Some(p)) ==> memory(startup, stack) == Ok::<
            Memory,
            RememberFault,
        >(Memory::Chosen(p)),
        loaded_startup(startup) == Ok::<Option<Text>, LoadFault>(None) ==> match loaded_stack(
            stack,
        ) {
            Err(e) => memory(startup, stack) == Err::<Memory, RememberFault>(
                RememberFault::Stack(e),
            ),
            Ok(Some(s)) => memory(startup, stack) == Ok::<Memory, RememberFault>(
                Memory::OnStack(s.profile),
            ),
            Ok(None) => memory(startup, stack) == Ok::<Memory, RememberFault>(Memory::Nothing),
        },
{
}

// ---------------------------------------------------------------------------
// Commands
// ---------------------------------------------------------------------------

/// An activation is refused exactly where the name is none that a profile can
/// have, the profile is not there, cannot be read or does not parse, or the stack
/// cannot be loaded; and what is said is the first of these.
pub proof fn an_activation_is_refused_for_what_is_wrong(
    name: Text,
    quiet: bool,
    shell: Shell,
    file: Option<Result<Text, Text>>,
    env: Vars,
    stack: Option<Result<Text, Text>>,
    hint: bool,
)
    ensures
        ({
            let result = activation(name, quiet, shell, file, env, stack, hint);
            let readable = file matches Some(Ok(content)) && settings(content, env) is Ok;
            &&& result is Ok <==> name_problem(name) is None && readable && loaded_stack(stack) is Ok
            &&& name_problem(name) matches Some(problem) ==> result == Err::<
                ActivationPlan,
                ActivateFault,
            >(ActivateFault::Name { name, problem })
            &&& name_problem(name) is None && file is None ==> result == Err::<
                ActivationPlan,
                ActivateFault,
            >(ActivateFault::Missing)
            &&& name_problem(name) is None ==> (file matches Some(Err(why)) ==> result == Err::<
                ActivationPlan,
                ActivateFault,
            >(ActivateFault::Profile(EnvFileFault::Unreadable(why))))
            &&& name_problem(name) is None && readable ==> (loaded_stack(stack) matches Err(e)
                ==> result == Err::<ActivationPlan, ActivateFault>(ActivateFault::Stack(e)))
        }),
{
    if let Some(read) = file {
        if let Ok(content) = read {
            assert(env_file(read, env) is Ok <==> settings(content, env) is Ok);
        }
    }
}

/// Loading the startup profile is refused exactly where its file is there but
/// cannot be read or does not parse; where it is not there, only a warning is
/// given, which names the profile and the file.
pub proof fn an_autoload_is_refused_for_what_is_wrong(
    profile: Text,
    shell: Shell,
    origin: Text,
    file: Option<Result<Text, Text>>,
    env: Vars,
)
    ensures
        ({
            let result = autoload(profile, shell, origin, file, env);
            let readable = file matches Some(Ok(content)) && settings(content, env) is Ok;
            &&& result is Ok <==> file is None || readable
            &&& file is None ==> (result matches Ok(AutoloadPlan::Skipped(note)) && occurs(
                note,
                profile,
            ) && occurs(note, origin))
            &&& readable ==> (result matches Ok(plan) && plan is Loaded)
        }),
{
    if let Some(read) = file {
        if let Ok(content) = read {
            assert(env_file(read, env) is Ok <==> settings(content, env) is Ok);
        }
    } else {
        let a = "envc: startup profile '"@;
        let b = "' is selected but "@;
        let c = " is missing; skipping autoload"@;
        let tail = b + origin + c;
        lemma_occurs(a, profile, tail);
        assert(a + profile + tail =~= a + profile + b + origin + c);
        lemma_occurs(a + profile + b, origin, c);
    }
}

/// An interpreter that ran decides: its output where it succeeded, and a complaint
/// with what it complained of where it did not. One that could not be started is
/// passed over while there is another to try, and complained of where there is
/// not.
pub proof fn the_first_interpreter_that_runs_decides(exe: Text, attempt: Attempt, more: bool)
    ensures
        attempt matches Attempt::Ran { success, stdout, stderr } ==> step_after(exe, attempt, more)
            == (if success {
            Step::Done(stdout@)
        } else {
            step_after(exe, attempt, !more)
        }),
        attempt matches Attempt::Ran { success, stdout, stderr } ==> (!success ==> (step_after(
            exe,
            attempt,
            more,
        ) matches Step::GiveUp(why) && ends(why, trim(stderr@)))),
        attempt is NotStarted ==> (step_after(exe, attempt, more) is TryNext <==> more),
        attempt matches Attempt::NotStarted(e) ==> (!more ==> (step_after(
            exe,
            attempt,
            more,
        ) matches Step::GiveUp(why) && occurs(why, exe) && occurs(why, e@))),
{
    match attempt {
        Attempt::Ran { success, stdout, stderr } => {
            let s = "powershell failed: "@ + trim(stderr@);
            assert(s.skip(s.len() - trim(stderr@).len()) =~= trim(stderr@));
        },
        Attempt::NotStarted(e) => {
            let a = "cannot run powershell ("@;
            let b = ": "@;
            let c = ")"@;
            let tail = b + e@ + c;
            lemma_occurs(a, exe, tail);
            assert(a + exe + tail =~= a + exe + b + e@ + c);
            lemma_occurs(a + exe + b, e@, c);
        },
    }
}

// ---------------------------------------------------------------------------
// Words
// ---------------------------------------------------------------------------

/// A fault on a line begins with the file and the number of the line, and ends in
/// what is wrong there.
pub proof fn a_fault_says_where_it_is(origin: Text, line: nat, message: Text)
    ensures
        begins(located(origin, line, message), origin + ":"@ + decimal(line)),
        ends(located(origin, line, message), message),
{
    let front = origin + ":"@ + decimal(line);
    let s = located(origin, line, message);
    assert(s =~= front + (": "@ + message));
    assert(s.take(front.len() as int) =~= front);
    assert(s.skip(s.len() - message.len()) =~= message);
}

/// What is wrong with a line of a profile names what it is about.
pub proof fn a_complaint_names_what_is_wrong(name: Text, error: ValueFault)
    ensures
        begins(complaint_text(EnvComplaint::BadName(name)), debug_text(name)),
        occurs(complaint_text(EnvComplaint::BadValue { key: name, error }), name),
        ends(complaint_text(EnvComplaint::BadValue { key: name, error }), value_fault_text(error)),
        error matches ValueFault::Other(m) ==> value_fault_text(error) == m,
        error matches ValueFault::Unterminated { quote, feeds: _ } ==> value_fault_text(
            error,
        ).contains(quote),
{
    let a = complaint_text(EnvComplaint::BadName(name));
    assert(a.take(debug_text(name).len() as int) =~= debug_text(name));
    let front = "in the value of "@;
    let tail = ": "@ + value_fault_text(error);
    let b = complaint_text(EnvComplaint::BadValue { key: name, error });
    lemma_occurs(front, name, tail);
    assert(front + name + tail =~= b);
    assert(b.skip(b.len() - value_fault_text(error).len()) =~= value_fault_text(error));
    if let ValueFault::Unterminated { quote, feeds: _ } = error {
        let t = value_fault_text(error);
        let n: int = "unterminated "@.len() as int;
        assert(t[n] == quote);
    }
}

/// A file that cannot be read is named, and why; in short, it is only named.
pub proof fn an_unreadable_file_is_named(origin: Text, why: Text)
    ensures
        occurs(cannot_read(origin, why), origin),
        ends(cannot_read(origin, why), why),
        env_file_fault_text(origin, EnvFileFault::Unreadable(why)) == cannot_read(origin, why),
        load_fault_text(origin, LoadFault::Unreadable(why)) == cannot_read(origin, why),
        ends(env_file_fault_brief(origin, EnvFileFault::Unreadable(why)), origin),
        forall|fault: EnvFault| #[trigger]
            env_file_fault_brief(origin, EnvFileFault::Broken(fault)) == env_file_fault_text(
                origin,
                EnvFileFault::Broken(fault),
            ),
{
    let a = "cannot read "@;
    let b = ": "@;
    let tail = b + why;
    lemma_occurs(a, origin, tail);
    assert(a + origin + tail =~= cannot_read(origin, why));
    let s = cannot_read(origin, why);
    assert(s.skip(s.len() - why.len()) =~= why);
    let t = a + origin;
    assert(t.skip(t.len() - origin.len()) =~= origin);
}

/// A fault in a stack file names the file, and the line where it is about one.
pub proof fn a_stack_fault_says_where_it_is(origin: Text, line: nat, text: Text, key: Text)
    ensures
        begins(
            stack_fault_text(origin, StackFault::BadFormat { line, text }),
            origin + ":"@ + decimal(line),
        ),
        begins(
            stack_fault_text(origin, StackFault::BadName { line, name: text }),
            origin + ":"@ + decimal(line),
        ),
        begins(
            stack_fault_text(origin, StackFault::UnansweredBefore { line }),
            origin + ":"@ + decimal(line),
        ),
        begins(
            stack_fault_text(origin, StackFault::UnmatchedAfter { line }),
            origin + ":"@ + decimal(line),
        ),
        begins(
            stack_fault_text(origin, StackFault::Mismatch { line, key, before: text }),
            origin + ":"@ + decimal(line),
        ),
        begins(
            stack_fault_text(origin, StackFault::Unrecognised { line, text }),
            origin + ":"@ + decimal(line),
        ),
        ends(stack_fault_text(origin, StackFault::BadFormat { line, text }), debug_text(text)),
        ends(stack_fault_text(origin, StackFault::Unrecognised { line, text }), debug_text(text)),
        ends(
            stack_fault_text(origin, StackFault::Mismatch { line, key, before: text }),
            debug_text(text),
        ),
{
    let bad = "bad format number "@ + debug_text(text);
    a_fault_says_where_it_is(origin, line, bad);
    a_fault_says_where_it_is(origin, line, debug_text(text) + " is not a valid variable name"@);
    a_fault_says_where_it_is(origin, line, "a '-' line was not followed by its '+' line"@);
    a_fault_says_where_it_is(origin, line, "a '+' line has no matching '-' line"@);
    let other = "'+' line for "@ + debug_text(key)
        + " does not match the preceding '-' line for "@ + debug_text(text);
    a_fault_says_where_it_is(origin, line, other);
    let odd = "unrecognised line: "@ + debug_text(text);
    a_fault_says_where_it_is(origin, line, odd);
    lemma_ends_on(located(origin, line, bad), bad, debug_text(text));
    lemma_ends_on(located(origin, line, other), other, debug_text(text));
    lemma_ends_on(located(origin, line, odd), odd, debug_text(text));
}

/// What ends in something ends in what that ends in.
proof fn lemma_ends_on(s: Text, t: Text, u: Text)
    requires
        ends(s, t),
        u.len() <= t.len(),
        t.skip(t.len() - u.len()) =~= u,
    ensures
        ends(s, u),
{
    let tail = s.skip(s.len() - t.len());
    assert(s.skip(s.len() - u.len()) =~= tail.skip(t.len() - u.len()));
}

/// A profile that is not there is named, and where it should be; a name that no
/// profile can have is given with what is wrong with it; and so is a shell that is
/// not known.
pub proof fn a_refusal_names_what_is_refused(name: Text, file: Text, problem: NameProblem)
    ensures
        occurs(no_such_profile(name, file), name),
        occurs(no_such_profile(name, file), file),
        activate_fault_text(ActivateFault::Missing, name, file, file) == no_such_profile(name, file),
        enable_fault_text(EnableFault::Missing { profile: name }, file) == no_such_profile(
            name,
            file,
        ),
        occurs(name_error_text(name, problem), debug_text(name)),
        ends(name_error_text(name, problem), problem_text(problem)),
        occurs(unknown_shell_text(name), debug_text(name)),
{
    let a = "no such profile: '"@;
    let b = "' (expected "@;
    let c = ")"@;
    let tail = b + file + c;
    lemma_occurs(a, name, tail);
    assert(a + name + tail =~= a + name + b + file + c);
    lemma_occurs(a + name + b, file, c);
    let d = "invalid profile name "@;
    let rest = ": "@ + problem_text(problem);
    lemma_occurs(d, debug_text(name), rest);
    let e = name_error_text(name, problem);
    assert(d + debug_text(name) + rest =~= e);
    assert(e.skip(e.len() - problem_text(problem).len()) =~= problem_text(problem));
    lemma_occurs("unknown shell "@, debug_text(name), "; expected bash, powershell or cmd"@);
}

} // verus!
