//! A profile is read line by line.

use vstd::prelude::*;

use crate::dotenv::{
    first_setting, lemma_value_from, settings_from, unexported, value_from, value_of, EnvComplaint,
    EnvFault, Setting, ValueFault,
};
use crate::env::Vars;
use crate::laws::profile_file::gathered;
use crate::shell::identifier;
use crate::text::{
    begins, find, first_solid, last_solid, lemma_find, lemma_find_is, lemma_first_solid,
    lemma_last_solid, lemma_trim_solid, trim, trim_end, trim_start, white, Text,
};

verus! {

/// What a file says of lines that `n` others stand in front of.
pub open spec fn later(r: Result<Seq<Setting>, EnvFault>, n: nat) -> Result<Seq<Setting>, EnvFault> {
    match r {
        Ok(made) => Ok(made),
        Err(fault) => Err(EnvFault { line: fault.line + n, reason: fault.reason }),
    }
}

pub open spec fn all_white(s: Text) -> bool {
    forall|i: int| 0 <= i < s.len() ==> white(#[trigger] s[i])
}

/// A blank line or a comment changes nothing but the numbers of the lines behind
/// it.
pub proof fn a_note_is_skipped(note: Text, comment: Text, indent: Text, rest: Seq<Text>, env: Vars)
    requires
        all_white(indent),
        note == indent || note == indent + seq!['#'] + comment,
    ensures
        settings_from(seq![note] + rest, 0, env) == later(settings_from(rest, 0, env), 1),
{
    let ls = seq![note] + rest;
    lemma_last_solid(note, note.len() as int);
    lemma_first_solid(trim_end(note), 0);
    if note == indent {
        let end: int = last_solid(note, note.len() as int);
        if end > 0 {
            assert(white(note[end - 1]));
        }
    } else {
        let end: int = last_solid(note, note.len() as int);
        assert(note[indent.len() as int] == '#');
        if end <= indent.len() {
            assert(white(note[indent.len() as int]));
        }
        let solid = trim_end(note);
        let start: int = first_solid(solid, 0);
        assert(solid[indent.len() as int] == '#');
        if start > indent.len() {
            assert(white(solid[indent.len() as int]));
        }
        if start < indent.len() {
            assert(solid[start] == indent[start]);
            assert(white(indent[start]));
        }
    }
    lemma_settings_shift(seq![note], rest, 0, env);
}

/// An assignment as it is written: white space, perhaps `export` and more white
/// space, the name, white space, `=`, white space, and the value's first line.
pub open spec fn assignment(
    indent: Text,
    export: Option<Text>,
    key: Text,
    pad: Text,
    gap: Text,
    raw: Text,
) -> Text {
    indent + (match export {
        Some(space) => seq!['e', 'x', 'p', 'o', 'r', 't'] + space,
        None => Seq::empty(),
    }) + key + pad + seq!['='] + gap + raw
}

/// Whether an assignment is what it seems.
pub open spec fn assignment_stands(
    indent: Text,
    export: Option<Text>,
    key: Text,
    pad: Text,
    gap: Text,
    raw: Text,
) -> bool {
    &&& all_white(indent)
    &&& all_white(pad)
    &&& all_white(gap)
    &&& raw.len() > 0 ==> !white(raw[0])
    &&& !key.contains('=')
    &&& key.len() > 0 && !white(key[0]) && !white(key.last()) && key[0] != '#'
    &&& match export {
        Some(space) => all_white(space) && space.len() > 0 && (space[0] == ' ' || space[0] == '\t'),
        None => !(begins(key + pad, seq!['e', 'x', 'p', 'o', 'r', 't']) && (key + pad).len() > 6 && ((
        key + pad)[6] == ' ' || (key + pad)[6] == '\t')),
    }
}

/// An assignment comes first, and the lines behind it see it; a value whose quotes
/// stay open takes in as many lines as it needs, and none that it does not need.
pub proof fn an_assignment_comes_first(
    indent: Text,
    export: Option<Text>,
    key: Text,
    pad: Text,
    gap: Text,
    raw: Text,
    more: Seq<Text>,
    rest: Seq<Text>,
    env: Vars,
)
    requires
        assignment_stands(indent, export, key, pad, gap, raw),
        identifier(key),
        forall|m: int|
            0 <= m < more.len() ==> (value_of(#[trigger] gathered(raw, more, 0, m), env) matches Err(
                e,
            ) && e is Unterminated),
        !(value_of(gathered(raw, more, 0, more.len() as int), env) matches Err(e)
            && e is Unterminated),
    ensures
        settings_from(
            seq![assignment(indent, export, key, pad, gap, raw)] + more + rest,
            0,
            env,
        ) == match value_of(gathered(raw, more, 0, more.len() as int), env) {
            Ok(value) => first_setting(
                Setting { key, value },
                later(settings_from(rest, 0, env.insert(key, value)), 1 + more.len()),
            ),
            Err(error) => Err::<Seq<Setting>, EnvFault>(
                EnvFault { line: 1, reason: EnvComplaint::BadValue { key, error } },
            ),
        },
{
    let line = assignment(indent, export, key, pad, gap, raw);
    let head = seq![line] + more;
    let ls = head + rest;
    assert(ls[0] == line);
    lemma_assignment_parts(indent, export, key, pad, gap, raw);
    lemma_gathering(raw, more, rest, line, 0, env);
    lemma_value_from(raw, ls, 1, env);
    if let Ok(value) = value_of(gathered(raw, more, 0, more.len() as int), env) {
        lemma_settings_shift(head, rest, 0, env.insert(key, value));
    }
}

/// A line whose name is not a valid one is refused, whatever stands behind it.
pub proof fn a_bad_name_is_refused(
    indent: Text,
    export: Option<Text>,
    key: Text,
    pad: Text,
    gap: Text,
    raw: Text,
    rest: Seq<Text>,
    env: Vars,
)
    requires
        assignment_stands(indent, export, key, pad, gap, raw),
        !identifier(key),
    ensures
        settings_from(seq![assignment(indent, export, key, pad, gap, raw)] + rest, 0, env) == Err::<
            Seq<Setting>,
            EnvFault,
        >(EnvFault { line: 1, reason: EnvComplaint::BadName(key) }),
{
    lemma_assignment_parts(indent, export, key, pad, gap, raw);
    let line = assignment(indent, export, key, pad, gap, raw);
    assert((seq![line] + rest)[0] == line);
}

/// A line with nothing in front of its `=` is refused, whatever stands behind it.
pub proof fn a_missing_name_is_refused(indent: Text, raw: Text, rest: Seq<Text>, env: Vars)
    requires
        all_white(indent),
    ensures
        settings_from(seq![indent + (seq!['='] + raw)] + rest, 0, env) == Err::<
            Seq<Setting>,
            EnvFault,
        >(EnvFault { line: 1, reason: EnvComplaint::BadName(Seq::empty()) }),
{
    reveal_strlit("export");
    let line = seq!['='] + raw;
    let long = indent + line;
    assert((seq![long] + rest)[0] == long);
    lemma_indented(indent, line);
    assert("export"@[0] == 'e');
    if begins(line, "export"@) {
        assert(line.take(6)[0] == line[0]);
    }
    lemma_find_is(line, '=', 0, 0);
    assert(line.take(0) =~= Seq::<char>::empty());
    assert(trim(Seq::<char>::empty()) =~= Seq::<char>::empty());
}

/// White space in front of a line does not hide what it is.
proof fn lemma_indented(indent: Text, line: Text)
    requires
        all_white(indent),
        line.len() > 0 && !white(line[0]),
    ensures
        trim(indent + line).len() > 0,
        trim(indent + line)[0] == line[0],
        trim_start(indent + line) == line,
{
    let long = indent + line;
    let n: int = indent.len() as int;
    lemma_led(indent, line);
    lemma_last_solid(long, long.len() as int);
    let end: int = last_solid(long, long.len() as int);
    assert(long[n] == line[0]);
    if end <= n {
        assert(white(long[n]));
    }
    let part = line.take(end - n);
    assert(trim_end(long) =~= indent + part);
    lemma_led(indent, part);
}

/// A line that is neither blank nor a comment and holds no `=` is refused.
pub proof fn a_line_without_equals_is_refused(
    indent: Text,
    line: Text,
    rest: Seq<Text>,
    env: Vars,
)
    requires
        all_white(indent),
        !line.contains('='),
        line.len() > 0 && !white(line[0]) && line[0] != '#',
    ensures
        settings_from(seq![indent + line] + rest, 0, env) == Err::<Seq<Setting>, EnvFault>(
            EnvFault { line: 1, reason: EnvComplaint::NotAssignment },
        ),
{
    assert((seq![indent + line] + rest)[0] == indent + line);
    lemma_indented(indent, line);
    let body = unexported(line);
    reveal_strlit("export");
    if line.len() > 6 {
        lemma_first_solid(line.skip(6), 0);
    }
    lemma_find(body, '=', 0);
    let eq: int = find(body, '=', 0);
    if eq < body.len() {
        if body == line {
            assert(line.contains(line[eq]));
        } else {
            let at: int = 6 + first_solid(line.skip(6), 0) + eq;
            assert(body[eq] == line[at]);
            assert(line.contains(line[at]));
        }
    }
}

/// What a file says is nothing where it has no lines.
pub proof fn an_empty_file_sets_nothing(env: Vars)
    ensures
        settings_from(Seq::empty(), 0, env) == Ok::<Seq<Setting>, EnvFault>(Seq::empty()),
{
}

/// White space in front of something solid.
pub proof fn lemma_led(w: Text, t: Text)
    requires
        all_white(w),
        t.len() > 0 ==> !white(t[0]),
    ensures
        trim_start(w + t) == t,
{
    let s = w + t;
    lemma_first_solid(s, 0);
    let i: int = first_solid(s, 0);
    if i < w.len() {
        assert(s[i] == w[i]);
        assert(white(w[i]));
    }
    if i > w.len() {
        assert(white(s[w.len() as int]));
        assert(s[w.len() as int] == t[0]);
    }
    assert(s.skip(i) =~= t);
}

/// White space behind something solid.
pub proof fn lemma_trailed(t: Text, w: Text)
    requires
        all_white(w),
        t.len() > 0 && !white(t[0]) && !white(t.last()),
    ensures
        trim(t + w) == t,
{
    let s = t + w;
    lemma_last_solid(s, s.len() as int);
    let end: int = last_solid(s, s.len() as int);
    if end < t.len() {
        assert(white(s[t.len() - 1]));
    }
    if end > t.len() {
        assert(s[end - 1] == w[end - 1 - t.len()]);
        assert(white(w[end - 1 - t.len()]));
    }
    assert(s.take(end) =~= t);
    lemma_trim_solid(t);
}

#[verifier::rlimit(40)]
#[verifier::spinoff_prover]
proof fn lemma_assignment_parts(
    indent: Text,
    export: Option<Text>,
    key: Text,
    pad: Text,
    gap: Text,
    raw: Text,
)
    requires
        assignment_stands(indent, export, key, pad, gap, raw),
    ensures
        ({
            let line = assignment(indent, export, key, pad, gap, raw);
            let body = unexported(trim_start(line));
            let eq: int = find(body, '=', 0);
            &&& trim(line).len() > 0
            &&& trim(line)[0] != '#'
            &&& eq < body.len()
            &&& trim(body.take(eq)) == key
            &&& trim_start(body.skip(eq + 1)) == raw
        }),
{
    reveal_strlit("export");
    let word = seq!['e', 'x', 'p', 'o', 'r', 't'];
    assert("export"@ =~= word);
    let line = assignment(indent, export, key, pad, gap, raw);
    let tail = key + pad + seq!['='] + gap + raw;
    let front = match export {
        Some(space) => word + space,
        None => Seq::empty(),
    };
    let solid = front + tail;
    assert(line =~= indent + solid);
    assert(solid[0] == if export is Some {
        'e'
    } else {
        key[0]
    });
    lemma_led(indent, solid);
    // The line is neither blank nor a comment.
    lemma_last_solid(line, line.len() as int);
    let end: int = last_solid(line, line.len() as int);
    assert(line[indent.len() as int] == solid[0]);
    if end <= indent.len() {
        assert(white(line[indent.len() as int]));
    }
    let part = solid.take(end - indent.len());
    assert(trim_end(line) =~= indent + part);
    lemma_led(indent, part);
    assert(part[0] == solid[0]);
    // What is left of it without `export`.
    match export {
        Some(space) => {
            assert(solid.take(6) =~= word);
            assert(solid[6] == space[0]);
            assert(solid.skip(6) =~= space + tail);
            lemma_led(space, tail);
        },
        None => {
            assert(solid =~= tail);
            let kp = key + pad;
            if begins(tail, word) && tail.len() > 6 && (tail[6] == ' ' || tail[6] == '\t') {
                assert forall|j: int| 0 <= j < 6 implies tail[j] == word[j] by {
                    assert(tail.take(6)[j] == word[j]);
                }
                if kp.len() < 6 {
                    assert(tail[kp.len() as int] == '=');
                } else if kp.len() == 6 {
                    assert(tail[6] == '=');
                } else {
                    assert(kp.take(6) =~= word);
                    assert(tail[6] == kp[6]);
                }
            }
        },
    }
    let eq: int = (key.len() + pad.len()) as int;
    assert forall|j: int| 0 <= j < eq implies tail[j] != '=' by {
        if j < key.len() {
            assert(tail[j] == key[j]);
            assert(key.contains(key[j]));
        } else {
            assert(tail[j] == pad[j - key.len()]);
            assert(white(pad[j - key.len()]));
        }
    }
    assert(tail[eq] == '=');
    lemma_find_is(tail, '=', 0, eq);
    assert(tail.take(eq) =~= key + pad);
    lemma_trailed(key, pad);
    assert(tail.skip(eq + 1) =~= gap + raw);
    lemma_led(gap, raw);
}

/// The value takes in lines until it is closed.
proof fn lemma_gathering(
    raw: Text,
    more: Seq<Text>,
    rest: Seq<Text>,
    line: Text,
    m: int,
    env: Vars,
)
    requires
        0 <= m <= more.len(),
        forall|k: int|
            0 <= k < more.len() ==> (value_of(#[trigger] gathered(raw, more, 0, k), env) matches Err(
                e,
            ) && e is Unterminated),
        !(value_of(gathered(raw, more, 0, more.len() as int), env) matches Err(e)
            && e is Unterminated),
    ensures
        value_from(gathered(raw, more, 0, m), seq![line] + more + rest, 1 + m, env)
            == match value_of(gathered(raw, more, 0, more.len() as int), env) {
            Ok(value) => Ok::<(Text, int), ValueFault>((value, 1 + more.len() as int)),
            Err(e) => Err::<(Text, int), ValueFault>(e),
        },
    decreases more.len() - m,
{
    let ls = seq![line] + more + rest;
    if m < more.len() {
        lemma_gathering(raw, more, rest, line, m + 1, env);
        assert(ls[1 + m] == more[m]);
        assert(gathered(raw, more, 0, m + 1) == gathered(raw, more, 0, m).push('\n') + more[m]);
        assert(value_of(gathered(raw, more, 0, m), env) is Err);
    }
}

/// A value is read the same whatever lines stand in front of it.
proof fn lemma_value_shift(raw: Text, a: Seq<Text>, b: Seq<Text>, i: int, env: Vars)
    requires
        0 <= i <= b.len(),
    ensures
        value_from(raw, a + b, a.len() + i, env) == match value_from(raw, b, i, env) {
            Ok((v, next)) => Ok::<(Text, int), ValueFault>((v, a.len() + next)),
            Err(e) => Err::<(Text, int), ValueFault>(e),
        },
    decreases b.len() - i,
{
    if i < b.len() {
        assert((a + b)[a.len() + i] == b[i]);
        lemma_value_shift(raw.push('\n') + b[i], a, b, i + 1, env);
    }
}

/// Lines are read the same whatever lines stand in front of them.
proof fn lemma_settings_shift(a: Seq<Text>, b: Seq<Text>, i: int, env: Vars)
    requires
        0 <= i <= b.len(),
    ensures
        settings_from(a + b, a.len() + i, env) == later(settings_from(b, i, env), a.len()),
    decreases b.len() - i,
{
    let ls = a + b;
    let n: int = a.len() as int;
    if i < b.len() {
        assert(ls[n + i] == b[i]);
        let line = trim(b[i]);
        if line.len() == 0 || line[0] == '#' {
            lemma_settings_shift(a, b, i + 1, env);
        } else {
            let body = unexported(trim_start(b[i]));
            let eq: int = find(body, '=', 0);
            let key = trim(body.take(eq));
            if eq < body.len() && identifier(key) {
                let raw = trim_start(body.skip(eq + 1));
                lemma_value_from(raw, b, i + 1, env);
                lemma_value_from(raw, ls, n + i + 1, env);
                lemma_value_shift(raw, a, b, i + 1, env);
                if let Ok((value, next)) = value_from(raw, b, i + 1, env) {
                    lemma_settings_shift(a, b, next, env.insert(key, value));
                }
            }
        }
    }
}

} // verus!
