//! What is written to the restore stack is what is read back from it.

use vstd::prelude::*;

use crate::shell::{identifier, name_char};
use crate::stack::{
    entry_lines, escape, escape_char, header_lines, no_progress, read_stack, side_of, side_parts,
    side_text, stack_line, stack_state, stack_text, take_line, take_lines, unescape, Override,
    Progress, Record, StackFault, StackLine, STACK_FORMAT_VERSION,
};
use crate::text::{
    begins, decimal, digits_value, first_solid, last_solid, lemma_find_is, lemma_first_solid,
    lemma_last_solid, lemma_lines_unlines, lemma_trim_solid, lemma_unlines_join, neat, number, trim,
    trim_end, unlines, white, Text,
};

verus! {

/// A value that was escaped and unescaped is the value it was.
pub proof fn escaping_round_trips(value: Text)
    ensures
        unescape(escape(value)) == value,
    decreases value.len(),
{
    if value.len() > 0 {
        let c = value[0];
        let rest = value.drop_first();
        lemma_escape_first(value);
        escaping_round_trips(rest);
        let all = escape_char(c) + escape(rest);
        assert(seq![c] + rest =~= value);
        if c == '\\' || c == '\n' || c == '\r' {
            assert(all.skip(2) =~= escape(rest));
        } else {
            assert(all.drop_first() =~= escape(rest));
        }
    } else {
        assert(value =~= Seq::empty());
    }
}

/// An escaped value stays on one line.
pub proof fn an_escaped_value_is_one_line(value: Text)
    ensures
        !escape(value).contains('\n'),
        !escape(value).contains('\r'),
    decreases value.len(),
{
    if value.len() > 0 {
        an_escaped_value_is_one_line(value.drop_last());
        let head = escape(value.drop_last());
        let tail = escape_char(value.last());
        assert forall|j: int| 0 <= j < escape(value).len() implies escape(value)[j] != '\n' && escape(
            value,
        )[j] != '\r' by {
            if j < head.len() {
                assert(head.contains(head[j]));
            } else {
                assert(escape(value)[j] == tail[j - head.len()]);
            }
        }
    }
}

proof fn lemma_escape_first(s: Text)
    requires
        s.len() > 0,
    ensures
        escape(s) == escape_char(s[0]) + escape(s.drop_first()),
    decreases s.len(),
{
    if s.len() == 1 {
        assert(s.drop_last() =~= Seq::empty());
        assert(s.drop_first() =~= Seq::empty());
        assert(escape(s) =~= escape_char(s[0]) + escape(s.drop_first()));
    } else {
        lemma_escape_first(s.drop_last());
        assert(s.drop_last().drop_first() =~= s.drop_first().drop_last());
        assert(escape(s) =~= escape_char(s[0]) + escape(s.drop_first()));
    }
}

/// A profile name that the file keeps: some text on one line, with no white
/// space around it.
pub open spec fn keepable_profile(profile: Text) -> bool {
    &&& profile.len() > 0
    &&& !profile.contains('\n')
    &&& !white(profile[0])
    &&& !white(profile.last())
}

/// A stack that the file keeps: it is about a profile and about variables with
/// proper names. The values may be any.
pub open spec fn keepable(stack: Record) -> bool {
    &&& keepable_profile(stack.profile)
    &&& forall|i: int| 0 <= i < stack.entries.len() ==> identifier(#[trigger] stack.entries[i].key)
}

/// Reading a stack back gives the stack that was written, whatever its values
/// hold.
pub proof fn a_written_stack_is_read_back(stack: Record)
    requires
        keepable(stack),
    ensures
        read_stack(stack_text(stack)) == Ok::<Record, StackFault>(stack),
        stack_state(stack_text(stack)) == Ok::<Option<Record>, StackFault>(
            Some(stack),
        ),
{
    let ls = header_lines(stack.profile) + entry_lines(stack.entries);
    lemma_headers(stack.profile);
    lemma_entries(stack.profile, stack.entries);
    lemma_lines_unlines(ls);
    assert(trim(stack_text(stack)).len() > 0) by {
        let text = stack_text(stack);
        lemma_first_line(stack);
        lemma_last_solid(text, text.len() as int);
        lemma_first_solid(trim_end(text), 0);
        assert(text[0] == '#');
        let end: int = last_of(text);
        if end == 0 {
            assert(white(text[0]));
        }
        assert(trim_end(text)[0] == '#');
    }
}

spec fn last_of(s: Text) -> int {
    last_solid(s, s.len() as int)
}

/// The file begins with a comment.
proof fn lemma_first_line(stack: Record)
    requires
        keepable(stack),
    ensures
        stack_text(stack).len() > 0,
        stack_text(stack)[0] == '#',
{
    let ls = header_lines(stack.profile) + entry_lines(stack.entries);
    let first = seq![ls[0]];
    let rest = ls.skip(1);
    assert(ls =~= first + rest);
    lemma_unlines_join(first, rest);
    assert(first.drop_last() =~= Seq::<Text>::empty());
    reveal_strlit("# envc restore stack -- `activate` writes it, `deactivate` replays it.");
    assert(ls[0] == header_lines(stack.profile)[0]);
    assert(ls[0][0] == '#');
    assert(unlines(Seq::<Text>::empty()) =~= Seq::<char>::empty());
    assert(unlines(first) =~= ls[0] + seq!['\n']);
    assert(unlines(first)[0] == '#');
}

/// What a comment line with the text `t` is.
spec fn comment_line(t: Text) -> StackLine {
    if begins(t, "format "@) {
        StackLine::Format(t.skip(7))
    } else if begins(t, "active-profile "@) {
        StackLine::Profile(trim(t.skip(15)))
    } else {
        StackLine::Prose
    }
}

proof fn lemma_comment(line: Text, t: Text)
    requires
        line == seq!['#', ' '] + t,
        t.len() > 0,
        !white(t[0]),
        !white(t.last()),
    ensures
        stack_line(line) == comment_line(t),
{
    lemma_trim_solid(line);
    let rest = line.skip(1);
    assert(rest =~= seq![' '] + t);
    assert(trim_end(rest) == rest) by {
        assert(rest.take(rest.len() as int) =~= rest);
        assert(rest.last() == t.last());
    }
    assert(trim(rest) =~= t) by {
        assert(white(rest[0]));
        assert(rest[1] == t[0]);
        reveal_with_fuel(first_solid, 3);
        assert(rest.skip(1) =~= t);
    }
}

/// The progress that the lines in front of the entries make.
spec fn headed(profile: Text, entries: Seq<Override>) -> Progress {
    Progress { version: STACK_FORMAT_VERSION, profile: Some(profile), entries, pending: None }
}

proof fn lemma_headers(profile: Text)
    requires
        keepable_profile(profile),
    ensures
        take_lines(no_progress(), header_lines(profile), 0) == Ok::<
            Progress,
            StackFault,
        >(headed(profile, Seq::empty())),
        forall|i: int| 0 <= i < 7 ==> neat(#[trigger] header_lines(profile)[i]),
        header_lines(profile).len() == 7,
{
    let ls = header_lines(profile);
    lemma_prose(profile);
    lemma_format_line(profile);
    lemma_profile_line(profile);
    lemma_decorations(profile);
    let p0 = no_progress();
    let p1 = Progress { profile: Some(profile), ..p0 };
    assert(take_lines(p1, ls, 7) == Ok::<Progress, StackFault>(p1));
    assert(take_lines(p1, ls, 6) == Ok::<Progress, StackFault>(p1));
    assert(take_lines(p1, ls, 5) == Ok::<Progress, StackFault>(p1));
    assert(take_lines(p0, ls, 4) == Ok::<Progress, StackFault>(p1));
    assert(take_lines(p0, ls, 3) == Ok::<Progress, StackFault>(p1));
    assert(take_lines(p0, ls, 2) == Ok::<Progress, StackFault>(p1));
    assert(take_lines(p0, ls, 1) == Ok::<Progress, StackFault>(p1));
    assert(take_lines(p0, ls, 0) == Ok::<Progress, StackFault>(p1));
}

proof fn lemma_prose(profile: Text)
    ensures
        forall|i: int|
            0 <= i < 3 ==> neat(#[trigger] header_lines(profile)[i]) && stack_line(
                header_lines(profile)[i],
            ) is Prose,
{
    reveal_strlit("# envc restore stack -- `activate` writes it, `deactivate` replays it.");
    reveal_strlit("# '-' is the value before the profile, '+' what it installed.");
    reveal_strlit("# A side with no `=value` means unset, so undoing it is `unset`.");
    reveal_strlit("format ");
    reveal_strlit("active-profile ");
    let ls = header_lines(profile);
    assert forall|i: int| 0 <= i < 3 implies neat(#[trigger] ls[i]) && stack_line(
        ls[i],
    ) is Prose by {
        let line = ls[i];
        let t = line.skip(2);
        assert(line =~= seq!['#', ' '] + t);
        lemma_comment(line, t);
        assert(t[0] != 'f' && t[0] != 'a');
        assert(t.take(7)[0] == t[0] && t.take(15)[0] == t[0]);
        assert("format "@[0] == 'f' && "active-profile "@[0] == 'a');
    }
}

proof fn lemma_format_line(profile: Text)
    ensures
        neat(header_lines(profile)[3]),
        stack_line(header_lines(profile)[3]) == StackLine::Format(seq!['1']),
        number(trim(seq!['1'])) == Some(STACK_FORMAT_VERSION),
{
    reveal_strlit("# format ");
    reveal_strlit("format ");
    let line = header_lines(profile)[3];
    assert(decimal(1) =~= seq!['1']);
    let t = "format "@ + seq!['1'];
    assert(line =~= seq!['#', ' '] + t);
    lemma_comment(line, t);
    assert(t.take(7) =~= "format "@);
    assert(t.skip(7) =~= seq!['1']);
    lemma_trim_solid(seq!['1']);
    assert(seq!['1'].drop_last() =~= Seq::<char>::empty());
    assert(digits_value(seq!['1'].drop_last()) == 0);
    assert(digits_value(seq!['1']) == 1);
}

proof fn lemma_profile_line(profile: Text)
    requires
        keepable_profile(profile),
    ensures
        neat(header_lines(profile)[4]),
        stack_line(header_lines(profile)[4]) == StackLine::Profile(profile),
{
    reveal_strlit("# active-profile ");
    reveal_strlit("active-profile ");
    reveal_strlit("format ");
    let line = header_lines(profile)[4];
    let t = "active-profile "@ + profile;
    assert(line =~= seq!['#', ' '] + t);
    lemma_comment(line, t);
    assert(t.take(15) =~= "active-profile "@);
    assert(t.skip(15) =~= profile);
    assert(t.take(7)[0] == 'a' && "format "@[0] == 'f');
    lemma_trim_solid(profile);
    assert forall|j: int| 0 <= j < line.len() implies line[j] != '\n' by {
        if j >= 17 {
            assert(line[j] == profile[j - 17]);
            assert(profile.contains(profile[j - 17]));
        }
    }
    assert(line.last() == profile.last());
}

proof fn lemma_decorations(profile: Text)
    requires
        keepable_profile(profile),
    ensures
        neat(header_lines(profile)[5]),
        stack_line(header_lines(profile)[5]) is Header,
        neat(header_lines(profile)[6]),
        stack_line(header_lines(profile)[6]) is Header,
{
    reveal_strlit("--- before envc");
    reveal_strlit("+++ after `");
    reveal_strlit("`");
    reveal_strlit("---");
    reveal_strlit("+++");
    let a = header_lines(profile)[5];
    let b = header_lines(profile)[6];
    lemma_trim_solid(a);
    assert(a.take(3) =~= "---"@);
    assert(b.last() == '`');
    lemma_trim_solid(b);
    assert(b.take(3) =~= "+++"@);
    assert forall|j: int| 0 <= j < b.len() implies b[j] != '\n' by {
        if 11 <= j < b.len() - 1 {
            assert(b[j] == profile[j - 11]);
            assert(profile.contains(profile[j - 11]));
        }
    }
}

/// Lines beyond those that were read do not matter.
proof fn lemma_take_prefix(p: Progress, a: Seq<Text>, b: Seq<Text>, i: int)
    requires
        0 <= i <= a.len(),
    ensures
        take_lines(p, a, i) matches Ok(q) ==> take_lines(p, a + b, i) == take_lines(
            q,
            a + b,
            a.len() as int,
        ),
    decreases a.len() - i,
{
    if i < a.len() {
        assert((a + b)[i] == a[i]);
        match take_line(p, (i + 1) as nat, stack_line(a[i])) {
            Ok(next) => {
                lemma_take_prefix(next, a, b, i + 1);
            },
            Err(_) => {},
        }
    }
}

proof fn lemma_side(key: Text, value: Option<Text>)
    requires
        identifier(key),
    ensures
        ({
            let side = side_text(key, value);
            &&& side_parts(side) == Ok::<(Text, Option<Text>), Text>((key, value))
            &&& side_of(side) == side
            &&& side.len() > 0
            &&& side[0] == key[0]
            &&& side.last() != '\r'
            &&& !side.contains('\n')
        }),
{
    reveal_strlit("=");
    let side = side_text(key, value);
    assert forall|j: int| 0 <= j < key.len() implies key[j] != '=' && key[j] != '\n' && !white(
        key[j],
    ) by {
        assert(name_char(key[j]));
    }
    lemma_find_is(side, '=', 0, key.len() as int);
    assert(side.take(key.len() as int) =~= key);
    match value {
        Some(v) => {
            let e = escape(v);
            assert(side[key.len() as int] == '=');
            assert(side.skip(key.len() as int + 1) =~= e);
            escaping_round_trips(v);
            an_escaped_value_is_one_line(v);
            assert forall|j: int| 0 <= j < side.len() implies side[j] != '\n' by {
                if j > key.len() {
                    assert(side[j] == e[j - key.len() - 1]);
                    assert(e.contains(e[j - key.len() - 1]));
                }
            }
            if e.len() > 0 {
                assert(side.last() == e.last());
                assert(e.contains(e.last()));
            } else {
                assert(side.last() == '=');
            }
        },
        None => {
            assert(side.last() == key[key.len() - 1]);
            lemma_trim_solid(key);
            assert forall|j: int| 0 <= j < side.len() implies side[j] != '\n' by {}
        },
    }
}

proof fn lemma_side_line(sign: Text, key: Text, value: Option<Text>)
    requires
        identifier(key),
        sign == "-"@ || sign == "+"@,
    ensures
        neat(sign + side_text(key, value)),
        sign == "-"@ ==> stack_line(sign + side_text(key, value)) == StackLine::Before(
            side_text(key, value),
        ),
        sign == "+"@ ==> stack_line(sign + side_text(key, value)) == StackLine::After(
            side_text(key, value),
        ),
{
    reveal_strlit("-");
    reveal_strlit("+");
    reveal_strlit("---");
    reveal_strlit("+++");
    let side = side_text(key, value);
    lemma_side(key, value);
    let line = sign + side;
    assert(line.last() == side.last());
    assert(name_char(key[0]));
    assert(line[1] == key[0]);
    assert(line.skip(1) =~= side);
    lemma_last_solid(line, line.len() as int);
    let solid = trim_end(line);
    let end: int = last_of(line);
    if end < 2 {
        assert(white(line[1]));
    }
    assert(solid[0] == line[0] && solid[1] == key[0]);
    assert(solid.len() >= 3 ==> solid.take(3)[1] == key[0]);
    assert("---"@[1] == '-' && "+++"@[1] == '+');
    assert forall|j: int| 0 <= j < line.len() implies line[j] != '\n' by {
        if j > 0 {
            assert(line[j] == side[j - 1]);
            assert(side.contains(side[j - 1]));
        }
    }
    assert("-"@[0] == '-' && "+"@[0] == '+');
}

proof fn lemma_entries(profile: Text, entries: Seq<Override>)
    requires
        keepable(Record { profile, entries }),
    ensures
        take_lines(no_progress(), header_lines(profile) + entry_lines(entries), 0) == Ok::<
            Progress,
            StackFault,
        >(headed(profile, entries)),
        forall|i: int|
            0 <= i < (header_lines(profile) + entry_lines(entries)).len() ==> neat(
                #[trigger] (header_lines(profile) + entry_lines(entries))[i],
            ),
    decreases entries.len(),
{
    let head = header_lines(profile);
    lemma_headers(profile);
    if entries.len() == 0 {
        assert(head + entry_lines(entries) =~= head);
        assert(entries =~= Seq::empty());
    } else {
        let shorter = entries.drop_last();
        let e = entries.last();
        let less = Record { profile, entries: shorter };
        let whole = Record { profile, entries };
        assert forall|i: int| 0 <= i < less.entries.len() implies identifier(
            #[trigger] less.entries[i].key,
        ) by {
            assert(identifier(whole.entries[i].key));
        }
        assert(keepable(less));
        lemma_entries(profile, shorter);
        let before = "-"@ + side_text(e.key, e.prev);
        let after = "+"@ + side_text(e.key, e.now);
        let a = head + entry_lines(shorter);
        let b = seq![before, after];
        let all = head + entry_lines(entries);
        assert(all =~= a + b);
        lemma_take_prefix(no_progress(), a, b, 0);
        assert(identifier(whole.entries[entries.len() - 1].key));
        lemma_side_line("-"@, e.key, e.prev);
        lemma_side_line("+"@, e.key, e.now);
        lemma_side(e.key, e.prev);
        lemma_side(e.key, e.now);
        reveal_strlit("-");
        reveal_strlit("+");
        assert("-"@[0] == '-' && "+"@[0] == '+');
        let q = headed(profile, shorter);
        let n: int = a.len() as int;
        let q1 = Progress { pending: Some((e.key, e.prev)), ..q };
        let q2 = headed(profile, shorter.push(Override { key: e.key, prev: e.prev, now: e.now }));
        assert(all[n] == before && all[n + 1] == after);
        assert(take_line(q, (n + 1) as nat, stack_line(before)) == Ok::<
            Progress,
            StackFault,
        >(q1));
        assert(take_line(q1, (n + 2) as nat, stack_line(after)) == Ok::<
            Progress,
            StackFault,
        >(q2));
        assert(take_lines(q2, all, n + 2) == Ok::<Progress, StackFault>(q2));
        assert(take_lines(q1, all, n + 1) == Ok::<Progress, StackFault>(q2));
        assert(take_lines(q, all, n) == Ok::<Progress, StackFault>(q2));
        assert(shorter.push(e) =~= entries);
        assert forall|i: int| 0 <= i < all.len() implies neat(#[trigger] all[i]) by {
            if i < n {
                assert(all[i] == a[i]);
            }
        }
    }
}

} // verus!
