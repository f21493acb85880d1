//! A stack file is read row by row.

use vstd::prelude::*;

use crate::laws::file_grammar::{all_white, lemma_led};
use crate::shell::{identifier, name_char};
use crate::stack::{
    completed, no_progress, read_stack, side_of, side_parts, stack_line, stack_state, take_line,
    take_lines, unescape, Override, Progress, Record, StackFault, StackLine, STACK_FORMAT_VERSION,
};
use crate::text::{
    begins, last_solid, lemma_find_is, lemma_last_solid, lemma_lines_unlines, lemma_trim_solid,
    neat, number, trim, trim_end, unlines, white, Text,
};

verus! {

// ---------------------------------------------------------------------------
// Values
// ---------------------------------------------------------------------------

/// A unit of a value as it stands in the file: a character that is no backslash,
/// or a backslash and a character.
pub enum Unit {
    Char(char),
    Pair(char),
}

pub open spec fn unit_text(u: Unit) -> Text {
    match u {
        Unit::Char(c) => seq![c],
        Unit::Pair(c) => seq!['\\', c],
    }
}

/// What a unit stands for: `\n` for a line feed, `\r` for a carriage return, two
/// backslashes for one, and anything else for itself.
pub open spec fn unit_value(u: Unit) -> Text {
    match u {
        Unit::Char(c) => seq![c],
        Unit::Pair('n') => seq!['\n'],
        Unit::Pair('r') => seq!['\r'],
        Unit::Pair('\\') => seq!['\\'],
        Unit::Pair(c) => seq!['\\', c],
    }
}

pub open spec fn units_text(us: Seq<Unit>, k: int) -> Text
    decreases us.len() - k,
{
    if k < 0 || k >= us.len() {
        Seq::empty()
    } else {
        unit_text(us[k]) + units_text(us, k + 1)
    }
}

pub open spec fn units_value(us: Seq<Unit>, k: int) -> Text
    decreases us.len() - k,
{
    if k < 0 || k >= us.len() {
        Seq::empty()
    } else {
        unit_value(us[k]) + units_value(us, k + 1)
    }
}

/// A value in the file stands for what its units stand for, one after the other;
/// a backslash at its end stands for itself.
pub proof fn a_value_is_unescaped_unit_by_unit(us: Seq<Unit>, lone: bool)
    requires
        forall|i: int| 0 <= i < us.len() ==> #[trigger] us[i] != Unit::Char('\\'),
    ensures
        ({
            let end = if lone {
                seq!['\\']
            } else {
                Seq::empty()
            };
            unescape(units_text(us, 0) + end) == units_value(us, 0) + end
        }),
{
    lemma_units(us, lone, 0);
}

proof fn lemma_units(us: Seq<Unit>, lone: bool, k: int)
    requires
        forall|i: int| 0 <= i < us.len() ==> #[trigger] us[i] != Unit::Char('\\'),
        0 <= k <= us.len(),
    ensures
        ({
            let end = if lone {
                seq!['\\']
            } else {
                Seq::empty()
            };
            unescape(units_text(us, k) + end) == units_value(us, k) + end
        }),
    decreases us.len() - k,
{
    let end = if lone {
        seq!['\\']
    } else {
        Seq::empty()
    };
    let s = units_text(us, k) + end;
    if k == us.len() {
        assert(s =~= end);
        assert(units_value(us, k) + end =~= end);
    } else {
        lemma_units(us, lone, k + 1);
        let rest = units_text(us, k + 1) + end;
        let value = units_value(us, k + 1) + end;
        assert(us[k] != Unit::Char('\\'));
        match us[k] {
            Unit::Char(c) => {
                assert(s =~= seq![c] + rest);
                assert(s.drop_first() =~= rest);
            },
            Unit::Pair(c) => {
                assert(s =~= seq!['\\', c] + rest);
                assert(s.skip(2) =~= rest);
            },
        }
        assert(unit_value(us[k]) + value =~= units_value(us, k) + end);
    }
}

// ---------------------------------------------------------------------------
// Rows
// ---------------------------------------------------------------------------

/// A row of the file.
pub enum Row {
    /// White space.
    Blank(Text),
    /// A comment that says nothing in particular.
    Prose(Text),
    /// A line that begins with `---` or `+++`.
    Header(Text),
    /// `# format N`, with white space around the parts.
    Format { before: Text, between: Text, digits: Text, after: Text },
    /// `# active-profile NAME`, with white space around the parts.
    Profile { before: Text, between: Text, name: Text, after: Text },
    /// What a variable was, on a line with `-`, and what it became, on a line with
    /// `+`. A side without a value is unset.
    Entry { key: Text, prev: Option<Text>, now: Option<Text> },
}

/// One side of an entry as it is written.
pub open spec fn written_side(key: Text, value: Option<Text>) -> Text {
    match value {
        Some(v) => key + seq!['='] + v,
        None => key,
    }
}

pub open spec fn row_lines(row: Row) -> Seq<Text> {
    match row {
        Row::Blank(line) => seq![line],
        Row::Prose(text) => seq![seq!['#'] + text],
        Row::Header(line) => seq![line],
        Row::Format { before, between, digits, after } => seq![
            seq!['#'] + before + "format "@ + between + digits + after,
        ],
        Row::Profile { before, between, name, after } => seq![
            seq!['#'] + before + "active-profile "@ + between + name + after,
        ],
        Row::Entry { key, prev, now } => seq![
            seq!['-'] + written_side(key, prev),
            seq!['+'] + written_side(key, now),
        ],
    }
}

pub open spec fn solid(s: Text) -> bool {
    s.len() > 0 && !white(s[0]) && !white(s.last())
}

/// Whether a row is what it seems.
pub open spec fn row_stands(row: Row) -> bool {
    match row {
        Row::Blank(line) => all_white(line),
        Row::Prose(text) => {
            let t = trim(trim_end(seq!['#'] + text).skip(1));
            !begins(t, "format "@) && !begins(t, "active-profile "@)
        },
        Row::Header(line) => begins(trim_end(line), "---"@) || begins(trim_end(line), "+++"@),
        Row::Format { before, between, digits, after } => all_white(before) && all_white(between)
            && all_white(after) && solid(digits) && number(digits) is Some,
        Row::Profile { before, between, name, after } => all_white(before) && all_white(between)
            && all_white(after) && solid(name),
        Row::Entry { key, prev: _, now: _ } => identifier(key),
    }
}

/// The lines of the rows.
pub open spec fn rows_lines(rows: Seq<Row>) -> Seq<Text>
    decreases rows.len(),
{
    if rows.len() == 0 {
        Seq::empty()
    } else {
        rows_lines(rows.drop_last()) + row_lines(rows.last())
    }
}

/// The entries among the rows, in order.
pub open spec fn rows_entries(rows: Seq<Row>) -> Seq<Override>
    decreases rows.len(),
{
    if rows.len() == 0 {
        Seq::empty()
    } else {
        let before = rows_entries(rows.drop_last());
        match rows.last() {
            Row::Entry { key, prev, now } => before.push(
                Override { key, prev: unescaped_side(prev), now: unescaped_side(now) },
            ),
            _ => before,
        }
    }
}

pub open spec fn unescaped_side(value: Option<Text>) -> Option<Text> {
    match value {
        Some(v) => Some(unescape(v)),
        None => None,
    }
}

/// The profile that is named last, if one is.
pub open spec fn rows_profile(rows: Seq<Row>) -> Option<Text>
    decreases rows.len(),
{
    if rows.len() == 0 {
        None
    } else {
        match rows.last() {
            Row::Profile { before: _, between: _, name, after: _ } => Some(name),
            _ => rows_profile(rows.drop_last()),
        }
    }
}

/// The format that is given last, or the one this library writes.
pub open spec fn rows_format(rows: Seq<Row>) -> u32
    decreases rows.len(),
{
    if rows.len() == 0 {
        STACK_FORMAT_VERSION
    } else {
        match rows.last() {
            Row::Format { before: _, between: _, digits, after: _ } => number(digits)->0,
            _ => rows_format(rows.drop_last()),
        }
    }
}

pub open spec fn rows_stand(rows: Seq<Row>) -> bool {
    forall|i: int| 0 <= i < rows.len() ==> row_stands(#[trigger] rows[i])
}

/// A file of rows holds the entries among them, in order, and the profile that is
/// named last; it is refused only where it is of another format or names no
/// profile.
pub proof fn a_stack_is_read_row_by_row(rows: Seq<Row>)
    requires
        rows_stand(rows),
        forall|i: int| 0 <= i < rows_lines(rows).len() ==> neat(#[trigger] rows_lines(rows)[i]),
    ensures
        read_stack(unlines(rows_lines(rows))) == if rows_format(rows) != STACK_FORMAT_VERSION {
            Err::<Record, StackFault>(StackFault::WrongFormat { version: rows_format(rows) })
        } else {
            match rows_profile(rows) {
                Some(profile) => Ok::<Record, StackFault>(
                    Record { profile, entries: rows_entries(rows) },
                ),
                None => Err::<Record, StackFault>(StackFault::NoProfile),
            }
        },
{
    lemma_lines_unlines(rows_lines(rows));
    lemma_rows(rows);
}

/// A line that does not fit where it stands, behind rows that do, is what is
/// wrong with the file, whatever follows it: a `+` line that no `-` line stands in
/// front of, a `-` line or a `+` line for no proper name, two `-` lines, a `+` line
/// for another variable than the `-` line in front of it, a format that is no
/// number, and anything that is none of these.
pub proof fn a_line_that_does_not_fit_is_refused(
    rows: Seq<Row>,
    key: Text,
    prev: Option<Text>,
    other: Text,
    now: Option<Text>,
    strange: Text,
    rest: Seq<Text>,
)
    requires
        rows_stand(rows),
        identifier(key),
        identifier(other),
        solid(strange),
        strange[0] != '#' && strange[0] != '-' && strange[0] != '+',
    ensures
        ({
            let head = rows_lines(rows);
            let n: nat = head.len() + 1;
            let before = seq!['-'] + written_side(key, prev);
            let after = seq!['+'] + written_side(other, now);
            &&& take_lines(no_progress(), head + seq![after] + rest, 0) == Err::<
                Progress,
                StackFault,
            >(StackFault::UnmatchedAfter { line: n })
            &&& take_lines(no_progress(), head + seq![strange] + rest, 0) == Err::<
                Progress,
                StackFault,
            >(StackFault::Unrecognised { line: n, text: strange })
            &&& take_lines(
                no_progress(),
                head + seq![before, seq!['-'] + written_side(other, now)] + rest,
                0,
            ) == Err::<Progress, StackFault>(StackFault::UnansweredBefore { line: n + 1 })
            &&& key != other ==> take_lines(no_progress(), head + seq![before, after] + rest, 0)
                == Err::<Progress, StackFault>(
                StackFault::Mismatch { line: n + 1, key: other, before: key },
            )
            &&& take_lines(no_progress(), head + seq![before], 0) matches Ok(p) && completed(p)
                == Err::<Record, StackFault>(StackFault::Unfinished { key })
        }),
{
    lemma_rows(rows);
    let head = rows_lines(rows);
    let k: int = head.len() as int;
    let p = rows_progress(rows);
    let before = seq!['-'] + written_side(key, prev);
    let after = seq!['+'] + written_side(other, now);
    let again = seq!['-'] + written_side(other, now);
    lemma_side_row('-', key, prev);
    lemma_side_row('+', other, now);
    lemma_side_row('-', other, now);
    lemma_strange(strange);
    let q = Progress { pending: Some((key, unescaped_side(prev))), ..p };
    lemma_read_on(no_progress(), head, seq![after] + rest, 0);
    assert(head + seq![after] + rest =~= head + (seq![after] + rest));
    assert((head + (seq![after] + rest))[k] == after);
    lemma_read_on(no_progress(), head, seq![strange] + rest, 0);
    assert(head + seq![strange] + rest =~= head + (seq![strange] + rest));
    assert((head + (seq![strange] + rest))[k] == strange);
    let a = seq![before, again] + rest;
    lemma_read_on(no_progress(), head, a, 0);
    assert(head + seq![before, again] + rest =~= head + a);
    assert((head + a)[k] == before && (head + a)[k + 1] == again);
    assert(take_line(p, (k + 1) as nat, stack_line(before)) == Ok::<Progress, StackFault>(q));
    assert(take_lines(p, head + a, k) == take_lines(q, head + a, k + 1));
    let b = seq![before, after] + rest;
    lemma_read_on(no_progress(), head, b, 0);
    assert(head + seq![before, after] + rest =~= head + b);
    assert((head + b)[k] == before && (head + b)[k + 1] == after);
    assert(take_lines(p, head + b, k) == take_lines(q, head + b, k + 1));
    let c = seq![before];
    lemma_read_on(no_progress(), head, c, 0);
    assert((head + c)[k] == before);
    assert(take_lines(q, head + c, k + 1) == Ok::<Progress, StackFault>(q));
    assert(take_lines(p, head + c, k) == Ok::<Progress, StackFault>(q));
}

/// What the rows make of it.
spec fn rows_progress(rows: Seq<Row>) -> Progress {
    Progress {
        version: rows_format(rows),
        profile: rows_profile(rows),
        entries: rows_entries(rows),
        pending: None,
    }
}

proof fn lemma_rows(rows: Seq<Row>)
    requires
        rows_stand(rows),
    ensures
        take_lines(no_progress(), rows_lines(rows), 0) == Ok::<Progress, StackFault>(
            rows_progress(rows),
        ),
    decreases rows.len(),
{
    let ls = rows_lines(rows);
    if rows.len() > 0 {
        let shorter = rows.drop_last();
        let row = rows.last();
        assert forall|i: int| 0 <= i < shorter.len() implies row_stands(#[trigger] shorter[i]) by {
            assert(row_stands(rows[i]));
        }
        assert(row_stands(rows[rows.len() - 1]));
        lemma_rows(shorter);
        let a = rows_lines(shorter);
        let b = row_lines(row);
        let k: int = a.len() as int;
        let p = rows_progress(shorter);
        let q = rows_progress(rows);
        lemma_read_on(no_progress(), a, b, 0);
        assert(ls == a + b);
        lemma_row(row);
        assert(ls[k] == b[0]);
        match row {
            Row::Entry { key, prev, now } => {
                assert(ls[k + 1] == b[1]);
                let m = Progress { pending: Some((key, unescaped_side(prev))), ..p };
                assert(take_line(p, (k + 1) as nat, stack_line(ls[k])) == Ok::<
                    Progress,
                    StackFault,
                >(m));
                assert(take_line(m, (k + 2) as nat, stack_line(ls[k + 1])) == Ok::<
                    Progress,
                    StackFault,
                >(q));
                assert(take_lines(q, ls, k + 2) == Ok::<Progress, StackFault>(q));
                assert(take_lines(m, ls, k + 1) == Ok::<Progress, StackFault>(q));
            },
            _ => {
                assert(take_line(p, (k + 1) as nat, stack_line(ls[k])) == Ok::<
                    Progress,
                    StackFault,
                >(q));
                assert(take_lines(q, ls, k + 1) == Ok::<Progress, StackFault>(q));
            },
        }
    }
}

/// Reading goes on behind lines that were read.
proof fn lemma_read_on(p: Progress, a: Seq<Text>, b: Seq<Text>, i: int)
    requires
        0 <= i <= a.len(),
    ensures
        take_lines(p, a, i) matches Ok(q) ==> take_lines(p, a + b, i) == take_lines(
            q,
            a + b,
            a.len() as int,
        ),
    decreases a.len() - i,
{
    if i < a.len() {
        assert((a + b)[i] == a[i]);
        if let Ok(next) = take_line(p, (i + 1) as nat, stack_line(a[i])) {
            lemma_read_on(next, a, b, i + 1);
        }
    }
}

/// What the lines of a row are.
proof fn lemma_row(row: Row)
    requires
        row_stands(row),
    ensures
        match row {
            Row::Blank(line) => stack_line(line) is Blank,
            Row::Prose(text) => stack_line(seq!['#'] + text) is Prose,
            Row::Header(line) => stack_line(line) is Header,
            Row::Format { before: _, between: _, digits, after: _ } => stack_line(
                row_lines(row)[0],
            ) matches StackLine::Format(t) && number(trim(t)) == number(digits),
            Row::Profile { before: _, between: _, name, after: _ } => stack_line(
                row_lines(row)[0],
            ) == StackLine::Profile(name),
            Row::Entry { key, prev, now } => {
                &&& stack_line(row_lines(row)[0]) == StackLine::Before(written_side(key, prev))
                &&& stack_line(row_lines(row)[1]) == StackLine::After(written_side(key, now))
                &&& side_parts(written_side(key, prev)) == Ok::<(Text, Option<Text>), Text>(
                    (key, unescaped_side(prev)),
                )
                &&& side_parts(written_side(key, now)) == Ok::<(Text, Option<Text>), Text>(
                    (key, unescaped_side(now)),
                )
            },
        },
{
    reveal_strlit("format ");
    reveal_strlit("active-profile ");
    reveal_strlit("---");
    reveal_strlit("+++");
    match row {
        Row::Blank(line) => {
            lemma_last_solid(line, line.len() as int);
            let end: int = last_solid(line, line.len() as int);
            if end > 0 {
                assert(white(line[end - 1]));
            }
        },
        Row::Prose(text) => {
            let line = seq!['#'] + text;
            lemma_first_stays(line);
        },
        Row::Header(line) => {
            let t = trim_end(line);
            if begins(t, "---"@) {
                assert(t.take(3)[0] == '-');
            } else {
                assert(t.take(3)[0] == '+');
            }
        },
        Row::Format { before, between, digits, after } => {
            let said = "format "@ + between + digits;
            lemma_comment_row(before, said, after);
            let line = row_lines(row)[0];
            assert(line =~= seq!['#'] + before + said + after);
            assert(said.take(7) =~= "format "@);
            assert(said.skip(7) =~= between + digits);
            lemma_two_ends(between, digits);
        },
        Row::Profile { before, between, name, after } => {
            let said = "active-profile "@ + between + name;
            lemma_comment_row(before, said, after);
            let line = row_lines(row)[0];
            assert(line =~= seq!['#'] + before + said + after);
            assert(said.take(7)[0] == 'a' && "format "@[0] == 'f');
            assert(said.take(15) =~= "active-profile "@);
            assert(said.skip(15) =~= between + name);
            lemma_two_ends(between, name);
        },
        Row::Entry { key, prev, now } => {
            lemma_side_row('-', key, prev);
            lemma_side_row('+', key, now);
        },
    }
}

/// White space in front of something solid.
proof fn lemma_two_ends(w: Text, t: Text)
    requires
        all_white(w),
        solid(t),
    ensures
        trim(w + t) == t,
{
    let s = w + t;
    assert(s.last() == t.last());
    assert(s.take(s.len() as int) =~= s);
    lemma_led(w, t);
}

/// What does not begin in white space still begins as it did when it is trimmed.
proof fn lemma_first_stays(line: Text)
    requires
        line.len() > 0,
        !white(line[0]),
    ensures
        trim_end(line).len() > 0,
        trim_end(line)[0] == line[0],
{
    lemma_last_solid(line, line.len() as int);
    if last_solid(line, line.len() as int) <= 0 {
        assert(white(line[0]));
    }
}

/// A comment with something to say.
proof fn lemma_comment_row(before: Text, said: Text, after: Text)
    requires
        all_white(before),
        all_white(after),
        solid(said),
    ensures
        ({
            let line = trim_end(seq!['#'] + before + said + after);
            line.len() > 0 && line[0] == '#' && trim(line.skip(1)) == said
        }),
{
    let front = seq!['#'] + before + said;
    let line = front + after;
    lemma_last_solid(line, line.len() as int);
    let end: int = last_solid(line, line.len() as int);
    assert(front.last() == said.last());
    if end < front.len() {
        assert(white(line[front.len() - 1]));
    }
    if end > front.len() {
        assert(line[end - 1] == after[end - 1 - front.len()]);
        assert(white(after[end - 1 - front.len()]));
    }
    assert(trim_end(line) =~= front);
    assert(front.skip(1) =~= before + said);
    lemma_two_ends(before, said);
}

/// A line with one side of an entry.
proof fn lemma_side_row(sign: char, key: Text, value: Option<Text>)
    requires
        sign == '-' || sign == '+',
        identifier(key),
    ensures
        ({
            let side = written_side(key, value);
            &&& side_parts(side) == Ok::<(Text, Option<Text>), Text>((key, unescaped_side(value)))
            &&& stack_line(seq![sign] + side) == if sign == '-' {
                StackLine::Before(side)
            } else {
                StackLine::After(side)
            }
        }),
{
    reveal_strlit("---");
    reveal_strlit("+++");
    let side = written_side(key, value);
    let line = seq![sign] + side;
    assert forall|j: int| 0 <= j < key.len() implies #[trigger] key[j] != '=' && !white(key[j]) by {
        assert(name_char(key[j]));
    }
    lemma_find_is(side, '=', 0, key.len() as int);
    assert(side.take(key.len() as int) =~= key);
    assert(line.skip(1) =~= side);
    match value {
        Some(v) => {
            assert(side[key.len() as int] == '=');
            assert(side.contains(side[key.len() as int]));
            assert(side.skip(key.len() as int + 1) =~= v);
        },
        None => {
            assert(!side.contains('='));
            assert(key.last() == key[key.len() - 1]);
            lemma_trim_solid(key);
        },
    }
    lemma_last_solid(line, line.len() as int);
    let end: int = last_solid(line, line.len() as int);
    assert(line[1] == key[0]);
    assert(name_char(key[0]));
    if end < 2 {
        assert(white(line[1]));
    }
    let t = trim_end(line);
    assert(t[0] == sign && t[1] == key[0]);
    assert(t.len() >= 3 ==> t.take(3)[1] == key[0]);
    assert("---"@[1] == '-' && "+++"@[1] == '+');
}

/// A line that is nothing in particular.
proof fn lemma_strange(line: Text)
    requires
        solid(line),
        line[0] != '#' && line[0] != '-' && line[0] != '+',
    ensures
        stack_line(line) == StackLine::Strange(line),
{
    reveal_strlit("---");
    reveal_strlit("+++");
    lemma_trim_solid(line);
    assert(line.len() >= 3 ==> line.take(3)[0] == line[0]);
    assert("---"@[0] == '-' && "+++"@[0] == '+');
}

/// A side for no proper name is refused, and so is a format that is no number.
pub proof fn a_bad_side_or_format_is_refused(
    p: Progress,
    n: nat,
    name: Text,
    value: Option<Text>,
    before: Text,
    digits: Text,
)
    requires
        solid(name) && !name.contains('=') && !identifier(name) && name[0] != '-' && name[0] != '+',
        p.pending is None,
        all_white(before),
        solid(digits),
        number(digits) is None,
    ensures
        take_line(p, n, stack_line(seq!['-'] + written_side(name, value))) == Err::<
            Progress,
            StackFault,
        >(StackFault::BadName { line: n, name }),
        take_line(p, n, stack_line(seq!['+'] + written_side(name, value))) == Err::<
            Progress,
            StackFault,
        >(StackFault::BadName { line: n, name }),
        take_line(p, n, stack_line(seq!['#'] + before + "format "@ + digits)) == Err::<
            Progress,
            StackFault,
        >(StackFault::BadFormat { line: n, text: digits }),
        // A side that waits for its other half comes first.
        take_line(
            Progress { pending: Some((name, value)), ..p },
            n,
            stack_line(seq!['-'] + written_side(name, value)),
        ) == Err::<Progress, StackFault>(StackFault::UnansweredBefore { line: n }),
        take_line(
            Progress { pending: Some((name, value)), ..p },
            n,
            stack_line(seq!['+'] + written_side(name, value)),
        ) == Err::<Progress, StackFault>(StackFault::BadName { line: n, name }),
{
    reveal_strlit("---");
    reveal_strlit("+++");
    reveal_strlit("format ");
    let side = written_side(name, value);
    assert forall|j: int| 0 <= j < name.len() implies #[trigger] name[j] != '=' by {
        assert(name.contains(name[j]));
    }
    lemma_find_is(side, '=', 0, name.len() as int);
    assert(side.take(name.len() as int) =~= name);
    assert(side_of(side) == side) by {
        match value {
            Some(v) => {
                assert(side[name.len() as int] == '=');
                assert(side.contains(side[name.len() as int]));
            },
            None => {
                assert(!side.contains('='));
                lemma_trim_solid(name);
            },
        }
    }
    lemma_bad_side('-', side);
    lemma_bad_side('+', side);
    let said = "format "@ + digits;
    assert(said.last() == digits.last());
    lemma_comment_row(before, said, Seq::empty());
    assert(seq!['#'] + before + said + Seq::<char>::empty() =~= seq!['#'] + before + "format "@
        + digits);
    assert(said.take(7) =~= "format "@);
    assert(said.skip(7) =~= digits);
    lemma_trim_solid(digits);
}

proof fn lemma_bad_side(sign: char, side: Text)
    requires
        sign == '-' || sign == '+',
        side.len() > 0,
        !white(side[0]) && side[0] != '-' && side[0] != '+',
        side_of(side) == side,
    ensures
        stack_line(seq![sign] + side) == if sign == '-' {
            StackLine::Before(side)
        } else {
            StackLine::After(side)
        },
{
    reveal_strlit("---");
    reveal_strlit("+++");
    let line = seq![sign] + side;
    assert(line.skip(1) =~= side);
    lemma_last_solid(line, line.len() as int);
    let end: int = last_solid(line, line.len() as int);
    assert(line[1] == side[0]);
    if end < 2 {
        assert(white(line[1]));
    }
    let t = trim_end(line);
    assert(t[0] == sign && t[1] == side[0]);
    assert(t.len() >= 3 ==> t.take(3)[1] == side[0]);
    assert("---"@[1] == '-' && "+++"@[1] == '+');
}

/// A file with nothing in it but white space holds no stack; any other is read.
pub proof fn only_an_empty_file_holds_no_stack(content: Text)
    ensures
        all_white(content) ==> stack_state(content) == Ok::<Option<Record>, StackFault>(None),
        !all_white(content) ==> stack_state(content) == (match read_stack(content) {
            Ok(r) => Ok::<Option<Record>, StackFault>(Some(r)),
            Err(e) => Err::<Option<Record>, StackFault>(e),
        }),
{
    lemma_last_solid(content, content.len() as int);
    let end: int = last_solid(content, content.len() as int);
    let t = trim_end(content);
    crate::text::lemma_first_solid(t, 0);
    if all_white(content) {
        if end > 0 {
            assert(white(content[end - 1]));
        }
    } else {
        let i = choose|i: int| 0 <= i < content.len() && !white(#[trigger] content[i]);
        if end <= i {
            assert(white(content[i]));
        }
        assert(t[i] == content[i]);
        let start: int = crate::text::first_solid(t, 0);
        if start > i {
            assert(white(t[i]));
        }
    }
}

} // verus!
