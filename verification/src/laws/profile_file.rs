//! What the lines of a profile stand for.

use vstd::prelude::*;

use crate::dotenv::{
    comment_at, expansion, finish, first_setting, lemma_part_of_line, lemma_reference,
    lemma_value_from, pieces, quote_of, settings, settings_from, unexported, value_from, value_of,
    EnvComplaint, EnvFault, Setting, ValueFault,
};
use crate::env::Vars;
use crate::laws::values::{
    a_reference_gives_the_variable, bare, bare_text_is_kept, double_quotes_keep_plain_text,
    lemma_never_closed, lemma_section, lemma_value_start, single_quotes_are_literal,
};
use crate::profile::{name_problem, profile_char, template_text};
use crate::shell::{identifier, name_char};
use crate::text::{
    begins, feeds, find, first_solid, lemma_feeds_join, lemma_feeds_none, lemma_feeds_same,
    lemma_find_is, lemma_last_solid, lemma_lines_unlines, lemma_no_feeds, lemma_trim_solid, lines,
    neat, trim, trim_end, trim_start, unlines, white, Text,
};

verus! {

/// Every name that a profile sets is a valid one.
pub proof fn names_are_valid(content: Text, env: Vars)
    ensures
        settings(content, env) matches Ok(s) ==> forall|i: int|
            0 <= i < s.len() ==> identifier(#[trigger] s[i].key),
{
    lemma_names(lines(content), 0, env);
}

proof fn lemma_names(ls: Seq<Text>, idx: int, env: Vars)
    requires
        0 <= idx <= ls.len(),
    ensures
        settings_from(ls, idx, env) matches Ok(s) ==> forall|i: int|
            0 <= i < s.len() ==> identifier(#[trigger] s[i].key),
    decreases ls.len() - idx,
{
    if idx < ls.len() {
        let line = trim(ls[idx]);
        if line.len() == 0 || line[0] == '#' {
            lemma_names(ls, idx + 1, env);
        } else {
            let body = unexported(trim_start(ls[idx]));
            let eq: int = find(body, '=', 0);
            let key = trim(body.take(eq));
            if eq < body.len() && identifier(key) {
                let raw = trim_start(body.skip(eq + 1));
                lemma_value_from(raw, ls, idx + 1, env);
                if let Ok((value, next)) = value_from(raw, ls, idx + 1, env) {
                    let rest = settings_from(ls, next, env.insert(key, value));
                    lemma_names(ls, next, env.insert(key, value));
                    if let Ok(s) = rest {
                        let all = seq![Setting { key, value }] + s;
                        assert forall|i: int| 0 <= i < all.len() implies identifier(
                            #[trigger] all[i].key,
                        ) by {
                            if i > 0 {
                                assert(all[i] == s[i - 1]);
                                assert(identifier(s[i - 1].key));
                            }
                        }
                    }
                }
            }
        }
    }
}

/// A new profile sets nothing.
pub proof fn a_new_profile_sets_nothing(name: Text, env: Vars)
    requires
        name_problem(name) is None,
    ensures
        settings(template_text(name), env) == Ok::<Seq<Setting>, EnvFault>(Seq::empty()),
{
    reveal_strlit("# envc profile: ");
    reveal_strlit("\n# KEY=value, one per line. Edit this file however you like.\n");
    let tail = "\n# KEY=value, one per line. Edit this file however you like.\n"@;
    let first = "# envc profile: "@ + name;
    let second = tail.subrange(1, tail.len() - 1);
    let ls = seq![first, second];
    assert(ls.drop_last() =~= seq![first]);
    assert(ls.drop_last().drop_last() =~= Seq::<Text>::empty());
    assert(unlines(Seq::<Text>::empty()) =~= Seq::<char>::empty());
    assert(unlines(seq![first]) =~= first + seq!['\n']);
    assert(unlines(ls) =~= first + seq!['\n'] + second + seq!['\n']);
    assert(seq!['\n'] + second + seq!['\n'] =~= tail);
    assert(template_text(name) =~= unlines(ls));
    assert forall|j: int| 0 <= j < first.len() implies first[j] != '\n' by {
        if j >= 16 {
            assert(first[j] == name[j - 16]);
            assert(profile_char(name[j - 16]));
        }
    }
    assert(profile_char(name[name.len() - 1]));
    assert(first.last() == name[name.len() - 1]);
    assert forall|i: int| 0 <= i < ls.len() implies neat(#[trigger] ls[i]) by {}
    lemma_lines_unlines(ls);
    lemma_trim_solid(first);
    lemma_trim_solid(second);
    assert(settings_from(ls, 2, env) == Ok::<Seq<Setting>, EnvFault>(Seq::empty()));
    assert(settings_from(ls, 1, env) == Ok::<Seq<Setting>, EnvFault>(Seq::empty()));
}

/// A line `KEY=raw`.
pub open spec fn assignment_line(key: Text, raw: Text) -> Text {
    key + seq!['='] + raw
}

/// Each line sees what the lines before it set, in front of what the environment
/// holds.
pub proof fn later_lines_see_earlier_ones(key: Text, text: Text, other: Text, env: Vars)
    requires
        identifier(key),
        identifier(other),
        bare(text),
    ensures
        settings(
            unlines(
                seq![assignment_line(key, text), assignment_line(other, seq!['$'] + key)],
            ),
            env,
        ) == Ok::<Seq<Setting>, EnvFault>(
            seq![Setting { key, value: text }, Setting { key: other, value: text }],
        ),
{
    let again = seq!['$'] + key;
    let ls = seq![assignment_line(key, text), assignment_line(other, again)];
    assert forall|j: int| 0 <= j < text.len() implies text[j] != '\n' by {
        assert(!white(text[j]));
    }
    assert(!white(text[text.len() - 1]) && !white(text[0]));
    assert(name_char(key[key.len() - 1]));
    assert forall|j: int| 0 <= j < again.len() implies again[j] != '\n' by {
        if j > 0 {
            assert(again[j] == key[j - 1]);
            assert(name_char(key[j - 1]));
        }
    }
    assert(again.last() == key[key.len() - 1]);
    lemma_neat_assignment(key, text);
    lemma_neat_assignment(other, again);
    assert forall|i: int| 0 <= i < ls.len() implies neat(#[trigger] ls[i]) by {}
    lemma_lines_unlines(ls);
    bare_text_is_kept(text, Seq::empty(), env);
    assert(text + Seq::<char>::empty() =~= text);
    lemma_assignment(ls, 0, key, text, env);
    let env1 = env.insert(key, text);
    a_reference_gives_the_variable(key, env1);
    lemma_assignment(ls, 1, other, again, env1);
    let none = settings_from(ls, 2, env1.insert(other, text));
    assert(none == Ok::<Seq<Setting>, EnvFault>(Seq::empty()));
    let second = Setting { key: other, value: text };
    assert(first_setting(second, none) == Ok::<Seq<Setting>, EnvFault>(
        seq![second] + Seq::empty(),
    ));
    assert(seq![second] + Seq::<Setting>::empty() =~= seq![second]);
    assert(seq![Setting { key, value: text }] + seq![second] =~= seq![
        Setting { key, value: text },
        second,
    ]);
    assert(value_from(again, ls, 2, env1) == Ok::<(Text, int), ValueFault>((text, 2)));
    assert(value_from(text, ls, 1, env) == Ok::<(Text, int), ValueFault>((text, 1)));
}

/// `export` in front of an assignment may be left out.
pub proof fn export_may_be_left_out(key: Text, text: Text, env: Vars)
    requires
        identifier(key),
        bare(text),
    ensures
        settings(unlines(seq![assignment_line(key, text)]), env) == Ok::<Seq<Setting>, EnvFault>(
            seq![Setting { key, value: text }],
        ),
        settings(unlines(seq!["export "@ + assignment_line(key, text)]), env) == Ok::<
            Seq<Setting>,
            EnvFault,
        >(seq![Setting { key, value: text }]),
{
    reveal_strlit("export ");
    reveal_strlit("export");
    let line = assignment_line(key, text);
    let long = "export "@ + line;
    let a = seq![line];
    let b = seq![long];
    assert forall|j: int| 0 <= j < text.len() implies text[j] != '\n' by {
        assert(!white(text[j]));
    }
    assert(!white(text[text.len() - 1]) && !white(text[0]));
    lemma_neat_assignment(key, text);
    assert forall|j: int| 0 <= j < long.len() implies long[j] != '\n' by {
        if j >= 7 {
            assert(long[j] == line[j - 7]);
            assert(line.contains(line[j - 7]));
        }
    }
    assert(long.last() == text.last());
    assert forall|i: int| 0 <= i < a.len() implies neat(#[trigger] a[i]) by {}
    assert forall|i: int| 0 <= i < b.len() implies neat(#[trigger] b[i]) by {}
    lemma_lines_unlines(a);
    lemma_lines_unlines(b);
    bare_text_is_kept(text, Seq::empty(), env);
    assert(text + Seq::<char>::empty() =~= text);
    lemma_assignment(a, 0, key, text, env);
    lemma_trim_solid(long);
    assert(trim_start(long) == long);
    assert(long.take(6) =~= "export"@);
    let rest = long.skip(6);
    assert(rest[0] == ' ' && rest[1] == key[0]);
    assert(name_char(key[0]));
    reveal_with_fuel(first_solid, 3);
    assert(rest.skip(1) =~= line);
    assert(unexported(long) == line);
    lemma_parts(key, text);
    let none = settings_from(a, 1, env.insert(key, text));
    assert(none == Ok::<Seq<Setting>, EnvFault>(Seq::empty()));
    assert(settings_from(b, 1, env.insert(key, text)) == Ok::<Seq<Setting>, EnvFault>(
        Seq::empty(),
    ));
    let one = Setting { key, value: text };
    assert(seq![one] + Seq::<Setting>::empty() =~= seq![one]);
    assert(value_from(text, a, 1, env) == Ok::<(Text, int), ValueFault>((text, 1)));
    assert(value_from(text, b, 1, env) == Ok::<(Text, int), ValueFault>((text, 1)));
}

/// Text in which nothing is special behind the quote `q` but that quote.
pub open spec fn inert(q: char, text: Text) -> bool {
    &&& q == '\'' || q == '"'
    &&& !text.contains(q)
    &&& q == '"' ==> !text.contains('\\') && !text.contains('$')
}

/// The first `n` of the lines `more`, each behind a line feed, behind `first`.
pub open spec fn spanned(first: Text, more: Seq<Text>, n: int) -> Text
    decreases n,
{
    if n <= 0 {
        first
    } else {
        spanned(first, more, n - 1).push('\n') + more[n - 1]
    }
}

/// The lines of an assignment whose value stands in quotes and goes on over more
/// lines.
pub open spec fn spanning_lines(key: Text, q: char, first: Text, more: Seq<Text>) -> Seq<Text> {
    seq![assignment_line(key, seq![q] + first)] + more.drop_last() + seq![more.last() + seq![q]]
}

/// A quoted value may span lines: everything between the quotes is part of it,
/// the line feeds and the white space in front of them too. Only a carriage
/// return in front of a line feed goes with that.
pub proof fn a_quoted_value_may_span_lines(
    key: Text,
    q: char,
    first: Text,
    more: Seq<Text>,
    env: Vars,
)
    requires
        identifier(key),
        more.len() > 0,
        inert(q, first),
        neat(first),
        forall|i: int|
            0 <= i < more.len() ==> inert(q, #[trigger] more[i]) && !more[i].contains('\n'),
        forall|i: int| 0 <= i < more.len() - 1 ==> neat(#[trigger] more[i]),
    ensures
        settings(unlines(spanning_lines(key, q, first, more)), env) == Ok::<
            Seq<Setting>,
            EnvFault,
        >(seq![Setting { key, value: spanned(first, more, more.len() as int) }]),
{
    let ls = spanning_lines(key, q, first, more);
    let raw = seq![q] + first;
    let n: int = more.len() as int;
    let value = spanned(first, more, n);
    assert forall|j: int| 0 <= j < raw.len() implies raw[j] != '\n' by {
        if j > 0 {
            assert(raw[j] == first[j - 1]);
            assert(first.contains(first[j - 1]));
        }
    }
    lemma_neat_assignment(key, raw);
    let end = more.last() + seq![q];
    assert forall|j: int| 0 <= j < end.len() implies end[j] != '\n' by {
        if j < more.last().len() {
            assert(end[j] == more[n - 1][j]);
            assert(!more[n - 1].contains('\n'));
            assert(more[n - 1].contains(more[n - 1][j]));
        }
    }
    assert forall|i: int| 0 <= i < ls.len() implies neat(#[trigger] ls[i]) by {
        if 0 < i < n {
            assert(ls[i] == more[i - 1]);
            assert(neat(more[i - 1]));
        }
    }
    lemma_lines_unlines(ls);
    lemma_goes_on(key, q, first, more, 0, env);
    assert(ls[0] == assignment_line(key, raw));
    assert(value_from(raw, ls, 1, env) == Ok::<(Text, int), ValueFault>((value, n + 1)));
    lemma_line_with_value(ls, 0, key, raw, env);
    assert(ls.len() == n + 1);
    let none = settings_from(ls, n + 1, env.insert(key, value));
    assert(none == Ok::<Seq<Setting>, EnvFault>(Seq::empty()));
    let one = Setting { key, value };
    assert(seq![one] + Seq::<Setting>::empty() =~= seq![one]);
}

/// The value goes on to its closing quote.
proof fn lemma_goes_on(key: Text, q: char, first: Text, more: Seq<Text>, k: int, env: Vars)
    requires
        more.len() > 0,
        0 <= k < more.len(),
        inert(q, first),
        forall|i: int| 0 <= i < more.len() ==> inert(q, #[trigger] more[i]),
    ensures
        value_from(
            seq![q] + spanned(first, more, k),
            spanning_lines(key, q, first, more),
            1 + k,
            env,
        ) == Ok::<(Text, int), ValueFault>(
            (spanned(first, more, more.len() as int), more.len() as int + 1),
        ),
    decreases more.len() - k,
{
    let ls = spanning_lines(key, q, first, more);
    let n: int = more.len() as int;
    let text = spanned(first, more, k);
    let raw = seq![q] + text;
    lemma_still_inert(q, first, more, k);
    lemma_unclosed(Seq::empty(), q, text, env);
    assert(written(Seq::empty()) + seq![q] + text =~= raw);
    let longer = raw.push('\n') + ls[1 + k];
    let next = spanned(first, more, k + 1);
    if k + 1 < n {
        assert(ls[1 + k] == more[k]);
        assert(longer =~= seq![q] + next);
        lemma_goes_on(key, q, first, more, k + 1, env);
    } else {
        assert(ls[1 + k] == more[k] + seq![q]);
        assert(longer =~= seq![q] + next + seq![q]);
        lemma_still_inert(q, first, more, k + 1);
        if q == '\'' {
            single_quotes_are_literal(next, env);
        } else {
            double_quotes_keep_plain_text(next, env);
        }
        assert(value_from(longer, ls, 2 + k, env) == Ok::<(Text, int), ValueFault>((next, 2 + k)));
    }
}

proof fn lemma_still_inert(q: char, first: Text, more: Seq<Text>, k: int)
    requires
        0 <= k <= more.len(),
        inert(q, first),
        forall|i: int| 0 <= i < more.len() ==> inert(q, #[trigger] more[i]),
    ensures
        inert(q, spanned(first, more, k)),
    decreases k,
{
    if k > 0 {
        lemma_still_inert(q, first, more, k - 1);
        let before = spanned(first, more, k - 1);
        let text = spanned(first, more, k);
        let line = more[k - 1];
        assert forall|j: int| 0 <= j < text.len() implies text[j] != q && (q == '"' ==> text[j]
            != '\\' && text[j] != '$') by {
            if j < before.len() {
                assert(before.contains(before[j]));
            } else if j > before.len() {
                assert(text[j] == line[j - before.len() - 1]);
                assert(line.contains(line[j - before.len() - 1]));
            }
        }
    }
}

// ---------------------------------------------------------------------------
// Quotes that are never closed
// ---------------------------------------------------------------------------

/// Quoted sections, one straight behind the other: each is a quote and the text
/// between it and its like.
pub open spec fn written(sections: Seq<(char, Text)>) -> Text
    decreases sections.len(),
{
    if sections.len() == 0 {
        Seq::empty()
    } else {
        let (q, text) = sections.last();
        written(sections.drop_last()) + seq![q] + text + seq![q]
    }
}

/// `raw` and the first `n` of the lines from `next` on, each behind a line feed.
pub open spec fn gathered(raw: Text, ls: Seq<Text>, next: int, n: int) -> Text
    decreases n,
{
    if n <= 0 {
        raw
    } else {
        gathered(raw, ls, next, n - 1).push('\n') + ls[next + n - 1]
    }
}

/// A quote that is opened and never closed is reported with the line on which it
/// was opened: the line of the assignment, and one more for each line feed in
/// the sections that were closed before it.
pub proof fn an_open_quote_is_reported_where_it_opened(
    ls: Seq<Text>,
    idx: int,
    key: Text,
    raw: Text,
    closed: Seq<(char, Text)>,
    q: char,
    text: Text,
    env: Vars,
)
    requires
        identifier(key),
        0 <= idx < ls.len(),
        ls[idx] == assignment_line(key, raw),
        gathered(raw, ls, idx + 1, ls.len() - idx - 1) == written(closed) + seq![q] + text,
        forall|i: int| 0 <= i < closed.len() ==> inert(#[trigger] closed[i].0, closed[i].1),
        inert(q, text),
    ensures
        ({
            let before = feeds(written(closed), written(closed).len() as int);
            settings_from(ls, idx, env) == Err::<Seq<Setting>, EnvFault>(
                EnvFault {
                    line: (idx + 1) as nat + before,
                    reason: EnvComplaint::BadValue {
                        key,
                        error: ValueFault::Unterminated { quote: q, feeds: before },
                    },
                },
            )
        }),
{
    let all = written(closed) + seq![q] + text;
    let n: int = ls.len() - idx - 1;
    lemma_gathered(raw, ls, idx + 1, 0, n);
    lemma_first_quote(closed, q, text);
    if raw.len() == 0 {
        assert(all[0] == '\n');
    }
    assert(raw[0] == all[0]);
    lemma_parts(key, raw);
    lemma_open_to_the_end(raw, ls, idx + 1, closed, q, text, 0, env);
}

/// A quote that is reported as open stands on the line that is reported,
/// whatever else the value holds.
pub proof fn an_open_quote_is_on_the_reported_line(content: Text, env: Vars)
    ensures
        settings(content, env) matches Err(fault) ==> (fault.reason matches EnvComplaint::BadValue {
            key: _,
            error: ValueFault::Unterminated { quote, feeds: _ },
        } ==> 0 < fault.line <= lines(content).len() && lines(content)[fault.line - 1].contains(
            quote,
        )),
{
    lemma_no_feeds(content, 0);
    lemma_reported_line(lines(content), 0, env);
}

proof fn lemma_reported_line(ls: Seq<Text>, idx: int, env: Vars)
    requires
        0 <= idx <= ls.len(),
        forall|j: int| 0 <= j < ls.len() ==> !(#[trigger] ls[j]).contains('\n'),
    ensures
        settings_from(ls, idx, env) matches Err(fault) ==> (
        fault.reason matches EnvComplaint::BadValue {
            key: _,
            error: ValueFault::Unterminated { quote, feeds: _ },
        } ==> 0 < fault.line <= ls.len() && ls[fault.line - 1].contains(quote)),
    decreases ls.len() - idx,
{
    if idx < ls.len() {
        let line = trim(ls[idx]);
        if line.len() == 0 || line[0] == '#' {
            lemma_reported_line(ls, idx + 1, env);
        } else {
            let body = unexported(trim_start(ls[idx]));
            let eq: int = find(body, '=', 0);
            let key = trim(body.take(eq));
            if eq < body.len() && identifier(key) {
                let raw = trim_start(body.skip(eq + 1));
                assert(!ls[idx].contains('\n'));
                lemma_part_of_line(ls[idx], raw);
                lemma_value_from(raw, ls, idx + 1, env);
                match value_from(raw, ls, idx + 1, env) {
                    Ok((value, next)) => {
                        lemma_reported_line(ls, next, env.insert(key, value));
                    },
                    Err(_) => {
                        lemma_reported_value(raw, ls, idx + 1, 0, env);
                    },
                }
            }
        }
    }
}

/// The quote that is left open by a value that began with `raw`, once `n` more
/// lines have been gathered.
proof fn lemma_reported_value(raw: Text, ls: Seq<Text>, next: int, n: int, env: Vars)
    requires
        0 < next <= ls.len(),
        0 <= n <= ls.len() - next,
        forall|j: int| 0 <= j < ls.len() ==> !(#[trigger] ls[j]).contains('\n'),
        forall|j: int| 0 <= j < raw.len() ==> ls[next - 1].contains(#[trigger] raw[j]),
    ensures
        value_from(gathered(raw, ls, next, n), ls, next + n, env) matches Err(
            ValueFault::Unterminated { quote, feeds },
        ) ==> next + feeds <= ls.len() && ls[next - 1 + feeds].contains(quote),
    decreases ls.len() - next - n,
{
    let s = gathered(raw, ls, next, n);
    if let Err(ValueFault::Unterminated { quote, feeds: count }) = value_of(s, env) {
        if next + n < ls.len() {
            lemma_reported_value(raw, ls, next, n + 1, env);
        } else {
            lemma_open_at(s, 0, None, true, env);
            let at = choose|at: int|
                0 <= at < s.len() && #[trigger] s[at] == quote && count == feeds(s, at);
            assert(quote != '\n');
            lemma_which_line(raw, ls, next, n, at);
        }
    }
}

/// An open quote stands where it is said to stand.
proof fn lemma_open_at(s: Text, i: int, open: Option<(char, int)>, fresh: bool, env: Vars)
    requires
        0 <= i <= s.len(),
        open matches Some((q, at)) ==> 0 <= at < s.len() && s[at] == q && q != '\n',
    ensures
        pieces(s, i, open, fresh, env) matches Err(
            ValueFault::Unterminated { quote, feeds: count },
        ) ==> quote != '\n' && exists|at: int|
            0 <= at < s.len() && #[trigger] s[at] == quote && count == feeds(s, at),
    decreases s.len() - i,
{
    if i < s.len() {
        let c = s[i];
        let quote = quote_of(open);
        if quote == Some(c) {
            lemma_open_at(s, i + 1, None, true, env);
        } else if quote == Some('\'') {
            lemma_open_at(s, i + 1, open, fresh, env);
        } else if c == '\'' || c == '"' {
            if quote is None && fresh {
                lemma_open_at(s, i + 1, Some((c, i)), fresh, env);
            } else {
                lemma_open_at(s, i + 1, open, false, env);
            }
        } else if c == '\\' {
            if i + 1 < s.len() {
                lemma_open_at(s, i + 2, open, false, env);
            }
        } else if c == '$' {
            lemma_reference(s, i);
            if let Ok((v, next)) = expansion(s, i, env) {
                lemma_open_at(s, next, open, fresh && v.len() == 0, env);
            }
        } else if quote is None && c == '#' && comment_at(s, i) {
        } else {
            lemma_open_at(s, i + 1, open, false, env);
        }
    } else {
        if let Some((q, at)) = open {
            assert(s[at] == q);
        }
    }
}

/// Which line a character of the gathered text comes from.
proof fn lemma_which_line(raw: Text, ls: Seq<Text>, next: int, n: int, at: int)
    requires
        0 < next <= ls.len(),
        0 <= n <= ls.len() - next,
        forall|j: int| 0 <= j < ls.len() ==> !(#[trigger] ls[j]).contains('\n'),
        forall|j: int| 0 <= j < raw.len() ==> ls[next - 1].contains(#[trigger] raw[j]),
        0 <= at < gathered(raw, ls, next, n).len(),
        gathered(raw, ls, next, n)[at] != '\n',
    ensures
        ({
            let s = gathered(raw, ls, next, n);
            feeds(s, at) <= n && ls[next - 1 + feeds(s, at)].contains(s[at])
        }),
    decreases n,
{
    let s = gathered(raw, ls, next, n);
    if n == 0 {
        lemma_raw_feeds(raw, ls[next - 1]);
        lemma_feeds_none(raw, at);
        assert(ls[next - 1].contains(raw[at]));
    } else {
        let before = gathered(raw, ls, next, n - 1);
        let line = ls[next + n - 1];
        if at < before.len() {
            lemma_which_line(raw, ls, next, n - 1, at);
            lemma_feeds_same(before, s, at);
            assert(s[at] == before[at]);
        } else {
            assert(at != before.len());
            let k: int = at - before.len() - 1;
            lemma_gathered_feeds(raw, ls, next, n - 1);
            lemma_feeds_same(before, before.push('\n'), before.len() as int);
            lemma_feeds_join(before.push('\n'), line, k);
            lemma_feeds_none(line, k);
            assert(s[at] == line[k]);
        }
    }
}

proof fn lemma_raw_feeds(raw: Text, line: Text)
    requires
        !line.contains('\n'),
        forall|j: int| 0 <= j < raw.len() ==> line.contains(#[trigger] raw[j]),
    ensures
        !raw.contains('\n'),
{
    assert forall|j: int| 0 <= j < raw.len() implies raw[j] != '\n' by {
        assert(line.contains(raw[j]));
    }
}

/// The gathered text holds one line feed for each line that was gathered.
proof fn lemma_gathered_feeds(raw: Text, ls: Seq<Text>, next: int, n: int)
    requires
        0 < next <= ls.len(),
        0 <= n <= ls.len() - next,
        forall|j: int| 0 <= j < ls.len() ==> !(#[trigger] ls[j]).contains('\n'),
        forall|j: int| 0 <= j < raw.len() ==> ls[next - 1].contains(#[trigger] raw[j]),
    ensures
        feeds(gathered(raw, ls, next, n), gathered(raw, ls, next, n).len() as int) == n,
    decreases n,
{
    if n == 0 {
        lemma_raw_feeds(raw, ls[next - 1]);
        lemma_feeds_none(raw, raw.len() as int);
    } else {
        let before = gathered(raw, ls, next, n - 1);
        let line = ls[next + n - 1];
        lemma_gathered_feeds(raw, ls, next, n - 1);
        lemma_feeds_same(before, before.push('\n'), before.len() as int);
        lemma_feeds_join(before.push('\n'), line, line.len() as int);
        lemma_feeds_none(line, line.len() as int);
    }
}

/// The text gathered first is the beginning of the text gathered later, with a
/// line feed behind it.
proof fn lemma_gathered(raw: Text, ls: Seq<Text>, next: int, n: int, m: int)
    requires
        0 <= n <= m,
    ensures
        ({
            let a = gathered(raw, ls, next, n);
            let b = gathered(raw, ls, next, m);
            &&& begins(b, a)
            &&& n < m ==> a.len() < b.len() && b[a.len() as int] == '\n'
            &&& n == 0 ==> a == raw
        }),
    decreases m - n,
{
    let a = gathered(raw, ls, next, n);
    let b = gathered(raw, ls, next, m);
    if n < m {
        lemma_gathered(raw, ls, next, n, m - 1);
        let c = gathered(raw, ls, next, m - 1);
        assert(b.take(a.len() as int) =~= c.take(a.len() as int));
    } else {
        assert(b.take(a.len() as int) =~= a);
    }
}

/// Sections that are closed, and one that is not, begin with a quote.
proof fn lemma_first_quote(closed: Seq<(char, Text)>, q: char, text: Text)
    requires
        forall|i: int| 0 <= i < closed.len() ==> inert(#[trigger] closed[i].0, closed[i].1),
        inert(q, text),
    ensures
        ({
            let all = written(closed) + seq![q] + text;
            all.len() > 0 && (all[0] == '\'' || all[0] == '"')
        }),
    decreases closed.len(),
{
    if closed.len() > 0 {
        let shorter = closed.drop_last();
        let (p, inner) = closed.last();
        assert(inert(closed[closed.len() - 1].0, closed[closed.len() - 1].1));
        assert forall|i: int| 0 <= i < shorter.len() implies inert(
            #[trigger] shorter[i].0,
            shorter[i].1,
        ) by {
            assert(inert(closed[i].0, closed[i].1));
        }
        lemma_first_quote(shorter, p, inner);
        let head = written(shorter) + seq![p] + inner;
        assert((written(closed) + seq![q] + text)[0] == head[0]);
    }
}

/// Closed sections at the beginning of a value.
proof fn lemma_sections(s: Text, closed: Seq<(char, Text)>, env: Vars) -> (out: Text)
    requires
        begins(s, written(closed)),
        forall|i: int| 0 <= i < closed.len() ==> inert(#[trigger] closed[i].0, closed[i].1),
    ensures
        value_of(s, env) == finish(
            out,
            Seq::empty(),
            pieces(s, written(closed).len() as int, None, true, env),
        ),
    decreases closed.len(),
{
    if closed.len() == 0 {
        lemma_value_start(s, env);
        Seq::empty()
    } else {
        let shorter = closed.drop_last();
        let (p, inner) = closed.last();
        let done = written(shorter);
        let all = written(closed);
        assert(inert(closed[closed.len() - 1].0, closed[closed.len() - 1].1));
        assert forall|i: int| 0 <= i < shorter.len() implies inert(
            #[trigger] shorter[i].0,
            shorter[i].1,
        ) by {
            assert(inert(closed[i].0, closed[i].1));
        }
        assert forall|j: int| 0 <= j < all.len() implies #[trigger] s[j] == all[j] by {
            assert(s.take(all.len() as int)[j] == s[j]);
        }
        assert(s.take(done.len() as int) =~= done);
        let before = lemma_sections(s, shorter, env);
        let i: int = done.len() as int;
        assert(s.subrange(i + 1, i + 1 + inner.len()) =~= inner);
        assert(s[i] == all[i] && s[i + inner.len() + 1] == all[i + inner.len() + 1]);
        lemma_section(s, i, p, inner, true, before, env);
        before + inner
    }
}

/// A value whose last section is not closed.
proof fn lemma_unclosed(closed: Seq<(char, Text)>, q: char, text: Text, env: Vars)
    requires
        forall|i: int| 0 <= i < closed.len() ==> inert(#[trigger] closed[i].0, closed[i].1),
        inert(q, text),
    ensures
        value_of(written(closed) + seq![q] + text, env) == Err::<Text, ValueFault>(
            ValueFault::Unterminated {
                quote: q,
                feeds: feeds(written(closed), written(closed).len() as int),
            },
        ),
{
    let done = written(closed);
    let s = done + seq![q] + text;
    let i: int = done.len() as int;
    assert(s.take(i) =~= done);
    let out = lemma_sections(s, closed, env);
    assert forall|j: int| i + 1 <= j < s.len() implies #[trigger] s[j] != q && (q == '"' ==> s[j]
        != '\\' && s[j] != '$') by {
        assert(s[j] == text[j - i - 1]);
        assert(text.contains(text[j - i - 1]));
    }
    lemma_never_closed(s, i + 1, q, i, true, env);
    lemma_feeds_same(done, s, i);
    assert(s[i] == q);
}

/// A value that is cut in front of a line feed, which can only stand inside a
/// section, leaves that section open.
proof fn lemma_cut(closed: Seq<(char, Text)>, q: char, text: Text, m: int, env: Vars)
    requires
        forall|i: int| 0 <= i < closed.len() ==> inert(#[trigger] closed[i].0, closed[i].1),
        inert(q, text),
        0 <= m < (written(closed) + seq![q] + text).len(),
        (written(closed) + seq![q] + text)[m] == '\n',
    ensures
        value_of((written(closed) + seq![q] + text).take(m), env) matches Err(e) && e is Unterminated,
    decreases closed.len(),
{
    let done = written(closed);
    let s = done + seq![q] + text;
    let i: int = done.len() as int;
    if m > i {
        let part = text.take(m - i - 1);
        assert forall|j: int| 0 <= j < part.len() implies part[j] != q && (q == '"' ==> part[j]
            != '\\' && part[j] != '$') by {
            assert(part[j] == text[j]);
            assert(text.contains(text[j]));
        }
        lemma_unclosed(closed, q, part, env);
        assert(s.take(m) =~= done + seq![q] + part);
    } else {
        assert(s[i] == q);
        assert(m < i);
        let shorter = closed.drop_last();
        let (p, inner) = closed.last();
        assert(inert(closed[closed.len() - 1].0, closed[closed.len() - 1].1));
        assert forall|k: int| 0 <= k < shorter.len() implies inert(
            #[trigger] shorter[k].0,
            shorter[k].1,
        ) by {
            assert(inert(closed[k].0, closed[k].1));
        }
        let t = written(shorter) + seq![p] + inner;
        assert(done =~= t + seq![p]);
        assert(done[i - 1] == p);
        assert(s[m] == done[m]);
        assert(m < t.len());
        assert(t[m] == '\n');
        lemma_cut(shorter, p, inner, m, env);
        assert(s.take(m) =~= t.take(m));
    }
}

/// The value stays open to the last line.
proof fn lemma_open_to_the_end(
    raw: Text,
    ls: Seq<Text>,
    next: int,
    closed: Seq<(char, Text)>,
    q: char,
    text: Text,
    n: int,
    env: Vars,
)
    requires
        0 <= next <= ls.len(),
        0 <= n <= ls.len() - next,
        gathered(raw, ls, next, ls.len() - next) == written(closed) + seq![q] + text,
        forall|i: int| 0 <= i < closed.len() ==> inert(#[trigger] closed[i].0, closed[i].1),
        inert(q, text),
    ensures
        value_from(gathered(raw, ls, next, n), ls, next + n, env) == Err::<(Text, int), ValueFault>(
            ValueFault::Unterminated {
                quote: q,
                feeds: feeds(written(closed), written(closed).len() as int),
            },
        ),
    decreases ls.len() - next - n,
{
    let all = written(closed) + seq![q] + text;
    if n == ls.len() - next {
        lemma_unclosed(closed, q, text, env);
    } else {
        let part = gathered(raw, ls, next, n);
        lemma_gathered(raw, ls, next, n, ls.len() - next);
        lemma_cut(closed, q, text, part.len() as int, env);
        lemma_open_to_the_end(raw, ls, next, closed, q, text, n + 1, env);
        assert(gathered(raw, ls, next, n + 1) == part.push('\n') + ls[next + n]);
    }
}

/// An assignment without line feeds, whose value does not end in a carriage
/// return, is a neat line.
proof fn lemma_neat_assignment(key: Text, raw: Text)
    requires
        identifier(key),
        raw.len() > 0,
        raw.last() != '\r',
        forall|j: int| 0 <= j < raw.len() ==> raw[j] != '\n',
    ensures
        neat(assignment_line(key, raw)),
{
    let line = assignment_line(key, raw);
    assert forall|j: int| 0 <= j < line.len() implies line[j] != '\n' by {
        if j < key.len() {
            assert(line[j] == key[j]);
            assert(name_char(key[j]));
        } else if j > key.len() {
            assert(line[j] == raw[j - key.len() - 1]);
        }
    }
    assert(line.last() == raw.last());
}

/// What stands in front of the `=`, and what behind it.
proof fn lemma_parts(key: Text, raw: Text)
    requires
        identifier(key),
        raw.len() > 0,
        !white(raw[0]),
    ensures
        ({
            let line = assignment_line(key, raw);
            let eq: int = find(line, '=', 0);
            &&& trim(line).len() > 0
            &&& trim(line)[0] != '#'
            &&& trim_start(line) == line
            &&& unexported(line) == line
            &&& eq == key.len()
            &&& eq < line.len()
            &&& trim(line.take(eq)) == key
            &&& trim_start(line.skip(eq + 1)) == raw
        }),
{
    reveal_strlit("export");
    let line = assignment_line(key, raw);
    assert forall|j: int| 0 <= j < key.len() implies #[trigger] line[j] == key[j] && name_char(
        key[j],
    ) by {
        assert(name_char(key[j]));
    }
    assert(line[0] == key[0]);
    assert(line.skip(0) =~= line);
    lemma_last_solid(line, line.len() as int);
    let solid = trim_end(line);
    if solid.len() == 0 {
        assert(white(line[0]));
    }
    assert(solid[0] == key[0]);
    assert(solid.skip(0) =~= solid);
    lemma_find_is(line, '=', 0, key.len() as int);
    assert(line.take(key.len() as int) =~= key);
    assert(key.last() == key[key.len() - 1]);
    assert(line[key.len() - 1] == key[key.len() - 1]);
    lemma_trim_solid(key);
    assert(line.skip(key.len() as int + 1) =~= raw);
    assert(raw.skip(0) =~= raw);
    if begins(line, "export"@) && line.len() > 6 {
        if key.len() < 6 {
            assert(line.take(6)[key.len() as int] == '=');
            assert(false);
        } else if key.len() > 6 {
            assert(line[6] == key[6]);
        } else {
            assert(line[6] == '=');
        }
    }
}

/// A line that begins an assignment.
proof fn lemma_line_with_value(ls: Seq<Text>, idx: int, key: Text, raw: Text, env: Vars)
    requires
        0 <= idx < ls.len(),
        ls[idx] == assignment_line(key, raw),
        identifier(key),
        raw.len() > 0,
        !white(raw[0]),
    ensures
        value_from(raw, ls, idx + 1, env) matches Ok((value, next)) ==> settings_from(ls, idx, env)
            == first_setting(
            Setting { key, value },
            settings_from(ls, next, env.insert(key, value)),
        ),
{
    lemma_parts(key, raw);
    lemma_value_from(raw, ls, idx + 1, env);
}

/// A line with a whole assignment.
proof fn lemma_assignment(ls: Seq<Text>, idx: int, key: Text, raw: Text, env: Vars)
    requires
        0 <= idx < ls.len(),
        ls[idx] == assignment_line(key, raw),
        identifier(key),
        raw.len() > 0,
        !white(raw[0]),
    ensures
        value_of(raw, env) matches Ok(value) ==> settings_from(ls, idx, env) == first_setting(
            Setting { key, value },
            settings_from(ls, idx + 1, env.insert(key, value)),
        ),
{
    lemma_line_with_value(ls, idx, key, raw, env);
}

} // verus!
