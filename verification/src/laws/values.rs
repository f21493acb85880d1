//! What the text behind a `=` stands for.

use vstd::prelude::*;

use crate::dotenv::{
    braced_end, default_end, default_text, expansion, finish, held, lemma_finish_blank,
    lemma_finish_solid, lemma_name_end, name_end, name_stop, pieces, spell, value_of, Piece,
    ValueFault,
};
use crate::env::Vars;
use crate::shell::{identifier, name_char};
use crate::text::{begins, feeds, white, Text};

verus! {

// ---------------------------------------------------------------------------
// Quotes
// ---------------------------------------------------------------------------

/// What stands in single quotes is literal: no character in it is special.
pub proof fn single_quotes_are_literal(text: Text, env: Vars)
    requires
        !text.contains('\''),
    ensures
        value_of(seq!['\''] + text + seq!['\''], env) == Ok::<Text, ValueFault>(text),
{
    let s = seq!['\''] + text + seq!['\''];
    lemma_value_start(s, env);
    assert(s.subrange(1, 1 + text.len() as int) =~= text);
    lemma_section(s, 0, '\'', text, true, Seq::empty(), env);
    lemma_value_end(s, Seq::<char>::empty() + text, true, env);
    assert(Seq::<char>::empty() + text =~= text);
}

/// What stands in double quotes is kept where it holds no reference, no
/// backslash and no such quote: white space, `#`, the other quote and line
/// feeds are ordinary there.
pub proof fn double_quotes_keep_plain_text(text: Text, env: Vars)
    requires
        !text.contains('"'),
        !text.contains('\\'),
        !text.contains('$'),
    ensures
        value_of(seq!['"'] + text + seq!['"'], env) == Ok::<Text, ValueFault>(text),
{
    let s = seq!['"'] + text + seq!['"'];
    lemma_value_start(s, env);
    assert(s.subrange(1, 1 + text.len() as int) =~= text);
    lemma_section(s, 0, '"', text, true, Seq::empty(), env);
    lemma_value_end(s, Seq::<char>::empty() + text, true, env);
    assert(Seq::<char>::empty() + text =~= text);
}

/// A quoted section straight behind another is joined to it.
pub proof fn adjacent_sections_join(first: Text, second: Text, env: Vars)
    requires
        !first.contains('"'),
        !first.contains('\\'),
        !first.contains('$'),
        !second.contains('\''),
    ensures
        value_of(
            seq!['"'] + first + seq!['"'] + seq!['\''] + second + seq!['\''],
            env,
        ) == Ok::<Text, ValueFault>(first + second),
{
    let s = seq!['"'] + first + seq!['"'] + seq!['\''] + second + seq!['\''];
    let n: int = first.len() as int + 2;
    lemma_value_start(s, env);
    assert(s.subrange(1, n - 1) =~= first);
    lemma_section(s, 0, '"', first, true, Seq::empty(), env);
    assert(s.subrange(n + 1, n + 1 + second.len()) =~= second);
    lemma_section(s, n, '\'', second, true, Seq::<char>::empty() + first, env);
    lemma_value_end(s, Seq::<char>::empty() + first + second, true, env);
    assert(Seq::<char>::empty() + first + second =~= first + second);
}

/// Text that is kept as it is without quotes: it holds no white space, no
/// reference and no backslash, and begins with neither a quote nor a `#`. Quotes
/// further on are ordinary characters, and so is a `#`.
pub open spec fn bare(text: Text) -> bool {
    &&& text.len() > 0
    &&& text[0] != '\'' && text[0] != '"' && text[0] != '#'
    &&& forall|i: int|
        0 <= i < text.len() ==> !white(#[trigger] text[i]) && text[i] != '$' && text[i] != '\\'
}

/// Bare text is the value, and white space behind it is dropped.
pub proof fn bare_text_is_kept(text: Text, blanks: Text, env: Vars)
    requires
        bare(text),
        forall|i: int| 0 <= i < blanks.len() ==> white(#[trigger] blanks[i]),
    ensures
        value_of(text + blanks, env) == Ok::<Text, ValueFault>(text),
{
    let s = text + blanks;
    lemma_value_start(s, env);
    assert(s.take(text.len() as int) =~= text);
    lemma_bare(s, text, 0, Seq::empty(), env);
    assert(text.skip(0) =~= text);
    assert(Seq::<char>::empty() + text =~= text);
    lemma_blanks(s, text.len() as int, s.len() as int, text, Seq::empty(), env);
    assert(text + spell(Seq::empty(), s.subrange(text.len() as int, s.len() as int)) =~= text);
}

/// A `#` behind white space begins a comment, which is not part of the value.
pub proof fn a_comment_is_dropped(text: Text, blanks: Text, comment: Text, env: Vars)
    requires
        bare(text),
        blanks.len() > 0,
        forall|i: int| 0 <= i < blanks.len() ==> white(#[trigger] blanks[i]),
    ensures
        value_of(text + blanks + seq!['#'] + comment, env) == Ok::<Text, ValueFault>(text),
{
    let s = text + blanks + seq!['#'] + comment;
    let n: int = (text.len() + blanks.len()) as int;
    lemma_value_start(s, env);
    assert(s.take(text.len() as int) =~= text);
    lemma_bare(s, text, 0, Seq::empty(), env);
    assert(text.skip(0) =~= text);
    assert(Seq::<char>::empty() + text =~= text);
    assert forall|i: int| text.len() <= i < n implies white(#[trigger] s[i]) by {
        assert(s[i] == blanks[i - text.len()]);
    }
    lemma_blanks(s, text.len() as int, n, text, Seq::empty(), env);
    assert(s[n] == '#');
    assert(white(s[n - 1]));
    assert(text + spell(Seq::empty(), Seq::<char>::empty() + s.subrange(text.len() as int, n)) =~= text);
}

pub proof fn lemma_value_start(s: Text, env: Vars)
    ensures
        value_of(s, env) == finish(Seq::empty(), Seq::empty(), pieces(s, 0, None, true, env)),
{
    if let Ok(ps) = pieces(s, 0, None, true, env) {
        assert(Seq::<char>::empty() + spell(ps, Seq::empty()) =~= spell(ps, Seq::empty()));
    }
}

pub proof fn lemma_value_end(s: Text, out: Text, fresh: bool, env: Vars)
    ensures
        finish(out, Seq::empty(), pieces(s, s.len() as int, None, fresh, env)) == Ok::<
            Text,
            ValueFault,
        >(out),
{
    assert(out + spell(Seq::empty(), Seq::empty()) =~= out);
}

/// A quoted section that begins at `i`.
pub proof fn lemma_section(s: Text, i: int, q: char, text: Text, fresh: bool, out: Text, env: Vars)
    requires
        q == '\'' || q == '"',
        0 <= i,
        i + text.len() + 1 < s.len(),
        s[i] == q,
        s[i + text.len() + 1] == q,
        s.subrange(i + 1, i + 1 + text.len()) == text,
        !text.contains(q),
        q == '"' ==> !text.contains('\\') && !text.contains('$'),
        fresh,
    ensures
        finish(out, Seq::empty(), pieces(s, i, None, fresh, env)) == finish(
            out + text,
            Seq::empty(),
            pieces(s, i + text.len() + 2, None, true, env),
        ),
{
    let end: int = i + 1 + text.len();
    lemma_finish_solid(out, Seq::empty(), Seq::empty(), pieces(s, i + 1, Some((q, i)), fresh, env));
    assert(out + Seq::<char>::empty() + Seq::<char>::empty() =~= out);
    assert forall|j: int| i + 1 <= j < end implies s[j] != q && (q == '"' ==> s[j] != '\\' && s[j]
        != '$') by {
        assert(s[j] == text[j - i - 1]);
        assert(text.contains(text[j - i - 1]));
    }
    lemma_inside(s, i + 1, end, q, i, fresh, out, env);
}

/// The characters of a section that began at `at`, up to its closing quote.
pub proof fn lemma_inside(
    s: Text,
    i: int,
    end: int,
    q: char,
    at: int,
    fresh: bool,
    out: Text,
    env: Vars,
)
    requires
        q == '\'' || q == '"',
        0 <= i <= end < s.len(),
        s[end] == q,
        forall|j: int|
            i <= j < end ==> #[trigger] s[j] != q && (q == '"' ==> s[j] != '\\' && s[j] != '$'),
    ensures
        finish(out, Seq::empty(), pieces(s, i, Some((q, at)), fresh, env)) == finish(
            out + s.subrange(i, end),
            Seq::empty(),
            pieces(s, end + 1, None, true, env),
        ),
    decreases end - i,
{
    if i < end {
        assert(s[i] != q);
        let still = fresh && q == '\'';
        let one = seq![s[i]];
        lemma_finish_solid(out, Seq::empty(), one, pieces(s, i + 1, Some((q, at)), still, env));
        lemma_inside(s, i + 1, end, q, at, still, out + Seq::<char>::empty() + one, env);
        assert(out + Seq::<char>::empty() + one + s.subrange(i + 1, end) =~= out + s.subrange(
            i,
            end,
        ));
    } else {
        assert(out + s.subrange(i, end) =~= out);
    }
}

/// The characters of a section that began at `at` and is never closed.
pub proof fn lemma_never_closed(s: Text, i: int, q: char, at: int, fresh: bool, env: Vars)
    requires
        q == '\'' || q == '"',
        0 <= i <= s.len(),
        forall|j: int|
            i <= j < s.len() ==> #[trigger] s[j] != q && (q == '"' ==> s[j] != '\\' && s[j] != '$'),
    ensures
        pieces(s, i, Some((q, at)), fresh, env) == Err::<Seq<Piece>, ValueFault>(
            ValueFault::Unterminated { quote: q, feeds: feeds(s, at) },
        ),
    decreases s.len() - i,
{
    if i < s.len() {
        assert(s[i] != q);
        lemma_never_closed(s, i + 1, q, at, fresh && q == '\'', env);
    }
}

/// Bare text at the start of a value, from position `i` of it on.
proof fn lemma_bare(s: Text, text: Text, i: int, out: Text, env: Vars)
    requires
        bare(text),
        begins(s, text),
        0 <= i <= text.len(),
    ensures
        finish(out, Seq::empty(), pieces(s, i, None, i == 0, env)) == finish(
            out + text.skip(i),
            Seq::empty(),
            pieces(s, text.len() as int, None, false, env),
        ),
    decreases text.len() - i,
{
    if i < text.len() {
        assert(s[i] == s.take(text.len() as int)[i]);
        assert(s[i] == text[i]);
        assert(!white(text[i]));
        if i > 0 {
            assert(s[i - 1] == s.take(text.len() as int)[i - 1]);
            assert(!white(text[i - 1]));
        }
        lemma_finish_solid(out, Seq::empty(), seq![s[i]], pieces(s, i + 1, None, false, env));
        lemma_bare(s, text, i + 1, out + Seq::<char>::empty() + seq![s[i]], env);
        assert(out + Seq::<char>::empty() + seq![s[i]] + text.skip(i + 1) =~= out + text.skip(i));
    } else {
        assert(out + text.skip(i) =~= out);
    }
}

/// White space outside quotes.
proof fn lemma_blanks(s: Text, i: int, n: int, out: Text, blanks: Text, env: Vars)
    requires
        0 <= i <= n <= s.len(),
        forall|j: int| i <= j < n ==> white(#[trigger] s[j]),
    ensures
        finish(out, blanks, pieces(s, i, None, false, env)) == finish(
            out,
            blanks + s.subrange(i, n),
            pieces(s, n, None, false, env),
        ),
    decreases n - i,
{
    if i < n {
        assert(white(s[i]));
        lemma_finish_blank(out, blanks, s[i], pieces(s, i + 1, None, false, env));
        lemma_blanks(s, i + 1, n, out, blanks.push(s[i]), env);
        assert(blanks.push(s[i]) + s.subrange(i + 1, n) =~= blanks + s.subrange(i, n));
    } else {
        assert(blanks + s.subrange(i, n) =~= blanks);
    }
}

// ---------------------------------------------------------------------------
// References
// ---------------------------------------------------------------------------

/// `$NAME` and `${NAME}` stand for what the variable holds: nothing, where it is
/// not set.
pub proof fn a_reference_gives_the_variable(name: Text, env: Vars)
    requires
        identifier(name),
    ensures
        value_of(seq!['$'] + name, env) == Ok::<Text, ValueFault>(held(env, name)),
        value_of(seq!['$', '{'] + name + seq!['}'], env) == Ok::<Text, ValueFault>(held(env, name)),
{
    let s = seq!['$'] + name;
    assert(name_char(name[0]));
    assert(s[1] == name[0]);
    lemma_name_end(s, 1);
    let end: int = name_end(s, 1);
    if end < s.len() {
        assert(s[end] == name[end - 1]);
        assert(name_char(name[end - 1]));
    }
    assert(s.subrange(1, end) =~= name);
    lemma_lone_reference(s, held(env, name), env);
    let t = seq!['$', '{'] + name + seq!['}'];
    let stop: int = name.len() as int + 2;
    lemma_name_runs(t, name, stop);
    lemma_braced_is(t, 2, stop);
    assert(t.subrange(2, stop) =~= name);
    lemma_lone_reference(t, held(env, name), env);
}

/// `${NAME:-text}` and `${NAME-text}` stand for what the variable holds, or for
/// the text where it is unset or empty.
pub proof fn a_default_fills_in(name: Text, text: Text, env: Vars)
    requires
        identifier(name),
        !text.contains('$'),
        !text.contains('{'),
        !text.contains('}'),
    ensures
        ({
            let value = if held(env, name).len() == 0 {
                text
            } else {
                held(env, name)
            };
            &&& value_of(seq!['$', '{'] + name + seq![':', '-'] + text + seq!['}'], env) == Ok::<
                Text,
                ValueFault,
            >(value)
            &&& value_of(seq!['$', '{'] + name + seq!['-'] + text + seq!['}'], env) == Ok::<
                Text,
                ValueFault,
            >(value)
        }),
{
    let value = if held(env, name).len() == 0 {
        text
    } else {
        held(env, name)
    };
    let stop: int = name.len() as int + 2;
    lemma_default_text(text, 0, env);
    assert(text.skip(0) =~= text);
    assert forall|j: int| 0 <= j < text.len() implies #[trigger] text[j] != '{' && text[j] != '}' by {
        assert(text.contains(text[j]));
    }
    let s = seq!['$', '{'] + name + seq![':', '-'] + text + seq!['}'];
    let end: int = stop + 2 + text.len();
    lemma_name_runs(s, name, stop);
    assert(s[stop] == ':' && s[stop + 1] == '-');
    lemma_braced_is(s, 2, stop);
    assert(s.subrange(2, stop) =~= name);
    assert forall|j: int| stop + 2 <= j < end implies #[trigger] s[j] != '{' && s[j] != '}' by {
        assert(s[j] == text[j - stop - 2]);
    }
    lemma_default_is(s, stop + 2, end);
    assert(s.subrange(stop + 2, end) =~= text);
    lemma_lone_reference(s, value, env);
    let t = seq!['$', '{'] + name + seq!['-'] + text + seq!['}'];
    let last: int = stop + 1 + text.len();
    lemma_name_runs(t, name, stop);
    assert(t[stop] == '-');
    lemma_braced_is(t, 2, stop);
    assert(t.subrange(2, stop) =~= name);
    assert forall|j: int| stop + 1 <= j < last implies #[trigger] t[j] != '{' && t[j] != '}' by {
        assert(t[j] == text[j - stop - 1]);
    }
    lemma_default_is(t, stop + 1, last);
    assert(t.subrange(stop + 1, last) =~= text);
    lemma_lone_reference(t, value, env);
}

/// A value that is one reference.
proof fn lemma_lone_reference(s: Text, value: Text, env: Vars)
    requires
        s.len() > 0,
        s[0] == '$',
        expansion(s, 0, env) == Ok::<(Text, int), Text>((value, s.len() as int)),
    ensures
        value_of(s, env) == Ok::<Text, ValueFault>(value),
{
    lemma_value_start(s, env);
    let fresh = true && value.len() == 0;
    lemma_finish_solid(
        Seq::empty(),
        Seq::empty(),
        value,
        pieces(s, s.len() as int, None, fresh, env),
    );
    lemma_value_end(s, Seq::<char>::empty() + Seq::<char>::empty() + value, fresh, env);
    assert(Seq::<char>::empty() + Seq::<char>::empty() + value =~= value);
}

/// A name inside braces does not end before `stop`.
proof fn lemma_name_runs(s: Text, name: Text, stop: int)
    requires
        identifier(name),
        stop == name.len() + 2,
        stop <= s.len(),
        forall|j: int| 2 <= j < stop ==> #[trigger] s[j] == name[j - 2],
    ensures
        forall|j: int| 2 <= j < stop ==> !#[trigger] name_stop(s, j),
{
    assert forall|j: int| 2 <= j < stop implies !#[trigger] name_stop(s, j) by {
        assert(s[j] == name[j - 2]);
        assert(name_char(name[j - 2]));
    }
}

proof fn lemma_braced_is(s: Text, i: int, stop: int)
    requires
        0 <= i <= stop < s.len(),
        forall|j: int| i <= j < stop ==> !#[trigger] name_stop(s, j),
        name_stop(s, stop),
    ensures
        braced_end(s, i) == stop,
    decreases stop - i,
{
    if i < stop {
        assert(!name_stop(s, i));
        lemma_braced_is(s, i + 1, stop);
    }
}

proof fn lemma_default_is(s: Text, i: int, end: int)
    requires
        0 <= i <= end < s.len(),
        forall|j: int| i <= j < end ==> #[trigger] s[j] != '{' && s[j] != '}',
        s[end] == '}',
    ensures
        default_end(s, i, 0) == end,
    decreases end - i,
{
    if i < end {
        assert(s[i] != '{');
        lemma_default_is(s, i + 1, end);
    }
}

proof fn lemma_default_text(text: Text, i: int, env: Vars)
    requires
        !text.contains('$'),
        0 <= i <= text.len(),
    ensures
        default_text(text, i, env) == Ok::<Text, Text>(text.skip(i)),
    decreases text.len() - i,
{
    if i < text.len() {
        assert(text.contains(text[i]));
        lemma_default_text(text, i + 1, env);
        assert(seq![text[i]] + text.skip(i + 1) =~= text.skip(i));
    } else {
        assert(text.skip(i) =~= Seq::empty());
    }
}

} // verus!
