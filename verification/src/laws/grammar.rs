//! Values are read as they are written.
//!
//! A value is written as a row of parts: characters, escapes, white space,
//! references and quoted sections. What it stands for is what its parts stand
//! for, one after the other.

use vstd::prelude::*;

use crate::dotenv::{
    braced_end, default_end, default_text, expansion, finish, invalid_name, lemma_finish_blank,
    lemma_finish_solid, lemma_name_end, name_end, name_stop, pieces, prepend, reference, spell,
    unterminated_brace, value_of, Piece, Reference, ValueFault,
};
use crate::env::Vars;
use crate::laws::profile_file::inert;
use crate::laws::values::{lemma_inside, lemma_never_closed, lemma_value_start};
use crate::shell::{identifier, name_char};
use crate::text::{feeds, letter, white, Text};

verus! {

// ---------------------------------------------------------------------------
// References
// ---------------------------------------------------------------------------

/// A reference as it is written.
pub enum Use {
    /// A `$` that begins no reference.
    Dollar,
    /// `$NAME`.
    Bare(Text),
    /// `${NAME}`.
    Braced(Text),
    /// `${NAME:-default}`, or `${NAME-default}` without the colon.
    Defaulted { name: Text, colon: bool, default: Text },
    /// `${...}` with something that is no name.
    Invalid(Text),
}

pub open spec fn use_text(u: Use) -> Text {
    match u {
        Use::Dollar => seq!['$'],
        Use::Bare(name) => seq!['$'] + name,
        Use::Braced(name) => seq!['$', '{'] + name + seq!['}'],
        Use::Defaulted { name, colon, default } => seq!['$', '{'] + name + (if colon {
            seq![':', '-']
        } else {
            seq!['-']
        }) + default + seq!['}'],
        Use::Invalid(name) => seq!['$', '{'] + name + seq!['}'],
    }
}

/// How many braces are open behind the first `n` characters.
pub open spec fn level(s: Text, n: int) -> int
    decreases n,
{
    if n <= 0 {
        0
    } else if s[n - 1] == '{' {
        level(s, n - 1) + 1
    } else if s[n - 1] == '}' {
        level(s, n - 1) - 1
    } else {
        level(s, n - 1)
    }
}

/// Every brace that is closed was opened, and every brace that is opened is
/// closed.
pub open spec fn balanced(s: Text) -> bool {
    &&& forall|n: int| 0 <= n <= s.len() ==> #[trigger] level(s, n) >= 0
    &&& level(s, s.len() as int) == 0
}

/// Whether a reference is what it seems where `next` stands behind it.
pub open spec fn use_stands(u: Use, next: Option<char>) -> bool {
    match u {
        Use::Dollar => next matches Some(c) ==> !letter(c) && c != '_' && c != '{',
        Use::Bare(name) => identifier(name) && (next matches Some(c) ==> !name_char(c)),
        Use::Braced(name) => identifier(name),
        Use::Defaulted { name, colon: _, default } => identifier(name) && balanced(default),
        Use::Invalid(name) => !identifier(name) && !name.contains('}') && !name.contains('-'),
    }
}

/// What a variable holds: nothing, where it is not set.
pub open spec fn variable(env: Vars, name: Text) -> Text {
    if env.dom().contains(name) {
        env[name]
    } else {
        Seq::empty()
    }
}

/// What a reference stands for: what the variable holds, or its default where
/// that is nothing.
pub open spec fn use_value(u: Use, env: Vars) -> Result<Text, Text> {
    match u {
        Use::Dollar => Ok(seq!['$']),
        Use::Bare(name) => Ok(variable(env, name)),
        Use::Braced(name) => Ok(variable(env, name)),
        Use::Defaulted { name, colon: _, default } => if variable(env, name).len() > 0 {
            Ok(variable(env, name))
        } else {
            default_text(default, 0, env)
        },
        Use::Invalid(name) => Err(invalid_name(name)),
    }
}

/// The character at a position, if there is one.
pub open spec fn char_at(s: Text, i: int) -> Option<char> {
    if 0 <= i < s.len() {
        Some(s[i])
    } else {
        None
    }
}

/// Whether `t` stands at position `i` of `s`.
pub open spec fn stands_at(s: Text, i: int, t: Text) -> bool {
    0 <= i && i + t.len() <= s.len() && forall|j: int| 0 <= j < t.len() ==> s[i + j] == #[trigger] t[j]
}

/// A reference is expanded where it stands, to what it stands for, and ends where
/// it ends.
pub proof fn a_reference_is_expanded_where_it_stands(s: Text, i: int, u: Use, env: Vars)
    requires
        stands_at(s, i, use_text(u)),
        use_stands(u, char_at(s, i + use_text(u).len())),
    ensures
        s[i] == '$',
        expansion(s, i, env) == match use_value(u, env) {
            Ok(v) => Ok::<(Text, int), Text>((v, i + use_text(u).len())),
            Err(e) => Err::<(Text, int), Text>(e),
        },
{
    let t = use_text(u);
    assert(t[0] == '$');
    assert(s[i] == t[0]);
    match u {
        Use::Dollar => {},
        Use::Bare(name) => {
            assert(name_char(name[0]));
            assert(s[i + 1] == t[1]);
            lemma_name_end(s, i + 1);
            let end: int = i + 1 + name.len();
            assert forall|j: int| i + 1 <= j < end implies name_char(#[trigger] s[j]) by {
                assert(s[j] == t[j - i]);
                assert(name_char(name[j - i - 1]));
            }
            lemma_name_end_is(s, i + 1, end);
            assert(s.subrange(i + 1, end) =~= name) by {
                assert forall|j: int| 0 <= j < name.len() implies s[i + 1 + j] == name[j] by {
                    assert(s[i + (1 + j)] == t[1 + j]);
                }
            }
        },
        Use::Braced(name) => {
            lemma_braced_name(s, i, name, t);
            let stop: int = i + 2 + name.len();
            assert(s[stop] == t[name.len() as int + 2]);
            lemma_braced_stop(s, i + 2, stop);
        },
        Use::Invalid(name) => {
            let stop: int = i + 2 + name.len();
            assert(s[i + 1] == t[1]);
            assert forall|j: int| 0 <= j < name.len() implies #[trigger] s[i + 2 + j] == name[j] by {
                assert(s[i + (2 + j)] == t[2 + j]);
            }
            assert(s[stop] == t[name.len() as int + 2]);
            assert forall|j: int| i + 2 <= j < stop implies !#[trigger] name_stop(s, j) by {
                let k: int = j - i - 2;
                assert(s[i + 2 + k] == name[k]);
                assert(name.contains(name[k]));
                if j + 1 < stop {
                    assert(s[i + 2 + (k + 1)] == name[k + 1]);
                    assert(name.contains(name[k + 1]));
                }
            }
            lemma_braced_stop(s, i + 2, stop);
            assert(s.subrange(i + 2, stop) =~= name) by {
                assert forall|j: int| 0 <= j < name.len() implies s[i + 2 + j] == name[j] by {
                    assert(s[i + (2 + j)] == t[2 + j]);
                }
            }
        },
        Use::Defaulted { name, colon, default } => {
            lemma_braced_name(s, i, name, t);
            let stop: int = i + 2 + name.len();
            let from: int = if colon {
                stop + 2
            } else {
                stop + 1
            };
            let shift: int = from - i;
            assert(s[i + (name.len() + 2)] == t[name.len() as int + 2]);
            if colon {
                assert(s[i + (name.len() + 3)] == t[name.len() as int + 3]);
            }
            lemma_braced_stop(s, i + 2, stop);
            assert forall|j: int| 0 <= j < default.len() implies #[trigger] s[from + j]
                == default[j] by {
                assert(s[i + (shift + j)] == t[shift + j]);
            }
            assert(s[i + (shift + default.len())] == t[shift + default.len()]);
            assert(s[from + default.len()] == '}');
            lemma_default_is_read(s, from, default, 0);
            assert(s.subrange(from, from + default.len()) =~= default) by {
                assert forall|j: int| 0 <= j < default.len() implies s[from + j] == default[j] by {
                    assert(s[i + (shift + j)] == t[shift + j]);
                }
            }
        },
    }
}

proof fn lemma_name_end_is(s: Text, i: int, end: int)
    requires
        0 <= i <= end <= s.len(),
        forall|j: int| i <= j < end ==> name_char(#[trigger] s[j]),
        end < s.len() ==> !name_char(s[end]),
    ensures
        name_end(s, i) == end,
    decreases end - i,
{
    if i < end {
        assert(name_char(s[i]));
        lemma_name_end_is(s, i + 1, end);
    }
}

/// A name inside braces.
proof fn lemma_braced_name(s: Text, i: int, name: Text, t: Text)
    requires
        stands_at(s, i, t),
        identifier(name),
        t.len() >= name.len() + 2,
        t[1] == '{',
        forall|j: int| 0 <= j < name.len() ==> t[j + 2] == #[trigger] name[j],
    ensures
        s[i + 1] == '{',
        s.subrange(i + 2, i + 2 + name.len()) == name,
        forall|j: int| i + 2 <= j < i + 2 + name.len() ==> !#[trigger] name_stop(s, j),
{
    assert(s[i + 1] == t[1]);
    assert forall|j: int| 0 <= j < name.len() implies #[trigger] s[i + 2 + j] == name[j] by {
        assert(s[i + (j + 2)] == t[j + 2]);
    }
    assert(s.subrange(i + 2, i + 2 + name.len()) =~= name);
    assert forall|j: int| i + 2 <= j < i + 2 + name.len() implies !#[trigger] name_stop(s, j) by {
        assert(s[i + 2 + (j - i - 2)] == name[j - i - 2]);
        assert(name_char(name[j - i - 2]));
    }
}

proof fn lemma_braced_stop(s: Text, i: int, stop: int)
    requires
        0 <= i <= stop < s.len(),
        forall|j: int| i <= j < stop ==> !#[trigger] name_stop(s, j),
        name_stop(s, stop),
    ensures
        braced_end(s, i) == stop,
    decreases stop - i,
{
    if i < stop {
        assert(!name_stop(s, i));
        lemma_braced_stop(s, i + 1, stop);
    }
}

/// A balanced default is read to its closing brace.
proof fn lemma_default_is_read(s: Text, from: int, default: Text, n: int)
    requires
        0 <= from,
        0 <= n <= default.len(),
        from + default.len() < s.len(),
        balanced(default),
        forall|j: int| 0 <= j < default.len() ==> #[trigger] s[from + j] == default[j],
        s[from + default.len()] == '}',
    ensures
        level(default, n) >= 0,
        default_end(s, from + n, level(default, n) as nat) == from + default.len(),
    decreases default.len() - n,
{
    assert(level(default, n) >= 0);
    if n < default.len() {
        lemma_default_is_read(s, from, default, n + 1);
        assert(s[from + n] == default[n]);
        assert(level(default, n + 1) >= 0);
    }
}

// ---------------------------------------------------------------------------
// Defaults
// ---------------------------------------------------------------------------

/// A default is expanded to its end: what stands in front of a reference stays,
/// the reference is replaced by what it stands for, and what stands behind it is
/// expanded in turn.
pub proof fn a_default_goes_on_behind_a_reference(a: Text, u: Use, b: Text, env: Vars)
    requires
        !a.contains('$'),
        use_stands(u, char_at(b, 0)),
    ensures
        default_text(a + use_text(u) + b, 0, env) == match use_value(u, env) {
            Ok(v) => match default_text(b, 0, env) {
                Ok(rest) => Ok::<Text, Text>(a + v + rest),
                Err(e) => Err::<Text, Text>(e),
            },
            Err(e) => Err::<Text, Text>(e),
        },
{
    let t = use_text(u);
    let s = a + t + b;
    let i: int = a.len() as int;
    let n: int = i + t.len();
    lemma_default_plain(s, a, 0, env);
    assert forall|j: int| 0 <= j < t.len() implies s[i + j] == #[trigger] t[j] by {}
    assert(char_at(s, n) == char_at(b, 0)) by {
        if b.len() > 0 {
            assert(s[n] == b[0]);
        }
    }
    a_reference_is_expanded_where_it_stands(s, i, u, env);
    assert(a + t + b =~= (a + t) + b);
    lemma_default_shift(a + t, b, 0, env);
    if let Ok(v) = use_value(u, env) {
        if let Ok(rest) = default_text(b, 0, env) {
            assert(a.skip(0) + (v + rest) =~= a + v + rest);
        }
    }
}

/// A default without references is what it is, also where it is empty.
pub proof fn a_plain_default_is_kept(a: Text, env: Vars)
    requires
        !a.contains('$'),
    ensures
        default_text(a, 0, env) == Ok::<Text, Text>(a),
{
    lemma_default_plain(a, a, 0, env);
    assert(a.skip(0) + Seq::<char>::empty() =~= a);
}

/// `${X:-a$NAMEb}` stands for `a`, what `NAME` holds and `b`, where `X` holds
/// nothing; and the same with `${NAME}`.
pub proof fn a_default_may_hold_a_reference(x: Text, a: Text, name: Text, b: Text, env: Vars)
    requires
        identifier(x),
        identifier(name),
        variable(env, x).len() == 0,
        !a.contains('$') && !a.contains('{') && !a.contains('}'),
        !b.contains('$') && !b.contains('{') && !b.contains('}'),
        b.len() > 0 ==> !name_char(b[0]),
    ensures
        value_of(
            seq!['$', '{'] + x + seq![':', '-'] + (a + seq!['$'] + name + b) + seq!['}'],
            env,
        ) == Ok::<Text, ValueFault>(a + variable(env, name) + b),
{
    let d = a + seq!['$'] + name + b;
    let u = Use::Bare(name);
    assert(d =~= a + use_text(u) + b);
    a_default_goes_on_behind_a_reference(a, u, b, env);
    a_plain_default_is_kept(b, env);
    assert forall|j: int| 0 <= j < d.len() implies d[j] != '{' && d[j] != '}' by {
        if j < a.len() {
            assert(a.contains(a[j]));
        } else if j > a.len() && j <= a.len() + name.len() {
            assert(d[j] == name[j - a.len() - 1]);
            assert(name_char(name[j - a.len() - 1]));
        } else if j > a.len() {
            assert(d[j] == b[j - a.len() - 1 - name.len()]);
            assert(b.contains(b[j - a.len() - 1 - name.len()]));
        }
    }
    lemma_no_braces(d, d.len() as int);
    assert forall|n: int| 0 <= n <= d.len() implies #[trigger] level(d, n) >= 0 by {
        lemma_no_braces(d, n);
    }
    let whole = Use::Defaulted { name: x, colon: true, default: d };
    a_value_reads_as_it_is_written(seq![Part::Use(whole)], Tail::End, env);
    lemma_one_part(Part::Use(whole), env);
}

proof fn lemma_no_braces(s: Text, n: int)
    requires
        0 <= n <= s.len(),
        forall|j: int| 0 <= j < s.len() ==> s[j] != '{' && s[j] != '}',
    ensures
        level(s, n) == 0,
    decreases n,
{
    if n > 0 {
        lemma_no_braces(s, n - 1);
    }
}

/// Text without a `$` in front of a default.
proof fn lemma_default_plain(s: Text, a: Text, i: int, env: Vars)
    requires
        stands_at(s, 0, a),
        !a.contains('$'),
        0 <= i <= a.len(),
    ensures
        default_text(s, i, env) == prepend(a.skip(i), default_text(s, a.len() as int, env)),
    decreases a.len() - i,
{
    if i < a.len() {
        lemma_default_plain(s, a, i + 1, env);
        assert(s[0 + i] == a[i]);
        assert(a.contains(a[i]));
        if let Ok(t) = default_text(s, a.len() as int, env) {
            assert(seq![a[i]] + (a.skip(i + 1) + t) =~= a.skip(i) + t);
        }
    } else {
        if let Ok(t) = default_text(s, a.len() as int, env) {
            assert(a.skip(i) + t =~= t);
        }
    }
}

/// A reference is the same whatever stands in front of it.
proof fn lemma_reference_shift(a: Text, b: Text, i: int)
    requires
        0 <= i < b.len(),
    ensures
        reference(a + b, a.len() + i) == match reference(b, i) {
            Ok((r, end)) => Ok::<(Reference, int), Text>((r, a.len() + end)),
            Err(e) => Err::<(Reference, int), Text>(e),
        },
{
    let s = a + b;
    let n: int = a.len() as int;
    if i + 1 < b.len() {
        assert(s[n + i + 1] == b[i + 1]);
        lemma_name_end_shift(a, b, i + 1);
        lemma_name_end(b, i + 1);
        assert(s.subrange(n + i + 1, n + name_end(b, i + 1)) =~= b.subrange(
            i + 1,
            name_end(b, i + 1),
        ));
        lemma_braced_end_shift(a, b, i + 2);
        crate::dotenv::lemma_braced_end(b, i + 2);
        let stop: int = braced_end(b, i + 2);
        if b[i + 1] == '{' && stop < b.len() {
            assert(s[n + stop] == b[stop]);
            assert(s.subrange(n + i + 2, n + stop) =~= b.subrange(i + 2, stop));
            let from: int = if b[stop] == ':' {
                stop + 2
            } else {
                stop + 1
            };
            lemma_default_end_shift(a, b, from, 0);
            crate::dotenv::lemma_default_end(b, from, 0);
            let end: int = default_end(b, from, 0);
            assert(s.subrange(n + from, n + end) =~= b.subrange(from, end));
        }
    }
}

proof fn lemma_name_end_shift(a: Text, b: Text, i: int)
    requires
        0 <= i <= b.len(),
    ensures
        name_end(a + b, a.len() + i) == a.len() + name_end(b, i),
    decreases b.len() - i,
{
    if i < b.len() {
        assert((a + b)[a.len() + i] == b[i]);
        if name_char(b[i]) {
            lemma_name_end_shift(a, b, i + 1);
        }
    }
}

proof fn lemma_braced_end_shift(a: Text, b: Text, i: int)
    requires
        0 <= i <= b.len(),
    ensures
        braced_end(a + b, a.len() + i) == a.len() + braced_end(b, i),
    decreases b.len() - i,
{
    if i < b.len() {
        assert((a + b)[a.len() + i] == b[i]);
        if i + 1 < b.len() {
            assert((a + b)[a.len() + i + 1] == b[i + 1]);
        }
        if !name_stop(b, i) {
            lemma_braced_end_shift(a, b, i + 1);
        }
    }
}

proof fn lemma_default_end_shift(a: Text, b: Text, i: int, depth: nat)
    requires
        0 <= i <= b.len(),
    ensures
        default_end(a + b, a.len() + i, depth) == a.len() + default_end(b, i, depth),
    decreases b.len() - i,
{
    if i < b.len() {
        assert((a + b)[a.len() + i] == b[i]);
        if b[i] == '{' {
            lemma_default_end_shift(a, b, i + 1, depth + 1);
        } else if b[i] == '}' {
            if depth > 0 {
                lemma_default_end_shift(a, b, i + 1, (depth - 1) as nat);
            }
        } else {
            lemma_default_end_shift(a, b, i + 1, depth);
        }
    }
}

/// A default is expanded the same whatever stands in front of it.
proof fn lemma_default_shift(a: Text, b: Text, i: int, env: Vars)
    requires
        0 <= i <= b.len(),
    ensures
        default_text(a + b, a.len() + i, env) == default_text(b, i, env),
    decreases b.len() - i,
{
    let s = a + b;
    let n: int = a.len() as int;
    if i < b.len() {
        assert(s[n + i] == b[i]);
        if b[i] == '$' {
            crate::dotenv::lemma_reference(b, i);
            crate::dotenv::lemma_reference(s, n + i);
            lemma_reference_shift(a, b, i);
            if let Ok((_, next)) = reference(b, i) {
                lemma_default_shift(a, b, next, env);
            }
        } else {
            lemma_default_shift(a, b, i + 1, env);
        }
    }
}

// ---------------------------------------------------------------------------
// Values
// ---------------------------------------------------------------------------

/// A part of what stands in double quotes.
pub enum Inner {
    /// A character that stands for itself.
    Char(char),
    /// A backslash and a character.
    Escape(char),
    Use(Use),
}

/// A part of a value as it is written.
pub enum Part {
    /// A character that stands for itself.
    Char(char),
    /// A backslash and a character.
    Escape(char),
    /// White space.
    Blank(char),
    Use(Use),
    /// A section in single quotes.
    Single(Text),
    /// A section in double quotes.
    Double(Seq<Inner>),
}

/// What stands behind the parts.
pub enum Tail {
    /// Nothing.
    End,
    /// A `#` and whatever follows it.
    Comment(Text),
    /// A backslash with nothing behind it.
    Backslash,
    /// A quote that is never closed.
    Open(char, Text),
    /// A double quote that is never closed, and parts behind it.
    OpenDouble(Seq<Inner>),
    /// `${` and something with no closing brace.
    OpenBrace(Text),
}

pub open spec fn inner_text(p: Inner) -> Text {
    match p {
        Inner::Char(c) => seq![c],
        Inner::Escape(c) => seq!['\\', c],
        Inner::Use(u) => use_text(u),
    }
}

pub open spec fn inner_texts(ps: Seq<Inner>) -> Text
    decreases ps.len(),
{
    if ps.len() == 0 {
        Seq::empty()
    } else {
        inner_texts(ps.drop_last()) + inner_text(ps.last())
    }
}

pub open spec fn part_text(p: Part) -> Text {
    match p {
        Part::Char(c) => seq![c],
        Part::Escape(c) => seq!['\\', c],
        Part::Blank(c) => seq![c],
        Part::Use(u) => use_text(u),
        Part::Single(text) => seq!['\''] + text + seq!['\''],
        Part::Double(ps) => seq!['"'] + inner_texts(ps) + seq!['"'],
    }
}

pub open spec fn texts(ps: Seq<Part>) -> Text
    decreases ps.len(),
{
    if ps.len() == 0 {
        Seq::empty()
    } else {
        texts(ps.drop_last()) + part_text(ps.last())
    }
}

pub open spec fn tail_text(tail: Tail) -> Text {
    match tail {
        Tail::End => Seq::empty(),
        Tail::Comment(text) => seq!['#'] + text,
        Tail::Backslash => seq!['\\'],
        Tail::Open(q, text) => seq![q] + text,
        Tail::OpenDouble(inner) => seq!['"'] + inner_texts(inner),
        Tail::OpenBrace(text) => seq!['$', '{'] + text,
    }
}

/// What a backslash makes of a character in double quotes: a line feed, a tab, a
/// carriage return, or the character itself.
pub open spec fn unescaped(c: char) -> char {
    match c {
        'n' => '\n',
        't' => '\t',
        'r' => '\r',
        _ => c,
    }
}

/// Two texts put together, or the first reason why there is one missing.
pub open spec fn both(a: Result<Text, ValueFault>, b: Result<Text, ValueFault>) -> Result<
    Text,
    ValueFault,
> {
    match (a, b) {
        (Ok(x), Ok(y)) => Ok(x + y),
        (Err(e), _) => Err(e),
        (_, Err(e)) => Err(e),
    }
}

/// What a reference in a value stands for.
pub open spec fn used(u: Use, env: Vars) -> Result<Text, ValueFault> {
    match use_value(u, env) {
        Ok(v) => Ok(v),
        Err(e) => Err(ValueFault::Other(e)),
    }
}

pub open spec fn inner_value(p: Inner, env: Vars) -> Result<Text, ValueFault> {
    match p {
        Inner::Char(c) => Ok(seq![c]),
        Inner::Escape(c) => Ok(seq![unescaped(c)]),
        Inner::Use(u) => used(u, env),
    }
}

/// What stands in double quotes stands for what its parts stand for, from the
/// `k`-th on.
pub open spec fn inner_values(ps: Seq<Inner>, k: int, env: Vars) -> Result<Text, ValueFault>
    decreases ps.len() - k,
{
    if k < 0 || k >= ps.len() {
        Ok(Seq::empty())
    } else {
        both(inner_value(ps[k], env), inner_values(ps, k + 1, env))
    }
}

pub open spec fn part_value(p: Part, env: Vars) -> Result<Text, ValueFault> {
    match p {
        Part::Char(c) => Ok(seq![c]),
        Part::Escape(c) => Ok(seq![c]),
        Part::Blank(c) => Ok(seq![c]),
        Part::Use(u) => used(u, env),
        Part::Single(text) => Ok(text),
        Part::Double(ps) => inner_values(ps, 0, env),
    }
}

/// Whether nothing but white space is left from the `k`-th part on.
pub open spec fn only_blanks(ps: Seq<Part>, k: int) -> bool {
    forall|i: int| k <= i < ps.len() ==> (#[trigger] ps[i]) is Blank
}

/// What a tail stands for.
pub open spec fn tail_value(ps: Seq<Part>, tail: Tail, env: Vars) -> Result<Text, ValueFault> {
    match tail {
        Tail::End => Ok(Seq::empty()),
        Tail::Comment(_) => Ok(Seq::empty()),
        Tail::Backslash => Err(ValueFault::Other("trailing backslash"@)),
        Tail::Open(q, _) => Err(
            ValueFault::Unterminated { quote: q, feeds: feeds(texts(ps), texts(ps).len() as int) },
        ),
        Tail::OpenDouble(inner) => match inner_values(inner, 0, env) {
            Ok(_) => Err(
                ValueFault::Unterminated {
                    quote: '"',
                    feeds: feeds(texts(ps), texts(ps).len() as int),
                },
            ),
            Err(e) => Err(e),
        },
        Tail::OpenBrace(_) => Err(ValueFault::Other(unterminated_brace())),
    }
}

/// What the parts from the `k`-th on stand for, one after the other; white space
/// with nothing behind it is dropped.
pub open spec fn said(ps: Seq<Part>, tail: Tail, k: int, env: Vars) -> Result<Text, ValueFault>
    decreases ps.len() - k,
{
    if k < 0 || k >= ps.len() || (only_blanks(ps, k) && tail_value(ps, tail, env) is Ok) {
        tail_value(ps, tail, env)
    } else {
        both(part_value(ps[k], env), said(ps, tail, k + 1, env))
    }
}

/// Whether a quote in front of the `k`-th part would open a section: at the start
/// and straight behind a section, references to nothing aside.
pub open spec fn at_boundary(ps: Seq<Part>, k: int, env: Vars) -> bool
    decreases k,
{
    k <= 0 || match ps[k - 1] {
        Part::Single(_) => true,
        Part::Double(_) => true,
        Part::Use(u) => use_value(u, env) == Ok::<Text, Text>(Seq::empty()) && at_boundary(
            ps,
            k - 1,
            env,
        ),
        _ => false,
    }
}

/// Whether white space stands in front of the `k`-th part.
pub open spec fn behind_white(ps: Seq<Part>, k: int) -> bool {
    k > 0 && match ps[k - 1] {
        Part::Blank(_) => true,
        Part::Escape(c) => white(c),
        _ => false,
    }
}

pub open spec fn inner_stands(ps: Seq<Inner>, k: int, next: Option<char>) -> bool {
    match ps[k] {
        Inner::Char(c) => c != '"' && c != '\\' && c != '$',
        Inner::Escape(_) => true,
        Inner::Use(u) => use_stands(u, next),
    }
}

/// Whether the `k`-th part is what it seems where `next` stands behind it.
pub open spec fn part_stands(ps: Seq<Part>, k: int, next: Option<char>, env: Vars) -> bool {
    match ps[k] {
        Part::Char(c) => {
            &&& !white(c) && c != '\\' && c != '$'
            &&& c == '\'' || c == '"' ==> !at_boundary(ps, k, env)
            &&& c == '#' ==> k > 0 && !behind_white(ps, k)
        },
        Part::Escape(_) => true,
        Part::Blank(c) => white(c),
        Part::Use(u) => use_stands(u, next),
        Part::Single(text) => at_boundary(ps, k, env) && !text.contains('\''),
        Part::Double(inner) => at_boundary(ps, k, env) && forall|m: int|
            0 <= m < inner.len() ==> #[trigger] inner_stands(
                inner,
                m,
                char_at(inner_texts(inner) + seq!['"'], inner_texts(inner.take(m + 1)).len() as int),
            ),
    }
}

/// Whether the parts and the tail are what they seem.
pub open spec fn well_written(ps: Seq<Part>, tail: Tail, env: Vars) -> bool {
    &&& forall|k: int|
        0 <= k < ps.len() ==> #[trigger] part_stands(
            ps,
            k,
            char_at(texts(ps) + tail_text(tail), texts(ps.take(k + 1)).len() as int),
            env,
        )
    &&& match tail {
        Tail::End => true,
        Tail::Comment(_) => ps.len() == 0 || behind_white(ps, ps.len() as int),
        Tail::Backslash => true,
        Tail::Open(q, text) => inert(q, text) && at_boundary(ps, ps.len() as int, env),
        Tail::OpenDouble(inner) => at_boundary(ps, ps.len() as int, env) && forall|m: int|
            0 <= m < inner.len() ==> #[trigger] inner_stands(
                inner,
                m,
                char_at(inner_texts(inner), inner_texts(inner.take(m + 1)).len() as int),
            ),
        Tail::OpenBrace(text) => !text.contains('}'),
    }
}

/// A value that is written as a row of parts stands for what they stand for, one
/// after the other.
pub proof fn a_value_reads_as_it_is_written(ps: Seq<Part>, tail: Tail, env: Vars)
    requires
        well_written(ps, tail, env),
    ensures
        value_of(texts(ps) + tail_text(tail), env) == said(ps, tail, 0, env),
{
    let s = texts(ps) + tail_text(tail);
    lemma_value_start(s, env);
    assert(ps.take(0) =~= Seq::<Part>::empty());
    lemma_parts_from(ps, tail, 0, Seq::empty(), Seq::empty(), env);
    if let Ok(t) = said(ps, tail, 0, env) {
        assert(Seq::<char>::empty() + Seq::<char>::empty() + t =~= t);
        if only_blanks(ps, 0) {
            lemma_only_blanks(ps, tail, 0, env);
        }
    }
}

/// What is left to read, behind `out` and with `blanks` held back.
spec fn left(
    ps: Seq<Part>,
    tail: Tail,
    k: int,
    out: Text,
    blanks: Text,
    env: Vars,
) -> Result<Text, ValueFault> {
    match said(ps, tail, k, env) {
        Ok(t) => if only_blanks(ps, k) {
            Ok(out)
        } else {
            Ok(out + blanks + t)
        },
        Err(e) => Err(e),
    }
}

proof fn lemma_one_part(p: Part, env: Vars)
    requires
        !(p is Blank),
    ensures
        texts(seq![p]) == part_text(p),
        said(seq![p], Tail::End, 0, env) == part_value(p, env),
        texts(seq![p]) + tail_text(Tail::End) == part_text(p),
{
    let ps = seq![p];
    assert(ps.drop_last() =~= Seq::<Part>::empty());
    assert(texts(ps.drop_last()) =~= Seq::<char>::empty());
    assert(texts(ps) =~= part_text(p));
    assert(texts(ps) + tail_text(Tail::End) =~= part_text(p));
    assert(!(ps[0] is Blank));
    assert(said(ps, Tail::End, 1, env) == Ok::<Text, ValueFault>(Seq::empty()));
    if let Ok(v) = part_value(p, env) {
        assert(v + Seq::<char>::empty() =~= v);
    }
}

/// The text of the first parts, and the part behind them.
proof fn lemma_texts(ps: Seq<Part>, k: int, rest: Text)
    requires
        0 <= k <= ps.len(),
    ensures
        stands_at(texts(ps) + rest, 0, texts(ps.take(k))),
        k < ps.len() ==> texts(ps.take(k + 1)) == texts(ps.take(k)) + part_text(ps[k]),
        k < ps.len() ==> stands_at(
            texts(ps) + rest,
            texts(ps.take(k)).len() as int,
            part_text(ps[k]),
        ),
        k == ps.len() ==> texts(ps.take(k)) == texts(ps),
    decreases ps.len() - k,
{
    let s = texts(ps) + rest;
    if k == ps.len() {
        assert(ps.take(k) =~= ps);
    } else {
        lemma_texts(ps, k + 1, rest);
        assert(ps.take(k + 1).drop_last() =~= ps.take(k));
        assert(ps.take(k + 1).last() == ps[k]);
        let a = texts(ps.take(k));
        let t = part_text(ps[k]);
        let b = texts(ps.take(k + 1));
        assert forall|j: int| 0 <= j < a.len() implies s[0 + j] == #[trigger] a[j] by {
            assert(b[j] == a[j]);
            assert(s[0 + j] == b[j]);
        }
        assert forall|j: int| 0 <= j < t.len() implies s[a.len() + j] == #[trigger] t[j] by {
            assert(b[a.len() + j] == t[j]);
            assert(s[0 + (a.len() + j)] == b[a.len() + j]);
        }
    }
}

/// The character in front of a part is white space only where the parts say so.
proof fn lemma_in_front(ps: Seq<Part>, tail: Tail, k: int, env: Vars)
    requires
        well_written(ps, tail, env),
        0 < k <= ps.len(),
    ensures
        ({
            let s = texts(ps) + tail_text(tail);
            let i: int = texts(ps.take(k)).len() as int;
            0 < i <= s.len() && white(s[i - 1]) == behind_white(ps, k)
        }),
{
    let rest = tail_text(tail);
    let s = texts(ps) + rest;
    lemma_texts(ps, k - 1, rest);
    lemma_texts(ps, k, rest);
    let i: int = texts(ps.take(k)).len() as int;
    let next = char_at(s, i);
    let p = ps[k - 1];
    let t = part_text(p);
    assert(part_stands(ps, k - 1, char_at(s, texts(ps.take(k - 1 + 1)).len() as int), env));
    match p {
        Part::Use(u) => {
            match u {
                Use::Bare(name) => {
                    assert(name_char(name[name.len() - 1]));
                },
                _ => {},
            }
        },
        _ => {},
    }
    assert(t.len() > 0);
    assert(s[i - 1] == t[t.len() - 1]);
}

#[verifier::rlimit(40)]
#[verifier::spinoff_prover]
proof fn lemma_parts_from(
    ps: Seq<Part>,
    tail: Tail,
    k: int,
    out: Text,
    blanks: Text,
    env: Vars,
)
    requires
        well_written(ps, tail, env),
        0 <= k <= ps.len(),
    ensures
        ({
            let s = texts(ps) + tail_text(tail);
            let i: int = texts(ps.take(k)).len() as int;
            finish(out, blanks, pieces(s, i, None, at_boundary(ps, k, env), env)) == left(
                ps,
                tail,
                k,
                out,
                blanks,
                env,
            )
        }),
    decreases ps.len() - k,
{
    let rest = tail_text(tail);
    let s = texts(ps) + rest;
    let i: int = texts(ps.take(k)).len() as int;
    let fresh = at_boundary(ps, k, env);
    lemma_texts(ps, k, rest);
    if k == ps.len() {
        lemma_tail(ps, tail, out, blanks, env);
    } else {
        let p = ps[k];
        let t = part_text(p);
        let n: int = i + t.len();
        lemma_texts(ps, k + 1, rest);
        assert(part_stands(ps, k, char_at(s, texts(ps.take(k + 1)).len() as int), env));
        if k > 0 {
            lemma_in_front(ps, tail, k, env);
        }
        match p {
            Part::Blank(c) => {
                assert(s[i + 0] == t[0]);
                lemma_parts_from(ps, tail, k + 1, out, blanks.push(c), env);
                lemma_finish_blank(out, blanks, c, pieces(s, i + 1, None, false, env));
                lemma_left_blank(ps, tail, k, out, blanks, env);
            },
            Part::Char(c) => {
                assert(s[i + 0] == t[0]);
                lemma_parts_from(ps, tail, k + 1, out + blanks + seq![c], Seq::empty(), env);
                lemma_finish_solid(out, blanks, seq![c], pieces(s, i + 1, None, false, env));
                lemma_left_solid(ps, tail, k, out, blanks, seq![c], env);
            },
            Part::Escape(c) => {
                assert(s[i + 0] == t[0] && s[i + 1] == t[1]);
                lemma_parts_from(ps, tail, k + 1, out + blanks + seq![c], Seq::empty(), env);
                lemma_finish_solid(out, blanks, seq![c], pieces(s, i + 2, None, false, env));
                lemma_left_solid(ps, tail, k, out, blanks, seq![c], env);
            },
            Part::Use(u) => {
                a_reference_is_expanded_where_it_stands(s, i, u, env);
                match use_value(u, env) {
                    Ok(v) => {
                        lemma_parts_from(ps, tail, k + 1, out + blanks + v, Seq::empty(), env);
                        assert((v =~= Seq::empty()) == (v.len() == 0));
                        lemma_finish_solid(
                            out,
                            blanks,
                            v,
                            pieces(s, n, None, fresh && v.len() == 0, env),
                        );
                        lemma_left_solid(ps, tail, k, out, blanks, v, env);
                    },
                    Err(_) => {
                        assert(!(ps[k] is Blank));
                    },
                }
            },
            Part::Single(text) => {
                lemma_single(s, i, text, out, blanks, env);
                lemma_parts_from(ps, tail, k + 1, out + blanks + text, Seq::empty(), env);
                lemma_left_solid(ps, tail, k, out, blanks, text, env);
            },
            Part::Double(inner) => {
                lemma_double(s, i, inner, out, blanks, env);
                match inner_values(inner, 0, env) {
                    Ok(v) => {
                        lemma_parts_from(ps, tail, k + 1, out + blanks + v, Seq::empty(), env);
                        lemma_left_solid(ps, tail, k, out, blanks, v, env);
                    },
                    Err(_) => {
                        assert(!(ps[k] is Blank));
                    },
                }
            },
        }
    }
}

/// A section in single quotes.
proof fn lemma_single(s: Text, i: int, text: Text, out: Text, blanks: Text, env: Vars)
    requires
        stands_at(s, i, part_text(Part::Single(text))),
        !text.contains('\''),
    ensures
        finish(out, blanks, pieces(s, i, None, true, env)) == finish(
            out + blanks + text,
            Seq::empty(),
            pieces(s, i + part_text(Part::Single(text)).len(), None, true, env),
        ),
{
    let t = part_text(Part::Single(text));
    let end: int = i + t.len() - 1;
    assert(s[i + 0] == t[0]);
    assert(s[i + (t.len() - 1)] == t[t.len() - 1]);
    assert forall|j: int| i + 1 <= j < end implies #[trigger] s[j] != '\'' by {
        assert(s[i + (j - i)] == t[j - i]);
        assert(text.contains(text[j - i - 1]));
    }
    assert(s.subrange(i + 1, end) =~= text) by {
        assert forall|j: int| 0 <= j < text.len() implies s[i + 1 + j] == text[j] by {
            assert(s[i + (1 + j)] == t[1 + j]);
        }
    }
    lemma_finish_solid(out, blanks, Seq::empty(), pieces(s, i + 1, Some(('\'', i)), true, env));
    assert(out + blanks + Seq::<char>::empty() =~= out + blanks);
    lemma_inside(s, i + 1, end, '\'', i, true, out + blanks, env);
}

/// A section in double quotes.
proof fn lemma_double(s: Text, i: int, inner: Seq<Inner>, out: Text, blanks: Text, env: Vars)
    requires
        stands_at(s, i, part_text(Part::Double(inner))),
        forall|m: int|
            0 <= m < inner.len() ==> #[trigger] inner_stands(
                inner,
                m,
                char_at(inner_texts(inner) + seq!['"'], inner_texts(inner.take(m + 1)).len() as int),
            ),
    ensures
        finish(out, blanks, pieces(s, i, None, true, env)) == match inner_values(inner, 0, env) {
            Ok(v) => finish(
                out + blanks + v,
                Seq::empty(),
                pieces(s, i + part_text(Part::Double(inner)).len(), None, true, env),
            ),
            Err(e) => Err(e),
        },
{
    let t = part_text(Part::Double(inner));
    assert(s[i + 0] == t[0]);
    lemma_finish_solid(out, blanks, Seq::empty(), pieces(s, i + 1, Some(('"', i)), true, env));
    assert(out + blanks + Seq::<char>::empty() =~= out + blanks);
    assert(inner.take(0) =~= Seq::<Inner>::empty());
    assert(stands_at(s, i + 1, inner_texts(inner) + seq!['"'])) by {
        let u = inner_texts(inner) + seq!['"'];
        assert forall|j: int| 0 <= j < u.len() implies s[i + 1 + j] == #[trigger] u[j] by {
            assert(s[i + (1 + j)] == t[1 + j]);
        }
    }
    lemma_inner_from(s, i, inner, 0, true, out + blanks, env);
}

/// A part that is no white space.
proof fn lemma_left_solid(
    ps: Seq<Part>,
    tail: Tail,
    k: int,
    out: Text,
    blanks: Text,
    v: Text,
    env: Vars,
)
    requires
        0 <= k < ps.len(),
        !(ps[k] is Blank),
        part_value(ps[k], env) == Ok::<Text, ValueFault>(v),
    ensures
        left(ps, tail, k + 1, out + blanks + v, Seq::empty(), env) == left(
            ps,
            tail,
            k,
            out,
            blanks,
            env,
        ),
{
    assert(!only_blanks(ps, k)) by {
        assert(!(ps[k] is Blank));
    }
    if let Ok(t) = said(ps, tail, k + 1, env) {
        if only_blanks(ps, k + 1) {
            lemma_only_blanks(ps, tail, k + 1, env);
            assert(t =~= Seq::empty());
            assert(out + blanks + v =~= out + blanks + (v + t));
        } else {
            assert(out + blanks + v + Seq::<char>::empty() + t =~= out + blanks + (v + t));
        }
    }
}

/// White space with no text behind it stands for nothing, where the tail does.
proof fn lemma_only_blanks(ps: Seq<Part>, tail: Tail, k: int, env: Vars)
    requires
        0 <= k <= ps.len(),
        only_blanks(ps, k),
        said(ps, tail, k, env) is Ok,
    ensures
        said(ps, tail, k, env) == Ok::<Text, ValueFault>(Seq::empty()),
        tail_value(ps, tail, env) is Ok,
    decreases ps.len() - k,
{
    if !(k >= ps.len() || tail_value(ps, tail, env) is Ok) {
        assert(only_blanks(ps, k + 1));
        lemma_only_blanks(ps, tail, k + 1, env);
    }
}

/// A part that is white space.
proof fn lemma_left_blank(
    ps: Seq<Part>,
    tail: Tail,
    k: int,
    out: Text,
    blanks: Text,
    env: Vars,
)
    requires
        0 <= k < ps.len(),
        ps[k] is Blank,
    ensures
        left(ps, tail, k + 1, out, blanks.push(ps[k]->Blank_0), env) == left(
            ps,
            tail,
            k,
            out,
            blanks,
            env,
        ),
{
    let c = ps[k]->Blank_0;
    assert(only_blanks(ps, k) == only_blanks(ps, k + 1)) by {
        if only_blanks(ps, k + 1) {
            assert forall|i: int| k <= i < ps.len() implies (#[trigger] ps[i]) is Blank by {}
        }
        if only_blanks(ps, k) {
            assert forall|i: int| k + 1 <= i < ps.len() implies (#[trigger] ps[i]) is Blank by {}
        }
    }
    if only_blanks(ps, k) {
        if said(ps, tail, k, env) is Ok {
            lemma_only_blanks(ps, tail, k, env);
        }
        if said(ps, tail, k + 1, env) is Ok {
            lemma_only_blanks(ps, tail, k + 1, env);
        }
        lemma_blank_errors(ps, tail, k, env);
        lemma_blank_errors(ps, tail, k + 1, env);
    } else {
        if let Ok(t) = said(ps, tail, k + 1, env) {
            assert(out + blanks.push(c) + t =~= out + blanks + (seq![c] + t));
        }
    }
}

/// White space with no text behind it: what is wrong is wrong with the tail.
proof fn lemma_blank_errors(ps: Seq<Part>, tail: Tail, k: int, env: Vars)
    requires
        0 <= k <= ps.len(),
        only_blanks(ps, k),
    ensures
        tail_value(ps, tail, env) is Ok ==> said(ps, tail, k, env) is Ok,
        tail_value(ps, tail, env) matches Err(e) ==> said(ps, tail, k, env) == Err::<Text, ValueFault>(e),
    decreases ps.len() - k,
{
    if k < ps.len() {
        assert(only_blanks(ps, k + 1));
        assert(ps[k] is Blank);
        lemma_blank_errors(ps, tail, k + 1, env);
    }
}

proof fn lemma_tail(ps: Seq<Part>, tail: Tail, out: Text, blanks: Text, env: Vars)
    requires
        well_written(ps, tail, env),
    ensures
        ({
            let s = texts(ps) + tail_text(tail);
            let k: int = ps.len() as int;
            finish(
                out,
                blanks,
                pieces(s, texts(ps).len() as int, None, at_boundary(ps, k, env), env),
            ) == left(ps, tail, k, out, blanks, env)
        }),
{
    let rest = tail_text(tail);
    let s = texts(ps) + rest;
    let k: int = ps.len() as int;
    let i: int = texts(ps).len() as int;
    assert(only_blanks(ps, k));
    assert(ps.take(k) =~= ps);
    assert(out + spell(Seq::empty(), blanks) =~= out);
    match tail {
        Tail::End => {},
        Tail::Comment(text) => {
            assert(s[i] == rest[0]);
            if k > 0 {
                lemma_in_front(ps, tail, k, env);
            } else {
                assert(i == 0);
            }
        },
        Tail::Backslash => {
            assert(s[i] == rest[0]);
        },
        Tail::Open(q, text) => {
            assert(s[i] == rest[0]);
            assert forall|j: int| i + 1 <= j < s.len() implies #[trigger] s[j] != q && (q == '"'
                ==> s[j] != '\\' && s[j] != '$') by {
                assert(s[j] == text[j - i - 1]);
                assert(text.contains(text[j - i - 1]));
            }
            lemma_never_closed(s, i + 1, q, i, true, env);
            crate::text::lemma_feeds_same(texts(ps), s, i);
        },
        Tail::OpenDouble(inner) => {
            assert(s[i] == rest[0]);
            let u = inner_texts(inner);
            assert forall|j: int| 0 <= j < u.len() implies s[i + 1 + j] == #[trigger] u[j] by {
                assert(s[i + 1 + j] == rest[1 + j]);
            }
            assert(inner.take(0) =~= Seq::<Inner>::empty());
            lemma_inner_open(s, i, inner, 0, true, env);
            crate::text::lemma_feeds_same(texts(ps), s, i);
        },
        Tail::OpenBrace(text) => {
            assert(s[i] == rest[0] && s[i + 1] == rest[1]);
            assert forall|j: int| i + 2 <= j < s.len() implies #[trigger] s[j] != '}' by {
                assert(s[j] == text[j - i - 2]);
                assert(text.contains(text[j - i - 2]));
            }
            crate::dotenv::lemma_braced_end(s, i + 2);
            let stop: int = braced_end(s, i + 2);
            if stop < s.len() {
                assert(s[stop] != '}');
                let from: int = if s[stop] == ':' {
                    stop + 2
                } else {
                    stop + 1
                };
                lemma_no_end(s, from, 0);
            }
        },
    }
}

proof fn lemma_no_end(s: Text, i: int, depth: nat)
    requires
        0 <= i <= s.len(),
        forall|j: int| i <= j < s.len() ==> #[trigger] s[j] != '}',
    ensures
        default_end(s, i, depth) == s.len(),
    decreases s.len() - i,
{
    if i < s.len() {
        assert(s[i] != '}');
        if s[i] == '{' {
            lemma_no_end(s, i + 1, depth + 1);
        } else {
            lemma_no_end(s, i + 1, depth);
        }
    }
}

proof fn lemma_inner_texts(ps: Seq<Inner>, k: int)
    requires
        0 <= k <= ps.len(),
    ensures
        stands_at(inner_texts(ps) + seq!['"'], 0, inner_texts(ps.take(k))),
        k < ps.len() ==> inner_texts(ps.take(k + 1)) == inner_texts(ps.take(k)) + inner_text(ps[k]),
        k < ps.len() ==> stands_at(
            inner_texts(ps) + seq!['"'],
            inner_texts(ps.take(k)).len() as int,
            inner_text(ps[k]),
        ),
        k == ps.len() ==> inner_texts(ps.take(k)) == inner_texts(ps),
    decreases ps.len() - k,
{
    let s = inner_texts(ps) + seq!['"'];
    if k == ps.len() {
        assert(ps.take(k) =~= ps);
    } else {
        lemma_inner_texts(ps, k + 1);
        assert(ps.take(k + 1).drop_last() =~= ps.take(k));
        assert(ps.take(k + 1).last() == ps[k]);
        let a = inner_texts(ps.take(k));
        let t = inner_text(ps[k]);
        let b = inner_texts(ps.take(k + 1));
        assert forall|j: int| 0 <= j < a.len() implies s[0 + j] == #[trigger] a[j] by {
            assert(b[j] == a[j]);
            assert(s[0 + j] == b[j]);
        }
        assert forall|j: int| 0 <= j < t.len() implies s[a.len() + j] == #[trigger] t[j] by {
            assert(b[a.len() + j] == t[j]);
            assert(s[0 + (a.len() + j)] == b[a.len() + j]);
        }
    }
}

/// The parts behind a double quote that is never closed, from the `k`-th on.
proof fn lemma_inner_open(s: Text, at: int, ps: Seq<Inner>, k: int, fresh: bool, env: Vars)
    requires
        0 <= at,
        0 <= k <= ps.len(),
        s.len() == at + 1 + inner_texts(ps).len(),
        stands_at(s, at + 1, inner_texts(ps)),
        forall|m: int|
            0 <= m < ps.len() ==> #[trigger] inner_stands(
                ps,
                m,
                char_at(inner_texts(ps), inner_texts(ps.take(m + 1)).len() as int),
            ),
    ensures
        pieces(s, at + 1 + inner_texts(ps.take(k)).len(), Some(('"', at)), fresh, env) == Err::<
            Seq<Piece>,
            ValueFault,
        >(
            match inner_values(ps, k, env) {
                Ok(_) => ValueFault::Unterminated { quote: '"', feeds: feeds(s, at) },
                Err(e) => e,
            },
        ),
    decreases ps.len() - k,
{
    let u = inner_texts(ps);
    let whole = u + seq!['"'];
    let m: int = inner_texts(ps.take(k)).len() as int;
    let i: int = at + 1 + m;
    lemma_inner_texts(ps, k);
    if k < ps.len() {
        let p = ps[k];
        let t = inner_text(p);
        lemma_inner_texts(ps, k + 1);
        let next_m: int = inner_texts(ps.take(k + 1)).len() as int;
        assert(next_m == m + t.len());
        lemma_inner_length(ps, k + 1);
        assert(inner_stands(ps, k, char_at(u, inner_texts(ps.take(k + 1)).len() as int)));
        assert forall|j: int| 0 <= j < t.len() implies s[i + j] == #[trigger] t[j] by {
            assert(whole[m + j] == t[j]);
            assert(s[at + 1 + (m + j)] == u[m + j]);
        }
        match p {
            Inner::Char(c) => {
                assert(s[i + 0] == t[0]);
                lemma_inner_open(s, at, ps, k + 1, false, env);
            },
            Inner::Escape(c) => {
                assert(s[i + 0] == t[0] && s[i + 1] == t[1]);
                lemma_inner_open(s, at, ps, k + 1, false, env);
            },
            Inner::Use(u2) => {
                if next_m < u.len() {
                    assert(s[at + 1 + next_m] == u[next_m]);
                }
                assert(char_at(s, i + t.len()) == char_at(u, next_m));
                a_reference_is_expanded_where_it_stands(s, i, u2, env);
                if let Ok(x) = use_value(u2, env) {
                    lemma_inner_open(s, at, ps, k + 1, fresh && x.len() == 0, env);
                }
            },
        }
    }
}

/// The first parts are no longer than all of them.
proof fn lemma_inner_length(ps: Seq<Inner>, k: int)
    requires
        0 <= k <= ps.len(),
    ensures
        inner_texts(ps.take(k)).len() <= inner_texts(ps).len(),
    decreases ps.len() - k,
{
    if k < ps.len() {
        lemma_inner_length(ps, k + 1);
        lemma_inner_texts(ps, k);
    } else {
        assert(ps.take(k) =~= ps);
    }
}

/// The parts inside double quotes, from the `k`-th on. The section began at `at`.
proof fn lemma_inner_from(
    s: Text,
    at: int,
    ps: Seq<Inner>,
    k: int,
    fresh: bool,
    out: Text,
    env: Vars,
)
    requires
        0 <= at,
        0 <= k <= ps.len(),
        stands_at(s, at + 1, inner_texts(ps) + seq!['"']),
        forall|m: int|
            0 <= m < ps.len() ==> #[trigger] inner_stands(
                ps,
                m,
                char_at(inner_texts(ps) + seq!['"'], inner_texts(ps.take(m + 1)).len() as int),
            ),
    ensures
        finish(
            out,
            Seq::empty(),
            pieces(s, at + 1 + inner_texts(ps.take(k)).len(), Some(('"', at)), fresh, env),
        ) == match inner_values(ps, k, env) {
            Ok(v) => finish(
                out + v,
                Seq::empty(),
                pieces(s, at + 2 + inner_texts(ps).len(), None, true, env),
            ),
            Err(e) => Err(e),
        },
    decreases ps.len() - k,
{
    let whole = inner_texts(ps) + seq!['"'];
    let m: int = inner_texts(ps.take(k)).len() as int;
    let i: int = at + 1 + m;
    lemma_inner_texts(ps, k);
    if k == ps.len() {
        assert(s[at + 1 + m] == whole[m]);
        assert(out + Seq::<char>::empty() =~= out);
    } else {
        let p = ps[k];
        let t = inner_text(p);
        lemma_inner_texts(ps, k + 1);
        let next_m: int = inner_texts(ps.take(k + 1)).len() as int;
        assert(next_m == m + t.len());
        assert(inner_stands(ps, k, char_at(whole, inner_texts(ps.take(k + 1)).len() as int)));
        assert forall|j: int| 0 <= j < t.len() implies s[i + j] == #[trigger] t[j] by {
            assert(whole[m + j] == t[j]);
            assert(s[at + 1 + (m + j)] == whole[m + j]);
        }
        match p {
            Inner::Char(c) => {
                assert(s[i + 0] == t[0]);
                lemma_inner_from(s, at, ps, k + 1, false, out + seq![c], env);
                lemma_finish_solid(
                    out,
                    Seq::empty(),
                    seq![c],
                    pieces(s, i + 1, Some(('"', at)), false, env),
                );
                assert(out + Seq::<char>::empty() + seq![c] =~= out + seq![c]);
                if let Ok(v) = inner_values(ps, k + 1, env) {
                    assert(out + seq![c] + v =~= out + (seq![c] + v));
                }
            },
            Inner::Escape(c) => {
                let meant = seq![unescaped(c)];
                assert(s[i + 0] == t[0] && s[i + 1] == t[1]);
                lemma_inner_from(s, at, ps, k + 1, false, out + meant, env);
                lemma_finish_solid(
                    out,
                    Seq::empty(),
                    meant,
                    pieces(s, i + 2, Some(('"', at)), false, env),
                );
                assert(out + Seq::<char>::empty() + meant =~= out + meant);
                if let Ok(v) = inner_values(ps, k + 1, env) {
                    assert(out + meant + v =~= out + (meant + v));
                }
            },
            Inner::Use(u) => {
                assert(s[at + 1 + next_m] == whole[next_m]);
                a_reference_is_expanded_where_it_stands(s, i, u, env);
                if let Ok(x) = use_value(u, env) {
                    let still = fresh && x.len() == 0;
                    lemma_inner_from(s, at, ps, k + 1, still, out + x, env);
                    lemma_finish_solid(
                        out,
                        Seq::empty(),
                        x,
                        pieces(s, i + t.len(), Some(('"', at)), still, env),
                    );
                    assert(out + Seq::<char>::empty() + x =~= out + x);
                    if let Ok(v) = inner_values(ps, k + 1, env) {
                        assert(out + x + v =~= out + (x + v));
                    }
                }
            },
        }
    }
}

} // verus!
