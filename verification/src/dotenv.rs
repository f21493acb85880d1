//! Reading `.env` files.

use vstd::prelude::*;
use vstd::slice::slice_subrange;

use crate::env::{lookup, Env, Vars};
use crate::shell::{identifier, is_name, is_name_char, name_char};
use crate::text::{
    begins, begins_with, cat2, cat3, cat4, chars_of, copy_of, count_feeds, debug_of, debug_text,
    decimal, decimal_of, feeds, find, find_char, first_solid, is_letter, is_white, lemma_feeds_grow,
    lemma_feeds_join, lemma_feeds_none, lemma_feeds_same, lemma_find, lemma_first_solid,
    lemma_no_feeds, letter, lines, push_item, split_lines, text_of, trim, trim_start, trimmed,
    trimmed_start, views, white, Text,
};

verus! {

// ---------------------------------------------------------------------------
// `$VAR` and `${VAR:-default}`
// ---------------------------------------------------------------------------

/// What follows a `$`.
pub enum Reference {
    /// Nothing that could be expanded: the `$` stands for itself.
    Plain,
    /// A variable, with what to use where it is unset or empty.
    Named { name: Text, default: Option<Text> },
}

/// The end of the name characters that begin at `i`.
pub open spec fn name_end(s: Text, i: int) -> int
    decreases s.len() - i,
{
    if 0 <= i < s.len() && name_char(s[i]) {
        name_end(s, i + 1)
    } else {
        i
    }
}

/// Whether the name inside `${...}` ends at `i`: at the closing brace, or at the
/// `-` or `:-` in front of a default.
pub open spec fn name_stop(s: Text, i: int) -> bool {
    s[i] == '}' || s[i] == '-' || (s[i] == ':' && i + 1 < s.len() && s[i + 1] == '-')
}

/// Where the name inside `${...}` ends, or the end of `s`.
pub open spec fn braced_end(s: Text, i: int) -> int
    decreases s.len() - i,
{
    if i < 0 || i >= s.len() {
        s.len() as int
    } else if name_stop(s, i) {
        i
    } else {
        braced_end(s, i + 1)
    }
}

/// The `}` that closes a default when `depth` braces have been opened inside it
/// so far, or the end of `s`.
pub open spec fn default_end(s: Text, i: int, depth: nat) -> int
    decreases s.len() - i,
{
    if i < 0 || i >= s.len() {
        s.len() as int
    } else if s[i] == '{' {
        default_end(s, i + 1, depth + 1)
    } else if s[i] == '}' {
        if depth == 0 {
            i
        } else {
            default_end(s, i + 1, (depth - 1) as nat)
        }
    } else {
        default_end(s, i + 1, depth)
    }
}

pub open spec fn unterminated_brace() -> Text {
    "unterminated `${`"@
}

pub open spec fn invalid_name(name: Text) -> Text {
    "invalid variable name in `${"@ + name + "}`"@
}

/// The default that begins at `start`, and the position after its closing brace.
pub open spec fn default_at(s: Text, start: int) -> Result<(Text, int), Text> {
    let end: int = default_end(s, start, 0);
    if end >= s.len() {
        Err(unterminated_brace())
    } else {
        Ok((s.subrange(start, end), end + 1))
    }
}

/// What the `$` at `start` refers to, and the position after the reference.
pub open spec fn reference(s: Text, start: int) -> Result<(Reference, int), Text> {
    let i: int = start + 1;
    if i >= s.len() {
        Ok((Reference::Plain, i))
    } else if s[i] != '{' {
        if letter(s[i]) || s[i] == '_' {
            let end: int = name_end(s, i);
            Ok((Reference::Named { name: s.subrange(i, end), default: None }, end))
        } else {
            Ok((Reference::Plain, i))
        }
    } else {
        let stop: int = braced_end(s, i + 1);
        if stop >= s.len() {
            Err(unterminated_brace())
        } else {
            let name = s.subrange(i + 1, stop);
            if s[stop] == '}' {
                Ok((Reference::Named { name, default: None }, stop + 1))
            } else {
                let from: int = if s[stop] == ':' {
                    stop + 2
                } else {
                    stop + 1
                };
                match default_at(s, from) {
                    Ok((text, end)) => Ok((Reference::Named { name, default: Some(text) }, end)),
                    Err(e) => Err(e),
                }
            }
        }
    }
}

/// How long the default of a reference is.
pub open spec fn default_len(r: Reference) -> nat {
    match r {
        Reference::Named { name: _, default: Some(d) } => d.len(),
        _ => 0,
    }
}

/// What a variable holds; nothing where it is unset.
pub open spec fn held(env: Vars, name: Text) -> Text {
    match lookup(env, name) {
        Some(v) => v,
        None => Seq::empty(),
    }
}

/// The text that a reference stands for. A default is used where the variable
/// is unset or empty, and may hold references itself.
pub open spec fn resolve(r: Reference, env: Vars) -> Result<Text, Text>
    decreases default_len(r), default_len(r) + 1,
{
    match r {
        Reference::Plain => Ok(seq!['$']),
        Reference::Named { name, default } => {
            if !identifier(name) {
                Err(invalid_name(name))
            } else {
                match default {
                    Some(d) => if held(env, name).len() == 0 {
                        default_text(d, 0, env)
                    } else {
                        Ok(held(env, name))
                    },
                    None => Ok(held(env, name)),
                }
            }
        },
    }
}

/// `head` in front of a text, if there is one.
pub open spec fn prepend(head: Text, tail: Result<Text, Text>) -> Result<Text, Text> {
    match tail {
        Ok(t) => Ok(head + t),
        Err(e) => Err(e),
    }
}

/// A default with its references replaced, from position `i` on.
pub open spec fn default_text(raw: Text, i: int, env: Vars) -> Result<Text, Text>
    decreases raw.len(), raw.len() - i,
{
    if i < 0 || i >= raw.len() {
        Ok(Seq::empty())
    } else if raw[i] == '$' {
        proof {
            lemma_reference(raw, i);
        }
        match reference(raw, i) {
            Ok((r, next)) => match resolve(r, env) {
                Ok(v) => prepend(v, default_text(raw, next, env)),
                Err(e) => Err(e),
            },
            Err(e) => Err(e),
        }
    } else {
        prepend(seq![raw[i]], default_text(raw, i + 1, env))
    }
}

/// The text that the `$` at `start` introduces, and the position after it.
pub open spec fn expansion(s: Text, start: int, env: Vars) -> Result<(Text, int), Text> {
    match reference(s, start) {
        Ok((r, end)) => match resolve(r, env) {
            Ok(v) => Ok((v, end)),
            Err(e) => Err(e),
        },
        Err(e) => Err(e),
    }
}

pub proof fn lemma_name_end(s: Text, i: int)
    requires
        0 <= i <= s.len(),
    ensures
        i <= name_end(s, i) <= s.len(),
        forall|j: int| i <= j < name_end(s, i) ==> name_char(s[j]),
        name_end(s, i) < s.len() ==> !name_char(s[name_end(s, i)]),
    decreases s.len() - i,
{
    if i < s.len() && name_char(s[i]) {
        lemma_name_end(s, i + 1);
    }
}

pub proof fn lemma_braced_end(s: Text, i: int)
    requires
        0 <= i <= s.len(),
    ensures
        i <= braced_end(s, i) <= s.len(),
        braced_end(s, i) < s.len() ==> name_stop(s, braced_end(s, i)),
    decreases s.len() - i,
{
    if i < s.len() && !name_stop(s, i) {
        lemma_braced_end(s, i + 1);
    }
}

pub proof fn lemma_default_end(s: Text, i: int, depth: nat)
    requires
        0 <= i <= s.len(),
    ensures
        i <= default_end(s, i, depth) <= s.len(),
    decreases s.len() - i,
{
    if i < s.len() {
        if s[i] == '{' {
            lemma_default_end(s, i + 1, depth + 1);
        } else if s[i] == '}' {
            if depth > 0 {
                lemma_default_end(s, i + 1, (depth - 1) as nat);
            }
        } else {
            lemma_default_end(s, i + 1, depth);
        }
    }
}

/// A reference ends after the `$` and within the text, and its default is
/// shorter than the text.
pub proof fn lemma_reference(s: Text, start: int)
    requires
        0 <= start < s.len(),
    ensures
        match reference(s, start) {
            Ok((r, end)) => start < end <= s.len() && default_len(r) < s.len(),
            Err(_) => true,
        },
{
    let i: int = start + 1;
    if i < s.len() {
        lemma_name_end(s, i);
        lemma_braced_end(s, i + 1);
        let stop: int = braced_end(s, i + 1);
        if s[i] == '{' && stop < s.len() {
            lemma_default_end(s, stop + 1, 0);
            if s[stop] == ':' {
                lemma_default_end(s, stop + 2, 0);
            }
        }
    }
}

/// The views of a piece of text with a position, or of a message.
pub open spec fn span_view(r: Result<(String, usize), String>) -> Result<(Text, int), Text> {
    match r {
        Ok((t, n)) => Ok((t@, n as int)),
        Err(m) => Err(m@),
    }
}

/// The views of a text or a message.
pub open spec fn text_view(r: Result<String, String>) -> Result<Text, Text> {
    match r {
        Ok(t) => Ok(t@),
        Err(m) => Err(m@),
    }
}

/// Read everything up to the closing `}` of a `${VAR:-...}` default, tracking
/// nested braces so `${A:-${B}}` works.
pub fn read_default(chars: &[char], start: usize) -> (r: Result<(String, usize), String>)
    ensures
        span_view(r) == default_at(chars@, start as int),
{
    let mut i: usize = start;
    let mut depth: usize = 0;
    while i < chars.len()
        invariant
            start <= i,
            depth <= i - start,
            default_end(chars@, start as int, 0) == default_end(chars@, i as int, depth as nat),
        decreases chars@.len() - i,
    {
        let c: char = chars[i];
        if c == '{' {
            depth += 1;
        } else if c == '}' {
            if depth == 0 {
                return Ok((text_of(slice_subrange(chars, start, i)), i + 1));
            }
            depth -= 1;
        }
        i += 1;
    }
    Err("unterminated `${`".to_owned())
}

/// Expand `$VAR`, `${VAR}` or `${VAR:-default}` starting at `chars[start] == '$'`.
/// Returns the replacement and the index just past the expression.
pub fn expand(chars: &[char], start: usize, env: &Env) -> (r: Result<(String, usize), String>)
    requires
        start < usize::MAX,
    ensures
        span_view(r) == expansion(chars@, start as int, env@),
        start < chars@.len() ==> (r matches Ok((_, n)) ==> start < n <= chars@.len()),
    decreases chars@.len(), 0int,
{
    proof {
        if start < chars@.len() {
            lemma_reference(chars@, start as int);
        }
        reveal_strlit("$");
    }
    let len: usize = chars.len();
    let i: usize = start + 1;
    if i >= len || (chars[i] != '{' && !is_letter(chars[i]) && chars[i] != '_') {
        assert("$"@ =~= seq!['$']);
        return Ok(("$".to_owned(), i));
    }
    if chars[i] != '{' {
        let mut end: usize = i;
        while end < chars.len() && is_name_char(chars[end])
            invariant
                i <= end <= chars@.len(),
                name_end(chars@, i as int) == name_end(chars@, end as int),
            decreases chars@.len() - end,
        {
            end += 1;
        }
        let name: String = text_of(slice_subrange(chars, i, end));
        proof {
            lemma_name_end(chars@, i as int);
            assert(identifier(name@));
        }
        return Ok((value_or_empty(env, name.as_str()), end));
    }
    let mut stop: usize = i + 1;
    while stop < chars.len() && !(chars[stop] == '}' || chars[stop] == '-' || (chars[stop] == ':'
        && stop + 1 < chars.len() && chars[stop + 1] == '-'))
        invariant
            i < stop <= chars@.len(),
            braced_end(chars@, i + 1) == braced_end(chars@, stop as int),
        decreases chars@.len() - stop,
    {
        stop += 1;
    }
    if stop >= chars.len() {
        return Err("unterminated `${`".to_owned());
    }
    let name: &[char] = slice_subrange(chars, i + 1, stop);
    let mut default: Option<String> = None;
    let mut next: usize = stop + 1;
    if chars[stop] != '}' {
        if chars[stop] == ':' {
            next = stop + 2;
        }
        match read_default(chars, next) {
            Ok((text, after)) => {
                default = Some(text);
                next = after;
            },
            Err(e) => {
                return Err(e);
            },
        }
    }
    let name_text: String = text_of(name);
    if !is_name(name) {
        return Err(cat3("invalid variable name in `${", name_text.as_str(), "}`"));
    }
    let current: String = value_or_empty(env, name_text.as_str());
    match default {
        Some(d) => {
            if current.as_str().is_empty() {
                match expand_default(d.as_str(), env) {
                    Ok(text) => Ok((text, next)),
                    Err(e) => Err(e),
                }
            } else {
                Ok((current, next))
            }
        },
        None => Ok((current, next)),
    }
}

/// What a variable holds; nothing where it is unset.
fn value_or_empty(env: &Env, name: &str) -> (r: String)
    ensures
        r@ == held(env@, name@),
{
    match env.get(name) {
        Some(v) => v.as_str().to_owned(),
        None => String::new(),
    }
}

/// The default of a reference, with the references inside it replaced.
pub fn expand_default(raw: &str, env: &Env) -> (r: Result<String, String>)
    ensures
        text_view(r) == default_text(raw@, 0, env@),
    decreases raw@.len(), 1int,
{
    let chars: Vec<char> = chars_of(raw);
    let mut out: String = String::new();
    let mut i: usize = 0;
    assert(prepend(out@, default_text(raw@, 0, env@)) == default_text(raw@, 0, env@)) by {
        if let Ok(t) = default_text(raw@, 0, env@) {
            assert(out@ + t =~= t);
        }
    }
    while i < chars.len()
        invariant
            i <= chars@.len(),
            chars@ == raw@,
            prepend(out@, default_text(raw@, i as int, env@)) == default_text(raw@, 0, env@),
        decreases chars@.len() - i,
    {
        let ghost before = out@;
        if chars[i] == '$' {
            proof {
                lemma_reference(raw@, i as int);
            }
            match expand(&chars, i, env) {
                Ok((value, next)) => {
                    out.append(value.as_str());
                    proof {
                        lemma_prepend(before, value@, default_text(raw@, next as int, env@));
                    }
                    i = next;
                },
                Err(e) => {
                    return Err(e);
                },
            }
        } else {
            out.push(chars[i]);
            proof {
                lemma_prepend(before, seq![raw@[i as int]], default_text(raw@, i + 1, env@));
                assert(before.push(raw@[i as int]) =~= before + seq![raw@[i as int]]);
            }
            i += 1;
        }
    }
    assert(out@ + Seq::<char>::empty() =~= out@);
    Ok(out)
}

proof fn lemma_prepend(a: Text, b: Text, tail: Result<Text, Text>)
    ensures
        prepend(a, prepend(b, tail)) == prepend(a + b, tail),
{
    if let Ok(t) = tail {
        assert(a + (b + t) =~= a + b + t);
    }
}

// ---------------------------------------------------------------------------
// Values
// ---------------------------------------------------------------------------

/// Why a value could not be turned into text.
pub enum ValueError {
    /// A quoted section was opened and never closed. A quoted value is allowed
    /// to span lines, so the next line can be pulled in to try again; at the end
    /// of the file this is a real error. `feeds` says how many line feeds stand
    /// in front of the quote that opened it.
    Unterminated { quote: char, feeds: usize },
    Other(String),
}

/// What a `ValueError` says.
pub enum ValueFault {
    Unterminated { quote: char, feeds: nat },
    Other(Text),
}

impl View for ValueError {
    type V = ValueFault;

    open spec fn view(&self) -> ValueFault {
        match self {
            ValueError::Unterminated { quote, feeds } => ValueFault::Unterminated {
                quote: *quote,
                feeds: *feeds as nat,
            },
            ValueError::Other(m) => ValueFault::Other(m@),
        }
    }
}

/// A piece of a value.
pub enum Piece {
    /// White space outside quotes: kept only where some text follows it.
    Blank(char),
    /// Text, possibly none.
    Solid(Text),
}

/// `KEY=a # note` has a comment; `KEY=a#note` does not.
pub open spec fn comment_at(s: Text, i: int) -> bool {
    i == 0 || white(s[i - 1])
}

/// What a backslash makes of the character after it.
pub open spec fn escaped(c: char, quoted: bool) -> char {
    if !quoted {
        c
    } else if c == 'n' {
        '\n'
    } else if c == 't' {
        '\t'
    } else if c == 'r' {
        '\r'
    } else {
        c
    }
}

pub open spec fn lead(piece: Piece, rest: Result<Seq<Piece>, ValueFault>) -> Result<
    Seq<Piece>,
    ValueFault,
> {
    match rest {
        Ok(ps) => Ok(seq![piece] + ps),
        Err(e) => Err(e),
    }
}

/// The quote of an open section.
pub open spec fn quote_of(open: Option<(char, int)>) -> Option<char> {
    match open {
        Some((q, _)) => Some(q),
        None => None,
    }
}

/// The pieces of a value from position `i` on.
///
/// `open` is the section that position is in, if any: its quote, and where that
/// stands. `fresh` says whether a quote there opens a section: at the start of
/// the value or straight after a section closed, expansions that produce nothing
/// aside.
///
/// Inside single quotes nothing is special but the closing quote. Inside double
/// quotes, references are replaced and a backslash escapes. Outside quotes a `#`
/// at the start or after white space begins a comment.
pub open spec fn pieces(
    s: Text,
    i: int,
    open: Option<(char, int)>,
    fresh: bool,
    env: Vars,
) -> Result<Seq<Piece>, ValueFault>
    decreases s.len() - i,
{
    if i < 0 || i >= s.len() {
        match open {
            Some((quote, at)) => Err(ValueFault::Unterminated { quote, feeds: feeds(s, at) }),
            None => Ok(Seq::empty()),
        }
    } else {
        let c = s[i];
        let quote = quote_of(open);
        if quote == Some(c) {
            pieces(s, i + 1, None, true, env)
        } else if quote == Some('\'') {
            lead(Piece::Solid(seq![c]), pieces(s, i + 1, open, fresh, env))
        } else if c == '\'' || c == '"' {
            if quote is None && fresh {
                lead(Piece::Solid(Seq::empty()), pieces(s, i + 1, Some((c, i)), fresh, env))
            } else {
                lead(Piece::Solid(seq![c]), pieces(s, i + 1, open, false, env))
            }
        } else if c == '\\' {
            if i + 1 >= s.len() {
                Err(ValueFault::Other("trailing backslash"@))
            } else {
                lead(
                    Piece::Solid(seq![escaped(s[i + 1], quote is Some)]),
                    pieces(s, i + 2, open, false, env),
                )
            }
        } else if c == '$' {
            proof {
                lemma_reference(s, i);
            }
            match expansion(s, i, env) {
                Ok((v, next)) => lead(
                    Piece::Solid(v),
                    pieces(s, next, open, fresh && v.len() == 0, env),
                ),
                Err(m) => Err(ValueFault::Other(m)),
            }
        } else if quote is None && c == '#' && comment_at(s, i) {
            Ok(Seq::empty())
        } else if quote is None && white(c) {
            lead(Piece::Blank(c), pieces(s, i + 1, open, false, env))
        } else {
            lead(Piece::Solid(seq![c]), pieces(s, i + 1, open, false, env))
        }
    }
}

/// The text of the pieces, with `blanks` held back in front of them. Blanks
/// that no text follows are dropped.
pub open spec fn spell(ps: Seq<Piece>, blanks: Text) -> Text
    decreases ps.len(),
{
    if ps.len() == 0 {
        Seq::empty()
    } else {
        match ps[0] {
            Piece::Blank(c) => spell(ps.drop_first(), blanks.push(c)),
            Piece::Solid(t) => blanks + t + spell(ps.drop_first(), Seq::empty()),
        }
    }
}

/// A value whose first part is `out`, with `blanks` held back after it.
pub open spec fn finish(
    out: Text,
    blanks: Text,
    rest: Result<Seq<Piece>, ValueFault>,
) -> Result<Text, ValueFault> {
    match rest {
        Ok(ps) => Ok(out + spell(ps, blanks)),
        Err(e) => Err(e),
    }
}

/// The value that the text after `=` stands for.
pub open spec fn value_of(raw: Text, env: Vars) -> Result<Text, ValueFault> {
    match pieces(raw, 0, None, true, env) {
        Ok(ps) => Ok(spell(ps, Seq::empty())),
        Err(e) => Err(e),
    }
}

pub proof fn lemma_finish_solid(out: Text, blanks: Text, t: Text, rest: Result<Seq<Piece>, ValueFault>)
    ensures
        finish(out, blanks, lead(Piece::Solid(t), rest)) == finish(
            out + blanks + t,
            Seq::empty(),
            rest,
        ),
{
    if let Ok(ps) = rest {
        let all = seq![Piece::Solid(t)] + ps;
        assert(all.drop_first() =~= ps);
        assert(out + (blanks + t + spell(ps, Seq::empty())) =~= out + blanks + t + spell(
            ps,
            Seq::empty(),
        ));
    }
}

pub proof fn lemma_finish_blank(out: Text, blanks: Text, c: char, rest: Result<Seq<Piece>, ValueFault>)
    ensures
        finish(out, blanks, lead(Piece::Blank(c), rest)) == finish(out, blanks.push(c), rest),
{
    if let Ok(ps) = rest {
        let all = seq![Piece::Blank(c)] + ps;
        assert(all.drop_first() =~= ps);
    }
}

/// The views of a value or of the reason why there is none.
pub open spec fn value_view(r: Result<String, ValueError>) -> Result<Text, ValueFault> {
    match r {
        Ok(t) => Ok(t@),
        Err(e) => Err(e@),
    }
}

/// Moves the blanks held back into the value.
pub fn flush(out: &mut String, pending: &mut String)
    ensures
        final(out)@ == old(out)@ + old(pending)@,
        final(pending)@ == Text::empty(),
{
    out.append(pending.as_str());
    *pending = String::new();
}

/// `KEY=a # note` has a comment; `KEY=a#note` does not.
pub fn starts_comment(chars: &[char], i: usize) -> (r: bool)
    requires
        i <= chars@.len(),
    ensures
        r == comment_at(chars@, i as int),
{
    i == 0 || is_white(chars[i - 1])
}

/// The section that `quote` opened at `at`.
spec fn section(quote: Option<char>, at: usize) -> Option<(char, int)> {
    match quote {
        Some(q) => Some((q, at as int)),
        None => None,
    }
}

/// Turn the text after `=` into the value it stands for.
///
/// Quoting is deliberately conservative about what counts as a quote:
///
///   * `'...'` is literal, `"..."` expands and honours backslash escapes;
///   * a quote only *opens* a section at a boundary -- at the start of the
///     value, or straight after a section closed. Anywhere else it is an
///     ordinary character;
///   * inside a section, the other quote character is ordinary too.
///
/// That is what keeps `MSG=don't stop` and `PATH=C:\a"b` intact.
pub fn parse_value(raw: &str, env: &Env) -> (r: Result<String, ValueError>)
    ensures
        value_view(r) == value_of(raw@, env@),
        r matches Err(ValueError::Unterminated { quote: _, feeds: n }) ==> n <= feeds(
            raw@,
            raw@.len() as int,
        ),
{
    let chars: Vec<char> = chars_of(raw);
    let mut out: String = String::new();
    // Unquoted white space is held back until some text follows it.
    let mut pending: String = String::new();
    let mut i: usize = 0;
    let mut quote: Option<char> = None;
    let mut opened: usize = 0;
    let mut fresh: bool = true;
    proof {
        if let Ok(ps) = pieces(raw@, 0, None, true, env@) {
            assert(out@ + spell(ps, pending@) =~= spell(ps, Seq::empty()));
        }
    }
    while i < chars.len()
        invariant
            i <= chars@.len(),
            opened <= i,
            chars@ == raw@,
            quote matches Some(q) ==> q == '\'' || q == '"',
            quote is Some ==> pending@.len() == 0,
            finish(out@, pending@, pieces(raw@, i as int, section(quote, opened), fresh, env@)) == value_of(
                raw@,
                env@,
            ),
        decreases chars@.len() - i,
    {
        let c: char = chars[i];
        let ghost o = out@;
        let ghost p = pending@;
        let ghost open = section(quote, opened);
        let ghost rest = pieces(raw@, i + 1, open, fresh, env@);
        if let Some(q) = quote {
            if c == q {
                quote = None;
                fresh = true;
                i += 1;
                continue ;
            }
            if q == '\'' {
                out.push(c);
                proof {
                    lemma_finish_solid(o, p, seq![c], rest);
                    assert(o + p + seq![c] =~= o.push(c));
                    assert(p =~= Seq::empty());
                }
                i += 1;
                continue ;
            }
        }
        if c == '\'' || c == '"' {
            flush(&mut out, &mut pending);
            if quote.is_none() && fresh {
                quote = Some(c);
                opened = i;
                proof {
                    let inside = pieces(raw@, i + 1, Some((c, i as int)), fresh, env@);
                    lemma_finish_solid(o, p, Seq::empty(), inside);
                    assert(o + p + Seq::<char>::empty() =~= out@);
                }
            } else {
                out.push(c);
                fresh = false;
                proof {
                    lemma_finish_solid(o, p, seq![c], pieces(raw@, i + 1, open, false, env@));
                    assert(o + p + seq![c] =~= out@);
                }
            }
            i += 1;
        } else if c == '\\' {
            if i + 1 >= chars.len() {
                return Err(ValueError::Other("trailing backslash".to_owned()));
            }
            let next: char = chars[i + 1];
            let meant: char = if quote.is_some() && next == 'n' {
                '\n'
            } else if quote.is_some() && next == 't' {
                '\t'
            } else if quote.is_some() && next == 'r' {
                '\r'
            } else {
                next
            };
            flush(&mut out, &mut pending);
            out.push(meant);
            fresh = false;
            proof {
                lemma_finish_solid(o, p, seq![meant], pieces(raw@, i + 2, open, false, env@));
                assert(o + p + seq![meant] =~= out@);
            }
            i += 2;
        } else if c == '$' {
            match expand(&chars, i, env) {
                Ok((value, next)) => {
                    flush(&mut out, &mut pending);
                    // An expansion that produced nothing leaves a boundary in
                    // place, so `KEY=$EMPTY'x'` still reads as quoted.
                    fresh = fresh && value.as_str().is_empty();
                    out.append(value.as_str());
                    proof {
                        lemma_finish_solid(
                            o,
                            p,
                            value@,
                            pieces(raw@, next as int, open, fresh, env@),
                        );
                    }
                    i = next;
                },
                Err(m) => {
                    return Err(ValueError::Other(m));
                },
            }
        } else if quote.is_none() && c == '#' && starts_comment(&chars, i) {
            proof {
                assert(o + spell(Seq::empty(), p) =~= o);
            }
            return Ok(out);
        } else if quote.is_none() && is_white(c) {
            pending.push(c);
            fresh = false;
            proof {
                lemma_finish_blank(o, p, c, pieces(raw@, i + 1, open, false, env@));
            }
            i += 1;
        } else {
            flush(&mut out, &mut pending);
            out.push(c);
            fresh = false;
            proof {
                lemma_finish_solid(o, p, seq![c], pieces(raw@, i + 1, open, false, env@));
                assert(o + p + seq![c] =~= out@);
            }
            i += 1;
        }
    }
    proof {
        lemma_feeds_grow(raw@, opened as int, raw@.len() as int);
    }
    match quote {
        Some(q) => Err(ValueError::Unterminated { quote: q, feeds: count_feeds(&chars, opened) }),
        None => {
            assert(out@ + spell(Seq::empty(), pending@) =~= out@);
            Ok(out)
        },
    }
}

impl ValueError {
    /// What went wrong, in words.
    pub fn message(&self) -> (r: String)
        ensures
            r@ == value_fault_text(self@),
    {
        match self {
            ValueError::Unterminated { quote, feeds: _ } => {
                let mut s: String = "unterminated ".to_owned();
                s.push(*quote);
                s.append(" quote");
                s
            },
            ValueError::Other(m) => copy_of(m),
        }
    }
}

pub open spec fn value_fault_text(e: ValueFault) -> Text {
    match e {
        ValueFault::Unterminated { quote, feeds: _ } => "unterminated "@.push(quote) + " quote"@,
        ValueFault::Other(m) => m,
    }
}

// ---------------------------------------------------------------------------
// Files
// ---------------------------------------------------------------------------

/// A variable and the value a file gives it.
pub struct Assignment {
    pub key: String,
    pub value: String,
}

/// What an `Assignment` holds.
pub struct Setting {
    pub key: Text,
    pub value: Text,
}

impl View for Assignment {
    type V = Setting;

    open spec fn view(&self) -> Setting {
        Setting { key: self.key@, value: self.value@ }
    }
}

/// What is wrong with a line.
pub enum EnvReason {
    /// It is not of the form `KEY=value`.
    NotAssignment,
    /// What stands in front of the `=` is not a variable name.
    BadName(String),
    /// What stands behind the `=` cannot be read.
    BadValue { key: String, error: ValueError },
}

/// Why a file could not be read, and at which line, counted from one. For a
/// value that spans lines that is the line it begins on; for a quote that was
/// never closed, the line on which it was opened.
pub struct EnvError {
    pub line: usize,
    pub reason: EnvReason,
}

/// What an `EnvReason` says.
pub enum EnvComplaint {
    NotAssignment,
    BadName(Text),
    BadValue { key: Text, error: ValueFault },
}

/// What an `EnvError` says.
pub struct EnvFault {
    pub line: nat,
    pub reason: EnvComplaint,
}

impl View for EnvReason {
    type V = EnvComplaint;

    open spec fn view(&self) -> EnvComplaint {
        match self {
            EnvReason::NotAssignment => EnvComplaint::NotAssignment,
            EnvReason::BadName(name) => EnvComplaint::BadName(name@),
            EnvReason::BadValue { key, error } => EnvComplaint::BadValue {
                key: key@,
                error: error@,
            },
        }
    }
}

impl View for EnvError {
    type V = EnvFault;

    open spec fn view(&self) -> EnvFault {
        EnvFault { line: self.line as nat, reason: self.reason@ }
    }
}

/// The complaint in words.
pub open spec fn complaint_text(c: EnvComplaint) -> Text {
    match c {
        EnvComplaint::NotAssignment => "expected `KEY=value`"@,
        EnvComplaint::BadName(name) => debug_text(name) + " is not a valid variable name"@,
        EnvComplaint::BadValue { key, error } => "in the value of "@ + key + ": "@
            + value_fault_text(error),
    }
}

/// A message with the place it is about in front.
pub open spec fn located(origin: Text, line: nat, message: Text) -> Text {
    origin + ":"@ + decimal(line) + ": "@ + message
}

pub fn locate(origin: &str, line: usize, message: &str) -> (r: String)
    ensures
        r@ == located(origin@, line as nat, message@),
{
    let mut s: String = cat4(origin, ":", decimal_of(line).as_str(), ": ");
    s.append(message);
    s
}

impl EnvError {
    /// The error in words; `origin` says which file it is about.
    pub fn message(&self, origin: &str) -> (r: String)
        ensures
            r@ == located(origin@, self@.line, complaint_text(self@.reason)),
    {
        let text: String = match &self.reason {
            EnvReason::NotAssignment => "expected `KEY=value`".to_owned(),
            EnvReason::BadName(name) => cat2(
                debug_of(name.as_str()).as_str(),
                " is not a valid variable name",
            ),
            EnvReason::BadValue { key, error } => cat4(
                "in the value of ",
                key.as_str(),
                ": ",
                error.message().as_str(),
            ),
        };
        locate(origin, self.line, text.as_str())
    }
}

/// A line without a leading `export` keyword, which counts only where white
/// space follows it.
pub open spec fn unexported(line: Text) -> Text {
    if begins(line, "export"@) && line.len() > 6 && (line[6] == ' ' || line[6] == '\t') {
        trim_start(line.skip(6))
    } else {
        line
    }
}

/// Drop a leading `export` keyword (only when followed by whitespace).
fn drop_export(line: &[char]) -> (r: &[char])
    ensures
        r@ == unexported(line@),
{
    if begins_with(line, &chars_of("export")) && line.len() > 6 && (line[6] == ' ' || line[6]
        == '\t') {
        let rest = slice_subrange(line, 6, line.len());
        assert(rest@ =~= line@.skip(6));
        trimmed_start(rest)
    } else {
        line
    }
}

/// Drop a leading `export` keyword (only when followed by whitespace).
pub fn strip_export(line: &str) -> (r: String)
    ensures
        r@ == unexported(line@),
{
    text_of(drop_export(&chars_of(line)))
}

/// The value that begins with `raw` and goes on, while a quoted section stays
/// open, with the lines from `next` on; and the line after it.
pub open spec fn value_from(raw: Text, ls: Seq<Text>, next: int, env: Vars) -> Result<
    (Text, int),
    ValueFault,
>
    decreases ls.len() - next,
{
    match value_of(raw, env) {
        Ok(v) => Ok((v, next)),
        Err(e) => if e is Unterminated && 0 <= next < ls.len() {
            value_from(raw.push('\n') + ls[next], ls, next + 1, env)
        } else {
            Err(e)
        },
    }
}

pub open spec fn first_setting(
    setting: Setting,
    rest: Result<Seq<Setting>, EnvFault>,
) -> Result<Seq<Setting>, EnvFault> {
    match rest {
        Ok(s) => Ok(seq![setting] + s),
        Err(e) => Err(e),
    }
}

/// The line that a fault in a value which begins on line `number` is about.
pub open spec fn fault_line(number: nat, error: ValueFault) -> nat {
    match error {
        ValueFault::Unterminated { quote: _, feeds } => number + feeds,
        ValueFault::Other(_) => number,
    }
}

/// What the lines from `idx` on assign. Blank lines and comments are skipped,
/// and each assignment is visible to the lines after it. White space at the end
/// of a line may stand inside quotes, so it is left to the value.
pub open spec fn settings_from(ls: Seq<Text>, idx: int, env: Vars) -> Result<Seq<Setting>, EnvFault>
    decreases ls.len() - idx,
{
    if idx < 0 || idx >= ls.len() {
        Ok(Seq::empty())
    } else {
        let line = trim(ls[idx]);
        let number: nat = (idx + 1) as nat;
        if line.len() == 0 || line[0] == '#' {
            settings_from(ls, idx + 1, env)
        } else {
            let body = unexported(trim_start(ls[idx]));
            let eq: int = find(body, '=', 0);
            if eq >= body.len() {
                Err(EnvFault { line: number, reason: EnvComplaint::NotAssignment })
            } else {
                let key = trim(body.take(eq));
                if !identifier(key) {
                    Err(EnvFault { line: number, reason: EnvComplaint::BadName(key) })
                } else {
                    proof {
                        lemma_value_from(trim_start(body.skip(eq + 1)), ls, idx + 1, env);
                    }
                    match value_from(trim_start(body.skip(eq + 1)), ls, idx + 1, env) {
                        Ok((value, next)) => first_setting(
                            Setting { key, value },
                            settings_from(ls, next, env.insert(key, value)),
                        ),
                        Err(error) => Err(
                            EnvFault {
                                line: fault_line(number, error),
                                reason: EnvComplaint::BadValue { key, error },
                            },
                        ),
                    }
                }
            }
        }
    }
}

/// A value takes up whole lines.
pub proof fn lemma_value_from(raw: Text, ls: Seq<Text>, next: int, env: Vars)
    requires
        0 <= next <= ls.len(),
    ensures
        value_from(raw, ls, next, env) matches Ok((_, after)) ==> next <= after <= ls.len(),
    decreases ls.len() - next,
{
    if let Err(ValueFault::Unterminated { quote: _, feeds: _ }) = value_of(raw, env) {
        if next < ls.len() {
            lemma_value_from(raw.push('\n') + ls[next], ls, next + 1, env);
        }
    }
}

/// What a file assigns, given the environment it is read in.
pub open spec fn settings(content: Text, env: Vars) -> Result<Seq<Setting>, EnvFault> {
    settings_from(lines(content), 0, env)
}

/// The views of assignments or of the reason why there are none.
pub open spec fn settings_view(r: Result<Vec<Assignment>, EnvError>) -> Result<
    Seq<Setting>,
    EnvFault,
> {
    match r {
        Ok(v) => Ok(views(v@)),
        Err(e) => Err(e@),
    }
}

/// Settings read so far, in front of the rest.
pub open spec fn so_far(
    done: Seq<Setting>,
    rest: Result<Seq<Setting>, EnvFault>,
) -> Result<Seq<Setting>, EnvFault> {
    match rest {
        Ok(s) => Ok(done + s),
        Err(e) => Err(e),
    }
}

proof fn lemma_so_far(
    done: Seq<Setting>,
    setting: Setting,
    rest: Result<Seq<Setting>, EnvFault>,
)
    ensures
        so_far(done, first_setting(setting, rest)) == so_far(done.push(setting), rest),
{
    if let Ok(s) = rest {
        assert(done + (seq![setting] + s) =~= done.push(setting) + s);
    }
}

/// Reads a value that may go on over the lines from `next`.
fn read_value(raw: String, ls: &Vec<Vec<char>>, next: usize, env: &Env) -> (r: Result<
    (String, usize),
    ValueError,
>)
    requires
        next <= ls@.len(),
        feeds(raw@, raw@.len() as int) == 0,
        forall|j: int| 0 <= j < ls@.len() ==> !(#[trigger] views(ls@)[j]).contains('\n'),
    ensures
        match r {
            Ok((v, n)) => value_from(raw@, views(ls@), next as int, env@) == Ok::<
                (Text, int),
                ValueFault,
            >((v@, n as int)),
            Err(e) => value_from(raw@, views(ls@), next as int, env@) == Err::<
                (Text, int),
                ValueFault,
            >(e@),
        },
        r matches Ok((_, n)) ==> next <= n <= ls@.len(),
        r matches Err(ValueError::Unterminated { quote: _, feeds: n }) ==> n <= ls@.len() - next,
{
    let mut text: String = raw;
    let mut idx: usize = next;
    loop
        invariant
            next <= idx <= ls@.len(),
            feeds(text@, text@.len() as int) == idx - next,
            forall|j: int| 0 <= j < ls@.len() ==> !(#[trigger] views(ls@)[j]).contains('\n'),
            value_from(raw@, views(ls@), next as int, env@) == value_from(
                text@,
                views(ls@),
                idx as int,
                env@,
            ),
        decreases ls@.len() - idx,
    {
        match parse_value(text.as_str(), env) {
            Ok(v) => {
                return Ok((v, idx));
            },
            Err(e) => {
                if idx >= ls.len() {
                    return Err(e);
                }
                match &e {
                    ValueError::Unterminated { quote: _, feeds: _ } => {
                        let line: String = text_of(&ls[idx]);
                        proof {
                            assert(line@ == views(ls@)[idx as int]);
                            lemma_feeds_same(text@, text@.push('\n'), text@.len() as int);
                            lemma_feeds_join(text@.push('\n'), line@, line@.len() as int);
                            lemma_feeds_none(line@, line@.len() as int);
                        }
                        text.push('\n');
                        text.append(line.as_str());
                    },
                    ValueError::Other(_) => {
                        return Err(e);
                    },
                }
                idx += 1;
            },
        }
    }
}

/// The text behind the `=` is part of the line.
pub proof fn lemma_part_of_line(line: Text, raw: Text)
    requires
        ({
            let body = unexported(trim_start(line));
            let eq: int = find(body, '=', 0);
            eq < body.len() && raw == trim_start(body.skip(eq + 1))
        }),
    ensures
        forall|j: int| 0 <= j < raw.len() ==> line.contains(#[trigger] raw[j]),
{
    let start = trim_start(line);
    let body = unexported(start);
    let eq: int = find(body, '=', 0);
    lemma_first_solid(line, 0);
    reveal_strlit("export");
    if start.len() > 6 {
        lemma_first_solid(start.skip(6), 0);
    }
    lemma_find(body, '=', 0);
    lemma_first_solid(body.skip(eq + 1), 0);
    assert forall|j: int| 0 <= j < start.len() implies line.contains(#[trigger] start[j]) by {
        assert(start[j] == line[first_solid(line, 0) + j]);
    }
    assert forall|j: int| 0 <= j < body.len() implies line.contains(#[trigger] body[j]) by {
        if body == start {
            assert(line.contains(start[j]));
        } else {
            let at: int = 6 + first_solid(start.skip(6), 0) + j;
            assert(body[j] == start[at]);
            assert(line.contains(start[at]));
        }
    }
    assert forall|j: int| 0 <= j < raw.len() implies line.contains(#[trigger] raw[j]) by {
        let at: int = eq + 1 + first_solid(body.skip(eq + 1), 0) + j;
        assert(raw[j] == body[at]);
        assert(line.contains(body[at]));
    }
}

/// Parse `.env` content.
///
/// Expansion resolves against `vars` plus any key assigned earlier in the same
/// file, which is what people expect from a `.env`:
///
/// ```text
/// ROOT=/opt/app
/// BIN=$ROOT/bin     # -> /opt/app/bin
/// ```
pub fn parse_env(content: &str, vars: &Env) -> (r: Result<Vec<Assignment>, EnvError>)
    ensures
        settings_view(r) == settings(content@, vars@),
{
    let ls: Vec<Vec<char>> = split_lines(&chars_of(content));
    let mut env: Env = vars.copy();
    let mut out: Vec<Assignment> = Vec::new();
    let mut idx: usize = 0;
    proof {
        lemma_no_feeds(content@, 0);
        if let Ok(s) = settings(content@, vars@) {
            assert(views(out@) + s =~= s);
        }
    }
    while idx < ls.len()
        invariant
            idx <= ls@.len(),
            views(ls@) == lines(content@),
            forall|j: int| 0 <= j < ls@.len() ==> !(#[trigger] views(ls@)[j]).contains('\n'),
            so_far(views(out@), settings_from(lines(content@), idx as int, env@)) == settings(
                content@,
                vars@,
            ),
        decreases ls@.len() - idx,
    {
        let number: usize = idx + 1;
        let line: &[char] = trimmed(&ls[idx]);
        assert(ls@[idx as int]@ == lines(content@)[idx as int]);
        if line.len() == 0 || line[0] == '#' {
            idx += 1;
            continue ;
        }
        let body: &[char] = drop_export(trimmed_start(&ls[idx]));
        let eq: usize = find_char(body, '=', 0);
        if eq >= body.len() {
            return Err(EnvError { line: number, reason: EnvReason::NotAssignment });
        }
        let left: &[char] = slice_subrange(body, 0, eq);
        assert(left@ =~= body@.take(eq as int));
        let key: &[char] = trimmed(left);
        if !is_name(key) {
            return Err(EnvError { line: number, reason: EnvReason::BadName(text_of(key)) });
        }
        let right: &[char] = slice_subrange(body, eq + 1, body.len());
        assert(right@ =~= body@.skip(eq + 1));
        let raw: String = text_of(trimmed_start(right));
        proof {
            assert(views(ls@)[idx as int] == ls@[idx as int]@);
            lemma_part_of_line(ls@[idx as int]@, raw@);
            assert forall|j: int| 0 <= j < raw@.len() implies raw@[j] != '\n' by {
                assert(ls@[idx as int]@.contains(raw@[j]));
            }
            lemma_feeds_none(raw@, raw@.len() as int);
        }
        match read_value(raw, &ls, number, &env) {
            Ok((value, next)) => {
                proof {
                    lemma_so_far(
                        views(out@),
                        Setting { key: key@, value: value@ },
                        settings_from(lines(content@), next as int, env@.insert(key@, value@)),
                    );
                }
                env.insert(text_of(key), copy_of(&value));
                push_item(&mut out, Assignment { key: text_of(key), value });
                idx = next;
            },
            Err(error) => {
                let line: usize = match &error {
                    ValueError::Unterminated { quote: _, feeds } => number + *feeds,
                    ValueError::Other(_) => number,
                };
                return Err(
                    EnvError {
                        line,
                        reason: EnvReason::BadValue { key: text_of(key), error },
                    },
                );
            },
        }
    }
    assert(views(out@) + Seq::<Setting>::empty() =~= views(out@));
    Ok(out)
}

} // verus!
