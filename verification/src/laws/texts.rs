//! Numbers, lines, white space and replacement.

use vstd::prelude::*;

use crate::dotenv::held;
use crate::env::{lookup, vars_map, Var, Vars};
use crate::laws::file_grammar::{all_white, lemma_led};
use crate::text::{
    all_digits, chomp, decimal, digit, digit_char, digits_value, lemma_find_is, lemma_last_solid,
    lemma_lines_join, lemma_one_line, lines, lowercase, number, replace, replace_from, trim,
    trim_end, white, Text,
};

verus! {

// ---------------------------------------------------------------------------
// Numbers
// ---------------------------------------------------------------------------

/// A number is written with the digits that stand for it, and without a zero in
/// front unless it is one.
pub proof fn a_number_is_written_in_digits(n: nat)
    ensures
        decimal(n).len() > 0,
        all_digits(decimal(n)),
        digits_value(decimal(n)) == n,
        n > 0 ==> decimal(n)[0] != '0',
        decimal(0) == seq!['0'],
    decreases n,
{
    assert(decimal(0) =~= seq!['0']);
    if n < 10 {
        let s = decimal(n);
        assert(s.drop_last() =~= Seq::<char>::empty());
        assert(digits_value(s.drop_last()) == 0);
        assert(s.last() == digit_char(n));
        assert(s.last() as u32 == 48 + n);
    } else {
        a_number_is_written_in_digits(n / 10);
        let s = decimal(n);
        let head = decimal(n / 10);
        assert(s.drop_last() =~= head);
        assert(s.last() == digit_char(n % 10));
        assert(s.last() as u32 == 48 + n % 10);
        assert forall|i: int| 0 <= i < s.len() implies digit(#[trigger] s[i]) by {
            if i < head.len() {
                assert(digit(head[i]));
            }
        }
        assert(s[0] == head[0]);
    }
}

/// A number that is written is read as it was, with or without a `+`; one that is
/// too large is not read.
pub proof fn a_number_is_read_as_written(n: nat)
    ensures
        n <= u32::MAX ==> number(decimal(n)) == Some(n as u32),
        n <= u32::MAX ==> number(seq!['+'] + decimal(n)) == Some(n as u32),
        n > u32::MAX ==> number(decimal(n)) is None,
{
    a_number_is_written_in_digits(n);
    let s = decimal(n);
    assert(digit(s[0]));
    let t = seq!['+'] + s;
    assert(t.skip(1) =~= s);
}

/// What is read as a number is one: anything but digits behind an optional `+` is
/// not.
pub proof fn only_digits_are_a_number(s: Text, i: int)
    requires
        0 <= i < s.len(),
        !('0' <= s[i] <= '9'),
        i > 0 || s[i] != '+' || s.len() == 1,
    ensures
        number(s) is None,
{
    if s[0] == '+' {
        let d = s.skip(1);
        if i > 0 {
            assert(d[i - 1] == s[i]);
            assert(!digit(d[i - 1]));
        }
    } else {
        assert(!digit(s[i]));
    }
}

/// A zero in front does not matter.
pub proof fn a_leading_zero_does_not_matter(s: Text)
    requires
        s.len() > 0,
        s[0] != '+',
    ensures
        number(seq!['0'] + s) == number(s),
{
    let t = seq!['0'] + s;
    lemma_zero(s);
    assert(digit('0'));
    assert(all_digits(t) == all_digits(s)) by {
        if all_digits(s) {
            assert forall|i: int| 0 <= i < t.len() implies digit(#[trigger] t[i]) by {
                if i > 0 {
                    assert(digit(s[i - 1]));
                }
            }
        }
        if all_digits(t) {
            assert forall|i: int| 0 <= i < s.len() implies digit(#[trigger] s[i]) by {
                assert(digit(t[i + 1]));
            }
        }
    }
}

proof fn lemma_zero(s: Text)
    ensures
        digits_value(seq!['0'] + s) == digits_value(s),
    decreases s.len(),
{
    let t = seq!['0'] + s;
    if s.len() == 0 {
        assert(t.drop_last() =~= Seq::<char>::empty());
        assert(digits_value(t.drop_last()) == 0);
    } else {
        lemma_zero(s.drop_last());
        assert(t.drop_last() =~= seq!['0'] + s.drop_last());
    }
}

// ---------------------------------------------------------------------------
// White space
// ---------------------------------------------------------------------------

/// Trimming takes away the white space around something, and nothing else.
pub proof fn trimming_takes_the_white_space_around(before: Text, t: Text, after: Text)
    requires
        all_white(before),
        all_white(after),
        t.len() > 0 ==> !white(t[0]) && !white(t.last()),
    ensures
        trim(before + t + after) == t,
        t.len() > 0 ==> trim_end(before + t + after) == before + t,
{
    let s = before + t + after;
    lemma_last_solid(s, s.len() as int);
    let end: int = crate::text::last_solid(s, s.len() as int);
    let n: int = (before.len() + t.len()) as int;
    if end > n {
        assert(s[end - 1] == after[end - 1 - n]);
        assert(white(after[end - 1 - n]));
    }
    if t.len() > 0 {
        assert(s[n - 1] == t.last());
        if end < n {
            assert(white(s[n - 1]));
        }
        assert(s.take(end) =~= before + t);
        lemma_led(before, t);
    } else {
        if end > 0 {
            assert(s[end - 1] == before[end - 1]);
            assert(white(before[end - 1]));
        }
        assert(s.take(0) =~= Seq::<char>::empty());
        assert(trim(s) =~= t);
    }
}

// ---------------------------------------------------------------------------
// Lines
// ---------------------------------------------------------------------------

/// A text falls into lines at its line feeds: what stands in front of the first is
/// the first line, less a carriage return at its end, and the rest are the lines
/// of what stands behind it. Without a line feed it is one line as it is.
pub proof fn a_text_falls_into_lines(first: Text, rest: Text)
    requires
        !first.contains('\n'),
    ensures
        lines(first + seq!['\n'] + rest) == seq![chomp(first)] + lines(rest),
        first.len() > 0 ==> lines(first) == seq![first],
        lines(Seq::empty()) == Seq::<Text>::empty(),
        first.len() > 0 && first.last() == '\r' ==> chomp(first) == first.drop_last(),
        first.len() == 0 || first.last() != '\r' ==> chomp(first) == first,
{
    let a = first + seq!['\n'];
    lemma_lines_join(a, rest);
    lemma_one_line(first);
    assert forall|j: int| 0 <= j < first.len() implies first[j] != '\n' by {
        assert(first.contains(first[j]));
    }
    lemma_find_is(first, '\n', 0, first.len() as int);
    assert(first.skip(0) =~= first);
}

// ---------------------------------------------------------------------------
// Characters
// ---------------------------------------------------------------------------

/// Replacing goes character by character, and one that is not meant stays.
pub proof fn replacing_goes_character_by_character(a: Text, b: Text, c: char, with: Text)
    ensures
        replace(a + b, c, with) == replace(a, c, with) + replace(b, c, with),
        replace(seq![c], c, with) == with,
        forall|d: char| d != c ==> #[trigger] replace(seq![d], c, with) == seq![d],
        replace(Seq::empty(), c, with) == Text::empty(),
{
    lemma_replace_join(a, b, 0, c, with);
    lemma_replace_shift(a, b, 0, c, with);
    assert(with + replace_from(seq![c], 1, c, with) =~= with);
    assert forall|d: char| d != c implies #[trigger] replace(seq![d], c, with) == seq![d] by {
        assert(seq![d] + replace_from(seq![d], 1, c, with) =~= seq![d]);
    }
}

proof fn lemma_replace_join(a: Text, b: Text, i: int, c: char, with: Text)
    requires
        0 <= i <= a.len(),
    ensures
        replace_from(a + b, i, c, with) == replace_from(a, i, c, with) + replace_from(
            a + b,
            a.len() as int,
            c,
            with,
        ),
    decreases a.len() - i,
{
    let end = replace_from(a + b, a.len() as int, c, with);
    if i < a.len() {
        lemma_replace_join(a, b, i + 1, c, with);
        assert((a + b)[i] == a[i]);
        let head = if a[i] == c {
            with
        } else {
            seq![a[i]]
        };
        assert(head + (replace_from(a, i + 1, c, with) + end) =~= head + replace_from(
            a,
            i + 1,
            c,
            with,
        ) + end);
    } else {
        assert(replace_from(a, i, c, with) + end =~= end);
    }
}

proof fn lemma_replace_shift(a: Text, b: Text, i: int, c: char, with: Text)
    requires
        0 <= i <= b.len(),
    ensures
        replace_from(a + b, a.len() + i, c, with) == replace_from(b, i, c, with),
    decreases b.len() - i,
{
    if i < b.len() {
        lemma_replace_shift(a, b, i + 1, c, with);
        assert((a + b)[a.len() + i] == b[i]);
    }
}

/// Making text small changes ASCII capitals to the letters they are capitals of,
/// and nothing else.
pub proof fn only_capitals_are_made_small(s: Text, i: int)
    requires
        0 <= i < s.len(),
    ensures
        lowercase(s).len() == s.len(),
        'A' <= s[i] <= 'Z' ==> lowercase(s)[i] as u32 == s[i] as u32 + 32,
        !('A' <= s[i] <= 'Z') ==> lowercase(s)[i] == s[i],
{
    let c = s[i];
    if 'A' <= c <= 'Z' {
        assert(65 <= c as u32 <= 90);
        assert((c as u8) as u32 == c as u32);
    }
}

// ---------------------------------------------------------------------------
// Variables
// ---------------------------------------------------------------------------

/// What is set is what is found, and what is unset is not; other variables do not
/// matter.
pub proof fn what_is_set_is_found(env: Vars, key: Text, value: Text, other: Text)
    ensures
        lookup(env.insert(key, value), key) == Some(value),
        lookup(env.remove(key), key) is None,
        lookup(Map::empty(), key) is None,
        key != other ==> lookup(env.insert(key, value), other) == lookup(env, other),
        key != other ==> lookup(env.remove(key), other) == lookup(env, other),
        held(env, key) == (match lookup(env, key) {
            Some(v) => v,
            None => Seq::empty(),
        }),
{
}

/// Where a variable is given more than once, the last value counts; one that is
/// not given is not set.
pub proof fn the_last_value_counts(vars: Seq<Var>, key: Text)
    ensures
        match lookup(vars_map(vars), key) {
            Some(v) => exists|i: int|
                0 <= i < vars.len() && (#[trigger] vars[i]).key@ == key && vars[i].value@ == v && (
                forall|j: int| i < j < vars.len() ==> (#[trigger] vars[j]).key@ != key),
            None => forall|i: int| 0 <= i < vars.len() ==> (#[trigger] vars[i]).key@ != key,
        },
    decreases vars.len(),
{
    if vars.len() > 0 {
        let shorter = vars.drop_last();
        let n: int = vars.len() - 1;
        the_last_value_counts(shorter, key);
        if vars[n].key@ == key {
            assert(lookup(vars_map(vars), key) == Some(vars[n].value@));
        } else {
            assert(lookup(vars_map(vars), key) == lookup(vars_map(shorter), key));
            match lookup(vars_map(shorter), key) {
                Some(v) => {
                    let i = choose|i: int|
                        0 <= i < shorter.len() && (#[trigger] shorter[i]).key@ == key
                            && shorter[i].value@ == v && (forall|j: int|
                            i < j < shorter.len() ==> (#[trigger] shorter[j]).key@ != key);
                    assert(vars[i].key@ == key);
                    assert forall|j: int| i < j < vars.len() implies (#[trigger] vars[j]).key@
                        != key by {
                        if j < n {
                            assert(shorter[j].key@ != key);
                        }
                    }
                },
                None => {
                    assert forall|i: int| 0 <= i < vars.len() implies (#[trigger] vars[i]).key@
                        != key by {
                        if i < n {
                            assert(shorter[i].key@ != key);
                        }
                    }
                },
            }
        }
    }
}

} // verus!
