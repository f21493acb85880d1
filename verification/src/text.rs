//! Characters, strings and lines.
//!
//! Strings are handled as sequences of Unicode scalar values: a `str` or a
//! `String` is viewed as a `Seq<char>`, and the functions here work on slices
//! of characters and say what they compute over those sequences.

use vstd::prelude::*;
use vstd::slice::{slice_subrange, slice_to_vec};

verus! {

/// What a string holds.
pub type Text = Seq<char>;

// ---------------------------------------------------------------------------
// Between strings and characters
// ---------------------------------------------------------------------------

/// `String::push`, which the standard library documents as appending the given
/// character to the end of the string.
pub assume_specification[ String::push ](s: &mut String, c: char)
    ensures
        final(s)@ == old(s)@.push(c),
;

/// The characters of `s`, in order.
pub fn chars_of(s: &str) -> (r: Vec<char>)
    ensures
        r@ == s@,
{
    let mut v: Vec<char> = Vec::new();
    for c in it: s.chars()
        invariant
            v@ == it.seq().take(it.index()),
            it.seq() == s@,
    {
        v.push(c);
    }
    v
}

/// The string made of the characters in `s`.
pub fn text_of(s: &[char]) -> (r: String)
    ensures
        r@ == s@,
{
    let mut t: String = String::new();
    let mut i: usize = 0;
    while i < s.len()
        invariant
            i <= s@.len(),
            t@ == s@.take(i as int),
        decreases s@.len() - i,
    {
        t.push(s[i]);
        i += 1;
    }
    assert(s@.take(s@.len() as int) =~= s@);
    t
}

// ---------------------------------------------------------------------------
// Sequences of things that have a view
// ---------------------------------------------------------------------------

/// The views of the elements of `s`.
pub open spec fn views<T: View>(s: Seq<T>) -> Seq<T::V> {
    s.map_values(|t: T| t@)
}

/// The view of what an option holds.
pub open spec fn opt_view<T: View>(o: Option<T>) -> Option<T::V> {
    match o {
        Some(t) => Some(t@),
        None => None,
    }
}

/// Appends `t`, and says so of the views.
pub fn push_item<T: View>(v: &mut Vec<T>, t: T)
    ensures
        final(v)@ == old(v)@.push(t),
        views(final(v)@) == views(old(v)@).push(t@),
{
    v.push(t);
    assert(views(v@) =~= views(old(v)@).push(t@));
}

/// A copy of `s`.
pub fn copy_of(s: &String) -> (r: String)
    ensures
        r@ == s@,
{
    s.as_str().to_owned()
}

/// A copy of an optional string.
pub fn copy_opt(o: &Option<String>) -> (r: Option<String>)
    ensures
        opt_view(r) == opt_view(*o),
{
    match o {
        Some(s) => Some(copy_of(s)),
        None => None,
    }
}

// ---------------------------------------------------------------------------
// Concatenation
// ---------------------------------------------------------------------------

pub fn cat2(a: &str, b: &str) -> (r: String)
    ensures
        r@ == a@ + b@,
{
    let mut s: String = a.to_owned();
    s.append(b);
    s
}

pub fn cat3(a: &str, b: &str, c: &str) -> (r: String)
    ensures
        r@ == a@ + b@ + c@,
{
    let mut s: String = cat2(a, b);
    s.append(c);
    s
}

pub fn cat4(a: &str, b: &str, c: &str, d: &str) -> (r: String)
    ensures
        r@ == a@ + b@ + c@ + d@,
{
    let mut s: String = cat3(a, b, c);
    s.append(d);
    s
}

pub fn cat5(a: &str, b: &str, c: &str, d: &str, e: &str) -> (r: String)
    ensures
        r@ == a@ + b@ + c@ + d@ + e@,
{
    let mut s: String = cat4(a, b, c, d);
    s.append(e);
    s
}

// ---------------------------------------------------------------------------
// Kinds of characters
// ---------------------------------------------------------------------------

/// Unicode's `White_Space` property.
pub open spec fn white(c: char) -> bool {
    ||| '\u{9}' <= c <= '\u{d}'
    ||| c == ' '
    ||| c == '\u{85}'
    ||| c == '\u{a0}'
    ||| c == '\u{1680}'
    ||| '\u{2000}' <= c <= '\u{200a}'
    ||| c == '\u{2028}'
    ||| c == '\u{2029}'
    ||| c == '\u{202f}'
    ||| c == '\u{205f}'
    ||| c == '\u{3000}'
}

pub fn is_white(c: char) -> (r: bool)
    ensures
        r == white(c),
{
    ('\u{9}' <= c && c <= '\u{d}') || c == ' ' || c == '\u{85}' || c == '\u{a0}' || c == '\u{1680}'
        || ('\u{2000}' <= c && c <= '\u{200a}') || c == '\u{2028}' || c == '\u{2029}' || c
        == '\u{202f}' || c == '\u{205f}' || c == '\u{3000}'
}

/// An ASCII letter.
pub open spec fn letter(c: char) -> bool {
    'a' <= c <= 'z' || 'A' <= c <= 'Z'
}

/// An ASCII digit.
pub open spec fn digit(c: char) -> bool {
    '0' <= c <= '9'
}

pub fn is_letter(c: char) -> (r: bool)
    ensures
        r == letter(c),
{
    ('a' <= c && c <= 'z') || ('A' <= c && c <= 'Z')
}

pub fn is_digit(c: char) -> (r: bool)
    ensures
        r == digit(c),
{
    '0' <= c && c <= '9'
}

/// `c` with an ASCII capital made small.
pub open spec fn lower(c: char) -> char {
    if 'A' <= c <= 'Z' {
        (c as u8 + 32) as u8 as char
    } else {
        c
    }
}

/// `s` with ASCII capitals made small.
pub open spec fn lowercase(s: Text) -> Text {
    s.map_values(|c: char| lower(c))
}

pub fn lowered(s: &[char]) -> (r: Vec<char>)
    ensures
        r@ == lowercase(s@),
{
    let mut out: Vec<char> = Vec::new();
    let mut i: usize = 0;
    while i < s.len()
        invariant
            i <= s@.len(),
            out@ == lowercase(s@).take(i as int),
        decreases s@.len() - i,
    {
        let c: char = s[i];
        if 'A' <= c && c <= 'Z' {
            out.push((c as u8 + 32) as char);
        } else {
            out.push(c);
        }
        i += 1;
        assert(out@ =~= lowercase(s@).take(i as int));
    }
    assert(out@ =~= lowercase(s@));
    out
}

// ---------------------------------------------------------------------------
// Comparing and searching
// ---------------------------------------------------------------------------

pub fn same(a: &[char], b: &[char]) -> (r: bool)
    ensures
        r == (a@ == b@),
{
    if a.len() != b.len() {
        return false;
    }
    let mut i: usize = 0;
    while i < a.len()
        invariant
            i <= a@.len(),
            a@.len() == b@.len(),
            forall|j: int| 0 <= j < i ==> a@[j] == b@[j],
        decreases a@.len() - i,
    {
        if a[i] != b[i] {
            return false;
        }
        i += 1;
    }
    assert(a@ =~= b@);
    true
}

/// Whether two strings hold the same text.
pub fn same_text(a: &str, b: &str) -> (r: bool)
    ensures
        r == (a@ == b@),
{
    same(&chars_of(a), &chars_of(b))
}

/// Whether `s` begins with `p`.
pub open spec fn begins(s: Seq<char>, p: Seq<char>) -> bool {
    p.len() <= s.len() && s.take(p.len() as int) == p
}

pub fn begins_with(s: &[char], p: &[char]) -> (r: bool)
    ensures
        r == begins(s@, p@),
{
    if p.len() > s.len() {
        return false;
    }
    same(slice_subrange(s, 0, p.len()), p)
}

/// Whether `p` occurs somewhere in `s`.
pub open spec fn occurs(s: Seq<char>, p: Seq<char>) -> bool {
    exists|i: int| 0 <= i <= s.len() && begins(#[trigger] s.skip(i), p)
}

pub fn has_part(s: &[char], p: &[char]) -> (r: bool)
    ensures
        r == occurs(s@, p@),
{
    let mut i: usize = 0;
    while i < s.len()
        invariant
            i <= s@.len(),
            forall|j: int| 0 <= j < i ==> !begins(#[trigger] s@.skip(j), p@),
        decreases s@.len() - i,
    {
        let rest = slice_subrange(s, i, s.len());
        assert(rest@ =~= s@.skip(i as int));
        if begins_with(rest, p) {
            return true;
        }
        i += 1;
    }
    let ghost end = s@.skip(s@.len() as int);
    assert(p@.len() == 0 ==> end.take(0) =~= p@);
    assert(begins(end, p@) <==> p@.len() == 0);
    p.len() == 0
}

/// The first position at or after `i` that holds `c`, or the end of `s`.
pub open spec fn find(s: Seq<char>, c: char, i: int) -> int
    decreases s.len() - i,
{
    if i < 0 || i >= s.len() {
        s.len() as int
    } else if s[i] == c {
        i
    } else {
        find(s, c, i + 1)
    }
}

pub proof fn lemma_find(s: Seq<char>, c: char, i: int)
    requires
        0 <= i <= s.len(),
    ensures
        i <= find(s, c, i) <= s.len(),
        forall|j: int| i <= j < find(s, c, i) ==> s[j] != c,
        find(s, c, i) < s.len() ==> s[find(s, c, i)] == c,
    decreases s.len() - i,
{
    if i < s.len() && s[i] != c {
        lemma_find(s, c, i + 1);
    }
}

/// `find` is the position that its properties describe.
pub proof fn lemma_find_is(s: Seq<char>, c: char, i: int, k: int)
    requires
        0 <= i <= k <= s.len(),
        forall|j: int| i <= j < k ==> s[j] != c,
        k < s.len() ==> s[k] == c,
    ensures
        find(s, c, i) == k,
    decreases k - i,
{
    if i < k {
        lemma_find_is(s, c, i + 1, k);
    }
}

pub fn find_char(s: &[char], c: char, start: usize) -> (r: usize)
    requires
        start <= s@.len(),
    ensures
        r == find(s@, c, start as int),
        start <= r <= s@.len(),
{
    let mut i: usize = start;
    while i < s.len()
        invariant
            start <= i <= s@.len(),
            find(s@, c, start as int) == find(s@, c, i as int),
        decreases s@.len() - i,
    {
        if s[i] == c {
            return i;
        }
        i += 1;
    }
    i
}

/// `s` from position `i` on with every `c` replaced.
pub open spec fn replace_from(s: Text, i: int, c: char, with: Text) -> Text
    decreases s.len() - i,
{
    if i < 0 || i >= s.len() {
        Seq::empty()
    } else if s[i] == c {
        with + replace_from(s, i + 1, c, with)
    } else {
        seq![s[i]] + replace_from(s, i + 1, c, with)
    }
}

/// `s` with every `c` replaced by `with`.
pub open spec fn replace(s: Text, c: char, with: Text) -> Text {
    replace_from(s, 0, c, with)
}

pub fn replaced(s: &str, c: char, with: &str) -> (r: String)
    ensures
        r@ == replace(s@, c, with@),
{
    let chars: Vec<char> = chars_of(s);
    let mut out: String = String::new();
    let mut i: usize = 0;
    assert(out@ + replace_from(s@, 0, c, with@) =~= replace(s@, c, with@));
    while i < chars.len()
        invariant
            i <= chars@.len(),
            chars@ == s@,
            out@ + replace_from(s@, i as int, c, with@) == replace(s@, c, with@),
        decreases chars@.len() - i,
    {
        let ghost o = out@;
        let ghost rest = replace_from(s@, i + 1, c, with@);
        if chars[i] == c {
            out.append(with);
            assert(o + (with@ + rest) =~= out@ + rest);
        } else {
            out.push(chars[i]);
            assert(o + (seq![s@[i as int]] + rest) =~= out@ + rest);
        }
        i += 1;
    }
    assert(out@ + Seq::<char>::empty() =~= out@);
    out
}

// ---------------------------------------------------------------------------
// Trimming
// ---------------------------------------------------------------------------

/// The first position at or after `i` that is not white space.
pub open spec fn first_solid(s: Seq<char>, i: int) -> int
    decreases s.len() - i,
{
    if i < 0 || i >= s.len() {
        s.len() as int
    } else if white(s[i]) {
        first_solid(s, i + 1)
    } else {
        i
    }
}

/// The end of what is left of the first `n` characters once the white space at
/// their end is gone.
pub open spec fn last_solid(s: Seq<char>, n: int) -> int
    decreases n,
{
    if n <= 0 {
        0
    } else if white(s[n - 1]) {
        last_solid(s, n - 1)
    } else {
        n
    }
}

pub open spec fn trim_start(s: Seq<char>) -> Seq<char> {
    s.skip(first_solid(s, 0))
}

pub open spec fn trim_end(s: Seq<char>) -> Seq<char> {
    s.take(last_solid(s, s.len() as int))
}

pub open spec fn trim(s: Seq<char>) -> Seq<char> {
    trim_start(trim_end(s))
}

pub proof fn lemma_first_solid(s: Seq<char>, i: int)
    requires
        0 <= i <= s.len(),
    ensures
        i <= first_solid(s, i) <= s.len(),
        first_solid(s, i) < s.len() ==> !white(s[first_solid(s, i)]),
        forall|j: int| i <= j < first_solid(s, i) ==> white(s[j]),
    decreases s.len() - i,
{
    if i < s.len() && white(s[i]) {
        lemma_first_solid(s, i + 1);
    }
}

pub proof fn lemma_last_solid(s: Seq<char>, n: int)
    requires
        0 <= n <= s.len(),
    ensures
        0 <= last_solid(s, n) <= n,
        last_solid(s, n) > 0 ==> !white(s[last_solid(s, n) - 1]),
        forall|j: int| last_solid(s, n) <= j < n ==> white(s[j]),
    decreases n,
{
    if n > 0 && white(s[n - 1]) {
        lemma_last_solid(s, n - 1);
    }
}

/// Text that does not begin or end in white space is left as it is.
pub proof fn lemma_trim_solid(s: Seq<char>)
    requires
        s.len() > 0 ==> !white(s[0]) && !white(s.last()),
    ensures
        trim_end(s) == s,
        trim_start(s) == s,
        trim(s) == s,
{
    assert(s.take(s.len() as int) =~= s);
    assert(s.skip(0) =~= s);
}

/// What is trimmed has no white space at either end, and holds nothing that was
/// not there before.
pub proof fn lemma_trim(s: Seq<char>)
    ensures
        trim(s).len() > 0 ==> !white(trim(s)[0]) && !white(trim(s).last()),
        forall|j: int| 0 <= j < trim(s).len() ==> s.contains(#[trigger] trim(s)[j]),
{
    let t = trim_end(s);
    lemma_last_solid(s, s.len() as int);
    lemma_first_solid(t, 0);
    assert forall|j: int| 0 <= j < trim(s).len() implies s.contains(#[trigger] trim(s)[j]) by {
        assert(trim(s)[j] == s[first_solid(t, 0) + j]);
    }
}

pub fn trimmed_start(s: &[char]) -> (r: &[char])
    ensures
        r@ == trim_start(s@),
{
    let mut i: usize = 0;
    while i < s.len() && is_white(s[i])
        invariant
            i <= s@.len(),
            first_solid(s@, 0) == first_solid(s@, i as int),
        decreases s@.len() - i,
    {
        i += 1;
    }
    let r = slice_subrange(s, i, s.len());
    assert(r@ =~= trim_start(s@));
    r
}

pub fn trimmed_end(s: &[char]) -> (r: &[char])
    ensures
        r@ == trim_end(s@),
{
    let mut n: usize = s.len();
    while n > 0 && is_white(s[n - 1])
        invariant
            n <= s@.len(),
            last_solid(s@, s@.len() as int) == last_solid(s@, n as int),
        decreases n,
    {
        n -= 1;
    }
    let r = slice_subrange(s, 0, n);
    assert(r@ =~= trim_end(s@));
    r
}

pub fn trimmed(s: &[char]) -> (r: &[char])
    ensures
        r@ == trim(s@),
{
    trimmed_start(trimmed_end(s))
}

// ---------------------------------------------------------------------------
// Lines
// ---------------------------------------------------------------------------

/// `line` without a carriage return at its end.
pub open spec fn chomp(line: Seq<char>) -> Seq<char> {
    if line.len() > 0 && line.last() == '\r' {
        line.drop_last()
    } else {
        line
    }
}

/// The lines of the text from position `i` on. A line ends at a line feed or at
/// a carriage return with a line feed, neither of which belongs to it; the end
/// of the last line is optional.
pub open spec fn lines_from(s: Seq<char>, i: int) -> Seq<Seq<char>>
    decreases s.len() - i,
    via lines_from_decreases
{
    if i < 0 || i >= s.len() {
        Seq::empty()
    } else {
        let end: int = find(s, '\n', i);
        if end >= s.len() {
            seq![s.skip(i)]
        } else {
            seq![chomp(s.subrange(i, end))] + lines_from(s, end + 1)
        }
    }
}

#[via_fn]
proof fn lines_from_decreases(s: Seq<char>, i: int) {
    if 0 <= i < s.len() {
        lemma_find(s, '\n', i);
    }
}

/// The lines of `s`.
pub open spec fn lines(s: Seq<char>) -> Seq<Seq<char>> {
    lines_from(s, 0)
}

pub fn split_lines(s: &[char]) -> (r: Vec<Vec<char>>)
    ensures
        views(r@) == lines(s@),
{
    let mut out: Vec<Vec<char>> = Vec::new();
    let mut i: usize = 0;
    assert(views(out@) + lines_from(s@, 0) =~= lines(s@));
    while i < s.len()
        invariant
            i <= s@.len(),
            views(out@) + lines_from(s@, i as int) == lines(s@),
        decreases s@.len() - i,
    {
        let ghost before = views(out@);
        let end: usize = find_char(s, '\n', i);
        if end >= s.len() {
            let line: Vec<char> = slice_to_vec(slice_subrange(s, i, s.len()));
            assert(line@ =~= s@.skip(i as int));
            push_item(&mut out, line);
            assert(views(out@) =~= before + seq![s@.skip(i as int)]);
            return out;
        }
        let mut stop: usize = end;
        if stop > i && s[stop - 1] == '\r' {
            stop -= 1;
        }
        let line: Vec<char> = slice_to_vec(slice_subrange(s, i, stop));
        assert(line@ =~= chomp(s@.subrange(i as int, end as int)));
        push_item(&mut out, line);
        assert(views(out@) + lines_from(s@, end + 1) =~= before + (seq![
            chomp(s@.subrange(i as int, end as int)),
        ] + lines_from(s@, end + 1)));
        i = end + 1;
    }
    assert(views(out@) + lines_from(s@, i as int) =~= views(out@));
    out
}

/// No line holds a line feed.
pub proof fn lemma_no_feeds(s: Text, i: int)
    requires
        0 <= i <= s.len(),
    ensures
        forall|j: int| 0 <= j < lines_from(s, i).len() ==> !(#[trigger] lines_from(s, i)[j]).contains(
            '\n',
        ),
    decreases s.len() - i,
{
    if i < s.len() {
        lemma_find(s, '\n', i);
        let end: int = find(s, '\n', i);
        if end < s.len() {
            lemma_no_feeds(s, end + 1);
            let first = chomp(s.subrange(i, end));
            let rest = lines_from(s, end + 1);
            assert forall|j: int| 0 <= j < lines_from(s, i).len() implies !(#[trigger] lines_from(
                s,
                i,
            )[j]).contains('\n') by {
                if j == 0 {
                    assert forall|m: int| 0 <= m < first.len() implies first[m] != '\n' by {
                        assert(first[m] == s[i + m]);
                    }
                } else {
                    assert(lines_from(s, i)[j] == rest[j - 1]);
                }
            }
        } else {
            let first = s.skip(i);
            assert forall|m: int| 0 <= m < first.len() implies first[m] != '\n' by {
                assert(first[m] == s[i + m]);
            }
        }
    }
}

/// `s` with its last line ended.
pub open spec fn ended(s: Text) -> Text {
    if whole_lines(s) {
        s
    } else {
        s.push('\n')
    }
}

/// The lines of the text from position `i` on, each with everything in front of
/// its line feed: a carriage return there belongs to the line.
pub open spec fn raw_lines_from(s: Text, i: int) -> Seq<Text>
    decreases s.len() - i,
    via raw_lines_from_decreases
{
    if i < 0 || i >= s.len() {
        Seq::empty()
    } else {
        let end: int = find(s, '\n', i);
        if end >= s.len() {
            seq![s.skip(i)]
        } else {
            seq![s.subrange(i, end)] + raw_lines_from(s, end + 1)
        }
    }
}

#[via_fn]
proof fn raw_lines_from_decreases(s: Text, i: int) {
    if 0 <= i < s.len() {
        lemma_find(s, '\n', i);
    }
}

/// The lines of `s`, carriage returns and all.
pub open spec fn raw_lines(s: Text) -> Seq<Text> {
    raw_lines_from(s, 0)
}

pub fn split_raw_lines(s: &[char]) -> (r: Vec<Vec<char>>)
    ensures
        views(r@) == raw_lines(s@),
{
    let mut out: Vec<Vec<char>> = Vec::new();
    let mut i: usize = 0;
    assert(views(out@) + raw_lines_from(s@, 0) =~= raw_lines(s@));
    while i < s.len()
        invariant
            i <= s@.len(),
            views(out@) + raw_lines_from(s@, i as int) == raw_lines(s@),
        decreases s@.len() - i,
    {
        let ghost before = views(out@);
        let end: usize = find_char(s, '\n', i);
        let line: Vec<char> = slice_to_vec(slice_subrange(s, i, end));
        assert(line@ =~= s@.subrange(i as int, end as int));
        push_item(&mut out, line);
        if end >= s.len() {
            assert(line@ =~= s@.skip(i as int));
            assert(views(out@) =~= before + seq![s@.skip(i as int)]);
            return out;
        }
        assert(views(out@) + raw_lines_from(s@, end + 1) =~= before + (seq![
            s@.subrange(i as int, end as int),
        ] + raw_lines_from(s@, end + 1)));
        i = end + 1;
    }
    assert(views(out@) + raw_lines_from(s@, i as int) =~= views(out@));
    out
}

/// The lines make up the text, with its last line ended, and none of them holds
/// a line feed.
pub proof fn lemma_raw_lines(s: Text, i: int)
    requires
        0 <= i <= s.len(),
    ensures
        i < s.len() ==> unlines(raw_lines_from(s, i)) == ended(s).skip(i),
        i == s.len() ==> raw_lines_from(s, i) == Seq::<Text>::empty(),
        forall|j: int|
            0 <= j < raw_lines_from(s, i).len() ==> !(#[trigger] raw_lines_from(
                s,
                i,
            )[j]).contains('\n'),
    decreases s.len() - i,
{
    if i < s.len() {
        lemma_find(s, '\n', i);
        let end: int = find(s, '\n', i);
        let first = s.subrange(i, end);
        let one = seq![first];
        let rest = if end < s.len() {
            raw_lines_from(s, end + 1)
        } else {
            Seq::empty()
        };
        assert(first =~= s.skip(i) || end < s.len());
        assert(raw_lines_from(s, i) =~= one + rest);
        assert(one.drop_last() =~= Seq::<Text>::empty());
        assert(unlines(Seq::<Text>::empty()) =~= Seq::<char>::empty());
        assert(unlines(one) =~= first + seq!['\n']);
        lemma_unlines_join(one, rest);
        assert forall|m: int| 0 <= m < first.len() implies first[m] != '\n' by {
            assert(first[m] == s[i + m]);
        }
        if end < s.len() {
            lemma_raw_lines(s, end + 1);
            if end + 1 == s.len() {
                assert(s.last() == '\n');
            }
        } else {
            assert(s.last() == s[s.len() - 1]);
            assert(!whole_lines(s));
        }
        if end + 1 < s.len() {
            assert(first + seq!['\n'] + ended(s).skip(end + 1) =~= ended(s).skip(i));
        } else {
            assert(rest =~= Seq::empty());
            assert(first + seq!['\n'] + unlines(rest) =~= ended(s).skip(i));
        }
        assert forall|j: int| 0 <= j < raw_lines_from(s, i).len() implies !(
        #[trigger] raw_lines_from(s, i)[j]).contains('\n') by {
            if j > 0 {
                assert(raw_lines_from(s, i)[j] == rest[j - 1]);
            }
        }
    }
}

/// Lines without line feeds come back as they were, whether or not the last one
/// is ended.
pub proof fn lemma_raw_unlines(ls: Seq<Text>, done: int)
    requires
        forall|j: int| 0 <= j < ls.len() ==> !(#[trigger] ls[j]).contains('\n'),
        0 <= done <= ls.len(),
    ensures
        raw_lines_from(unlines(ls), unlines(ls.take(done)).len() as int) == ls.skip(done),
        ls.len() > 0 && ls.last().len() > 0 ==> raw_lines_from(
            unlines(ls).drop_last(),
            unlines(ls.take(done)).len() as int,
        ) == ls.skip(done),
    decreases ls.len() - done,
{
    let s = unlines(ls);
    let i: int = unlines(ls.take(done)).len() as int;
    if done == ls.len() {
        assert(ls.take(done) =~= ls);
        assert(ls.skip(done) =~= Seq::empty());
    } else {
        lemma_raw_unlines(ls, done + 1);
        let line = ls[done];
        let upto = ls.take(done + 1);
        assert(upto.drop_last() =~= ls.take(done));
        assert(upto.last() == line);
        lemma_unlines_join(upto, ls.skip(done + 1));
        assert(upto + ls.skip(done + 1) =~= ls);
        let end: int = i + line.len();
        assert(s.subrange(i, end) =~= line);
        assert(s[end] == '\n');
        assert forall|j: int| i <= j < end implies s[j] != '\n' by {
            assert(s[j] == line[j - i]);
            assert(line.contains(line[j - i]));
        }
        lemma_find_is(s, '\n', i, end);
        assert(seq![line] + ls.skip(done + 1) =~= ls.skip(done));
        if ls.last().len() > 0 {
            let t = s.drop_last();
            if done + 1 == ls.len() {
                assert(upto =~= ls);
                assert(end == t.len());
                assert(t.skip(i) =~= line);
                assert(seq![line] =~= ls.skip(done));
            } else {
                lemma_longer(ls, done + 1);
            }
            lemma_find_is(t, '\n', i, end);
            assert(t.subrange(i, end) =~= line);
        }
    }
}

/// There is something behind the first lines.
proof fn lemma_longer(ls: Seq<Text>, done: int)
    requires
        0 <= done < ls.len(),
    ensures
        unlines(ls.take(done)).len() < unlines(ls).len(),
{
    lemma_unlines_join(ls.take(done), ls.skip(done));
    assert(ls.take(done) + ls.skip(done) =~= ls);
    assert(ls.skip(done).len() > 0);
}

/// How many of the first `n` characters are line feeds.
pub open spec fn feeds(s: Text, n: int) -> nat
    decreases n,
{
    if n <= 0 {
        0
    } else if s[n - 1] == '\n' {
        feeds(s, n - 1) + 1
    } else {
        feeds(s, n - 1)
    }
}

pub fn count_feeds(s: &[char], n: usize) -> (r: usize)
    requires
        n <= s@.len(),
    ensures
        r == feeds(s@, n as int),
        r <= n,
{
    let mut count: usize = 0;
    let mut i: usize = 0;
    while i < n
        invariant
            i <= n <= s@.len(),
            count == feeds(s@, i as int),
            count <= i,
        decreases n - i,
    {
        if s[i] == '\n' {
            count += 1;
        }
        i += 1;
    }
    count
}

pub proof fn lemma_feeds_grow(s: Text, n: int, m: int)
    requires
        0 <= n <= m <= s.len(),
    ensures
        feeds(s, n) <= feeds(s, m),
    decreases m - n,
{
    if n < m {
        lemma_feeds_grow(s, n, m - 1);
    }
}

/// The line feeds of two texts put together.
pub proof fn lemma_feeds_join(a: Text, b: Text, n: int)
    requires
        0 <= n <= b.len(),
    ensures
        feeds(a + b, a.len() + n) == feeds(a, a.len() as int) + feeds(b, n),
    decreases n,
{
    if n > 0 {
        lemma_feeds_join(a, b, n - 1);
        assert((a + b)[a.len() + n - 1] == b[n - 1]);
    } else {
        lemma_feeds_same(a, a + b, a.len() as int);
    }
}

pub proof fn lemma_feeds_same(a: Text, b: Text, n: int)
    requires
        0 <= n <= a.len(),
        n <= b.len(),
        forall|j: int| 0 <= j < n ==> a[j] == b[j],
    ensures
        feeds(a, n) == feeds(b, n),
    decreases n,
{
    if n > 0 {
        lemma_feeds_same(a, b, n - 1);
    }
}

pub proof fn lemma_feeds_none(s: Text, n: int)
    requires
        0 <= n <= s.len(),
        !s.contains('\n'),
    ensures
        feeds(s, n) == 0,
    decreases n,
{
    if n > 0 {
        lemma_feeds_none(s, n - 1);
        assert(s.contains(s[n - 1]));
    }
}

/// The text that `ls` are the lines of, each with its line feed.
pub open spec fn unlines(ls: Seq<Text>) -> Text
    decreases ls.len(),
{
    if ls.len() == 0 {
        Seq::empty()
    } else {
        unlines(ls.drop_last()) + ls.last() + seq!['\n']
    }
}

/// A line that nothing is lost of: it holds no line feed and does not end in a
/// carriage return.
pub open spec fn neat(line: Text) -> bool {
    &&& !line.contains('\n')
    &&& line.len() > 0 ==> line.last() != '\r'
}

/// Whether `s` ends where a line ends.
pub open spec fn whole_lines(s: Text) -> bool {
    s.len() > 0 ==> s.last() == '\n'
}

proof fn lemma_lines_shift(a: Text, b: Text, j: int)
    requires
        0 <= j <= b.len(),
    ensures
        lines_from(a + b, a.len() + j) == lines_from(b, j),
    decreases b.len() - j,
{
    let s = a + b;
    if j < b.len() {
        lemma_find(b, '\n', j);
        let end: int = find(b, '\n', j);
        lemma_find_is(s, '\n', a.len() + j, a.len() + end);
        if end < b.len() {
            lemma_lines_shift(a, b, end + 1);
            assert(s.subrange(a.len() + j, a.len() + end) =~= b.subrange(j, end));
        } else {
            assert(s.skip(a.len() + j) =~= b.skip(j));
        }
    }
}

proof fn lemma_lines_join_from(a: Text, b: Text, i: int)
    requires
        whole_lines(a),
        0 <= i <= a.len(),
    ensures
        lines_from(a + b, i) == lines_from(a, i) + lines(b),
    decreases a.len() - i,
{
    let s = a + b;
    if i < a.len() {
        lemma_find(a, '\n', i);
        let end: int = find(a, '\n', i);
        assert(end < a.len()) by {
            assert(a[a.len() - 1] == '\n');
        }
        lemma_find_is(s, '\n', i, end);
        lemma_lines_join_from(a, b, end + 1);
        assert(s.subrange(i, end) =~= a.subrange(i, end));
        let head = seq![chomp(a.subrange(i, end))];
        assert(head + (lines_from(a, end + 1) + lines(b)) =~= head + lines_from(a, end + 1) + lines(
            b,
        ));
    } else {
        lemma_lines_shift(a, b, 0);
        assert(lines_from(a, i) + lines(b) =~= lines(b));
    }
}

/// The lines of two texts put together, where the first ends in a whole line.
pub proof fn lemma_lines_join(a: Text, b: Text)
    requires
        whole_lines(a),
    ensures
        lines(a + b) == lines(a) + lines(b),
{
    lemma_lines_join_from(a, b, 0);
}

pub proof fn lemma_unlines_whole(ls: Seq<Text>)
    ensures
        whole_lines(unlines(ls)),
{
}

/// One line with its line feed.
pub proof fn lemma_one_line(line: Text)
    requires
        !line.contains('\n'),
    ensures
        lines(line + seq!['\n']) == seq![chomp(line)],
{
    let s = line + seq!['\n'];
    assert forall|j: int| 0 <= j < line.len() implies s[j] != '\n' by {
        assert(line.contains(line[j]));
    }
    lemma_find_is(s, '\n', 0, line.len() as int);
    assert(s.subrange(0, line.len() as int) =~= line);
    assert(lines_from(s, line.len() as int + 1) =~= Seq::empty());
    assert(seq![chomp(line)] + Seq::<Text>::empty() =~= seq![chomp(line)]);
}

/// Neat lines come back as they were.
pub proof fn lemma_lines_unlines(ls: Seq<Text>)
    requires
        forall|i: int| 0 <= i < ls.len() ==> neat(#[trigger] ls[i]),
    ensures
        lines(unlines(ls)) == ls,
    decreases ls.len(),
{
    if ls.len() == 0 {
        assert(ls =~= Seq::empty());
    } else {
        let shorter = ls.drop_last();
        assert forall|i: int| 0 <= i < shorter.len() implies neat(#[trigger] shorter[i]) by {
            assert(neat(ls[i]));
        }
        lemma_lines_unlines(shorter);
        let tail = ls.last() + seq!['\n'];
        assert(neat(ls[ls.len() - 1]));
        assert(unlines(ls) =~= unlines(shorter) + tail);
        lemma_lines_join(unlines(shorter), tail);
        lemma_one_line(ls.last());
        assert(shorter + seq![ls.last()] =~= ls);
    }
}

/// Lines without line feeds come back without one carriage return each.
pub proof fn lemma_lines_chomped(k: Seq<Text>)
    requires
        forall|i: int| 0 <= i < k.len() ==> !(#[trigger] k[i]).contains('\n'),
    ensures
        lines(unlines(k)).len() == k.len(),
        forall|i: int| 0 <= i < k.len() ==> #[trigger] lines(unlines(k))[i] == chomp(k[i]),
    decreases k.len(),
{
    if k.len() > 0 {
        let shorter = k.drop_last();
        assert forall|i: int| 0 <= i < shorter.len() implies !(#[trigger] shorter[i]).contains(
            '\n',
        ) by {
            assert(!k[i].contains('\n'));
        }
        lemma_lines_chomped(shorter);
        assert(!k[k.len() - 1].contains('\n'));
        let tail = k.last() + seq!['\n'];
        lemma_unlines_whole(shorter);
        assert(unlines(k) =~= unlines(shorter) + tail);
        lemma_lines_join(unlines(shorter), tail);
        lemma_one_line(k.last());
        assert forall|i: int| 0 <= i < k.len() implies #[trigger] lines(unlines(k))[i] == chomp(
            k[i],
        ) by {
            if i < shorter.len() {
                assert(lines(unlines(k))[i] == lines(unlines(shorter))[i]);
            }
        }
    }
}

/// The lines, each with a carriage return and a line feed.
pub open spec fn crlf_lines(ls: Seq<Text>) -> Text
    decreases ls.len(),
{
    if ls.len() == 0 {
        Seq::empty()
    } else {
        crlf_lines(ls.drop_last()) + ls.last() + "\r\n"@
    }
}

/// Lines that end in a carriage return and a line feed come back as they were.
pub proof fn lemma_lines_crlf(ls: Seq<Text>)
    requires
        forall|j: int| 0 <= j < ls.len() ==> !(#[trigger] ls[j]).contains('\n'),
    ensures
        lines(crlf_lines(ls)) == ls,
{
    let long = ls.map_values(|l: Text| l.push('\r'));
    lemma_crlf_is(ls);
    assert forall|j: int| 0 <= j < long.len() implies !(#[trigger] long[j]).contains('\n') by {
        let line = ls[j];
        assert forall|k: int| 0 <= k < long[j].len() implies long[j][k] != '\n' by {
            if k < line.len() {
                assert(line.contains(line[k]));
            }
        }
    }
    lemma_lines_chomped(long);
    assert forall|j: int| 0 <= j < ls.len() implies #[trigger] lines(unlines(long))[j] == ls[j] by {
        assert(chomp(long[j]) =~= ls[j]);
    }
    assert(lines(unlines(long)) =~= ls);
}

proof fn lemma_crlf_is(ls: Seq<Text>)
    ensures
        crlf_lines(ls) == unlines(ls.map_values(|l: Text| l.push('\r'))),
    decreases ls.len(),
{
    let long = ls.map_values(|l: Text| l.push('\r'));
    if ls.len() > 0 {
        reveal_strlit("\r\n");
        lemma_crlf_is(ls.drop_last());
        assert(long.drop_last() =~= ls.drop_last().map_values(|l: Text| l.push('\r')));
        assert(crlf_lines(ls) =~= unlines(long));
    }
}

/// The text of more lines.
pub proof fn lemma_unlines_join(a: Seq<Text>, b: Seq<Text>)
    ensures
        unlines(a + b) == unlines(a) + unlines(b),
    decreases b.len(),
{
    if b.len() == 0 {
        assert(a + b =~= a);
        assert(unlines(a) + unlines(b) =~= unlines(a));
    } else {
        lemma_unlines_join(a, b.drop_last());
        assert((a + b).drop_last() =~= a + b.drop_last());
        assert(unlines(a + b) =~= unlines(a) + unlines(b));
    }
}

/// The text that `ls` are the lines of, each with its line feed.
pub fn joined_lines(ls: &Vec<String>) -> (r: String)
    ensures
        r@ == unlines(views(ls@)),
{
    let mut s: String = String::new();
    let mut i: usize = 0;
    assert(views(ls@).take(0) =~= Seq::<Text>::empty());
    while i < ls.len()
        invariant
            i <= ls@.len(),
            s@ == unlines(views(ls@).take(i as int)),
        decreases ls@.len() - i,
    {
        let ghost part = views(ls@).take(i + 1);
        assert(part.drop_last() =~= views(ls@).take(i as int));
        s.append(ls[i].as_str());
        s.push('\n');
        assert(s@ =~= unlines(part));
        i += 1;
    }
    assert(views(ls@).take(i as int) =~= views(ls@));
    s
}

// ---------------------------------------------------------------------------
// Numbers and quoted text, written out
// ---------------------------------------------------------------------------

/// The digit for `d`, which is below ten.
pub open spec fn digit_char(d: nat) -> char {
    (48 + d) as u8 as char
}

/// `n` in decimal.
pub open spec fn decimal(n: nat) -> Text
    decreases n,
{
    if n < 10 {
        seq![digit_char(n)]
    } else {
        decimal(n / 10).push(digit_char(n % 10))
    }
}

pub fn decimal_of(n: usize) -> (r: String)
    ensures
        r@ == decimal(n as nat),
    decreases n,
{
    let last: char = (48u8 + (n % 10) as u8) as char;
    assert(last == digit_char((n % 10) as nat));
    let mut s: String = if n < 10 {
        String::new()
    } else {
        decimal_of(n / 10)
    };
    s.push(last);
    if n < 10 {
        assert(s@ =~= seq![last]);
    }
    s
}

/// The number that decimal digits stand for.
pub open spec fn digits_value(s: Text) -> nat
    decreases s.len(),
{
    if s.len() == 0 {
        0
    } else {
        10 * digits_value(s.drop_last()) + ((s.last() as u32 - 48) as nat)
    }
}

pub open spec fn all_digits(s: Text) -> bool {
    forall|i: int| 0 <= i < s.len() ==> digit(#[trigger] s[i])
}

/// The number that a text stands for: an optional `+` and one or more decimal
/// digits, of a value that 32 bits can hold.
pub open spec fn number(s: Text) -> Option<u32> {
    let digits = if s.len() > 0 && s[0] == '+' {
        s.skip(1)
    } else {
        s
    };
    if digits.len() > 0 && all_digits(digits) && digits_value(digits) <= u32::MAX {
        Some(digits_value(digits) as u32)
    } else {
        None
    }
}

proof fn lemma_digits_grow(s: Text, n: int)
    requires
        0 <= n <= s.len(),
        all_digits(s),
    ensures
        digits_value(s.take(n)) <= digits_value(s),
    decreases s.len() - n,
{
    if n < s.len() {
        lemma_digits_grow(s, n + 1);
        assert(s.take(n + 1).drop_last() =~= s.take(n));
        assert(digit(s[n]));
    } else {
        assert(s.take(n) =~= s);
    }
}

pub fn parse_number(s: &[char]) -> (r: Option<u32>)
    ensures
        r == number(s@),
{
    let mut start: usize = 0;
    if s.len() > 0 && s[0] == '+' {
        start = 1;
    }
    let digits: &[char] = slice_subrange(s, start, s.len());
    assert(start == 1 ==> digits@ =~= s@.skip(1));
    assert(start == 0 ==> digits@ =~= s@);
    if digits.len() == 0 {
        return None;
    }
    let mut value: u64 = 0;
    let mut i: usize = 0;
    while i < digits.len()
        invariant
            i <= digits@.len(),
            forall|j: int| 0 <= j < i ==> digit(#[trigger] digits@[j]),
            value == digits_value(digits@.take(i as int)),
            value <= u32::MAX,
            number(s@) == if digits@.len() > 0 && all_digits(digits@) && digits_value(digits@)
                <= u32::MAX {
                Some(digits_value(digits@) as u32)
            } else {
                None::<u32>
            },
        decreases digits@.len() - i,
    {
        let c: char = digits[i];
        if !is_digit(c) {
            return None;
        }
        assert(digits@.take(i + 1).drop_last() =~= digits@.take(i as int));
        value = value * 10 + (c as u32 as u64 - 48);
        i += 1;
        if value > 4294967295 {
            proof {
                if all_digits(digits@) {
                    lemma_digits_grow(digits@, i as int);
                }
            }
            return None;
        }
    }
    assert(digits@.take(i as int) =~= digits@);
    Some(value as u32)
}

/// How the standard library writes a string for programmers: in double quotes,
/// with escapes.
pub uninterp spec fn debug_text(s: Seq<char>) -> Seq<char>;

/// The `Debug` form of a string, as `format!("{:?}")` writes it. It depends on
/// the characters of the string alone; which of them are escaped, and how, is
/// left to the standard library.
#[verifier::external_body]
pub(crate) fn debug_of(s: &str) -> (r: String)
    ensures
        r@ == debug_text(s@),
{
    format!("{s:?}")
}

} // verus!
