//! The restore stack.
//!
//! A plain text file in the shape of a diff. Each variable the active profile
//! touched gets a '-' line (what the shell had before) and a '+' line (what the
//! profile installed). `deactivate` replays the '-' side.
//!
//! ```text
//! # envc restore stack
//! # format 1
//! # active-profile work
//! --- before envc
//! +++ after `work`
//! -EDITOR=nano
//! +EDITOR=vim
//! -TOKEN
//! +TOKEN=abc
//! ```
//!
//! A '-' or '+' line without `=value` means "not set", which is what makes
//! `unset` the correct rollback for variables a profile introduced.

use vstd::prelude::*;
use vstd::slice::slice_subrange;

use crate::dotenv::{locate, located, Assignment, Setting};
use crate::env::{lookup, Env, Vars};
use crate::shell::{apply_changes, change_lines, identifier, is_name, Change, Shell};
use crate::text::{
    begins, begins_with, cat2, cat3, cat4, cat5, chars_of, copy_of, debug_of, debug_text, decimal,
    decimal_of, find, find_char, joined_lines, lemma_find, lemma_last_solid, lines, number,
    opt_view, parse_number, push_item, same_text, split_lines, text_of, trim, trim_end, trimmed,
    trimmed_end, unlines, views, Text,
};

verus! {

pub const STACK_FORMAT_VERSION: u32 = 1;

/// What happened to one variable.
pub struct Entry {
    pub key: String,
    /// What the variable held before the override. `None` = it was not set.
    pub prev: Option<String>,
    /// What the profile installed.
    pub now: Option<String>,
}

/// What an `Entry` holds.
pub struct Override {
    pub key: Text,
    pub prev: Option<Text>,
    pub now: Option<Text>,
}

impl View for Entry {
    type V = Override;

    open spec fn view(&self) -> Override {
        Override { key: self.key@, prev: opt_view(self.prev), now: opt_view(self.now) }
    }
}

/// Records what `activate` overrode so `deactivate` can undo it.
///
/// The entries always describe the environment *before any envc profile was
/// applied* -- not merely the previously active profile. Activating a second
/// profile peels the first one off and re-reads the base values, so
/// A -> B -> deactivate lands back on the shell you started with, not on A.
pub struct Stack {
    pub profile: String,
    pub entries: Vec<Entry>,
}

/// What a `Stack` holds.
pub struct Record {
    pub profile: Text,
    pub entries: Seq<Override>,
}

impl View for Stack {
    type V = Record;

    open spec fn view(&self) -> Record {
        Record { profile: self.profile@, entries: views(self.entries@) }
    }
}

/// The entries of a record, if there is one.
pub open spec fn entries_of(record: Option<Record>) -> Seq<Override> {
    match record {
        Some(r) => r.entries,
        None => Seq::empty(),
    }
}

// ---------------------------------------------------------------------------
// Values on one line
// ---------------------------------------------------------------------------

/// One character of a value as it is written.
pub open spec fn escape_char(c: char) -> Text {
    if c == '\\' {
        seq!['\\', '\\']
    } else if c == '\n' {
        seq!['\\', 'n']
    } else if c == '\r' {
        seq!['\\', 'r']
    } else {
        seq![c]
    }
}

/// A value on one line.
pub open spec fn escape(s: Text) -> Text
    decreases s.len(),
{
    if s.len() == 0 {
        Seq::empty()
    } else {
        escape(s.drop_last()) + escape_char(s.last())
    }
}

/// The value that an escaped text stands for. An unknown escape is kept
/// verbatim rather than silently eaten.
pub open spec fn unescape(s: Text) -> Text
    decreases s.len(),
{
    if s.len() == 0 {
        Seq::empty()
    } else if s[0] != '\\' {
        seq![s[0]] + unescape(s.drop_first())
    } else if s.len() == 1 {
        seq!['\\']
    } else if s[1] == 'n' {
        seq!['\n'] + unescape(s.skip(2))
    } else if s[1] == 'r' {
        seq!['\r'] + unescape(s.skip(2))
    } else if s[1] == '\\' {
        seq!['\\'] + unescape(s.skip(2))
    } else {
        seq!['\\', s[1]] + unescape(s.skip(2))
    }
}

/// Keep one entry per line: values may legitimately contain newlines.
pub fn escape_value(value: &str) -> (r: String)
    ensures
        r@ == escape(value@),
{
    let chars: Vec<char> = chars_of(value);
    let mut s: String = String::new();
    let mut i: usize = 0;
    while i < chars.len()
        invariant
            i <= chars@.len(),
            s@ == escape(chars@.take(i as int)),
        decreases chars@.len() - i,
    {
        let c: char = chars[i];
        let ghost before = s@;
        assert(chars@.take(i + 1).drop_last() =~= chars@.take(i as int));
        if c == '\\' {
            s.push('\\');
            s.push('\\');
        } else if c == '\n' {
            s.push('\\');
            s.push('n');
        } else if c == '\r' {
            s.push('\\');
            s.push('r');
        } else {
            s.push(c);
        }
        assert(s@ =~= before + escape_char(c));
        i += 1;
    }
    assert(chars@.take(i as int) =~= chars@);
    s
}

/// The value that an escaped text stands for.
pub fn unescape_value(value: &str) -> (r: String)
    ensures
        r@ == unescape(value@),
{
    let chars: Vec<char> = chars_of(value);
    let mut s: String = String::new();
    let mut i: usize = 0;
    assert(chars@.skip(0) =~= chars@);
    assert(s@ + unescape(chars@) =~= unescape(chars@));
    while i < chars.len()
        invariant
            i <= chars@.len(),
            s@ + unescape(chars@.skip(i as int)) == unescape(chars@),
        decreases chars@.len() - i,
    {
        let ghost before = s@;
        let ghost rest = chars@.skip(i as int);
        let c: char = chars[i];
        assert(rest[0] == c);
        if c != '\\' {
            s.push(c);
            assert(rest.drop_first() =~= chars@.skip(i + 1));
            assert(s@ + unescape(rest.drop_first()) =~= before + (seq![c] + unescape(
                rest.drop_first(),
            )));
            i += 1;
        } else if i + 1 >= chars.len() {
            s.push('\\');
            assert(s@ =~= before + seq!['\\']);
            assert(chars@.skip(i + 1) =~= Seq::empty());
            assert(s@ + Seq::<char>::empty() =~= s@);
            i += 1;
        } else {
            let next: char = chars[i + 1];
            assert(rest[1] == next);
            assert(rest.skip(2) =~= chars@.skip(i + 2));
            let ghost tail = unescape(rest.skip(2));
            if next == 'n' {
                s.push('\n');
                assert(s@ + tail =~= before + (seq!['\n'] + tail));
            } else if next == 'r' {
                s.push('\r');
                assert(s@ + tail =~= before + (seq!['\r'] + tail));
            } else if next == '\\' {
                s.push('\\');
                assert(s@ + tail =~= before + (seq!['\\'] + tail));
            } else {
                s.push('\\');
                s.push(next);
                assert(s@ + tail =~= before + (seq!['\\', next] + tail));
            }
            i += 2;
        }
    }
    assert(chars@.skip(i as int) =~= Seq::empty());
    assert(s@ + Seq::<char>::empty() =~= s@);
    s
}

// ---------------------------------------------------------------------------
// Writing
// ---------------------------------------------------------------------------

/// A variable and what it holds, on one line; the bare name where it is unset.
pub open spec fn side_text(key: Text, value: Option<Text>) -> Text {
    match value {
        Some(v) => key + "="@ + escape(v),
        None => key,
    }
}

/// The two lines of each entry.
pub open spec fn entry_lines(entries: Seq<Override>) -> Seq<Text>
    decreases entries.len(),
{
    if entries.len() == 0 {
        Seq::empty()
    } else {
        let e = entries.last();
        entry_lines(entries.drop_last()).push("-"@ + side_text(e.key, e.prev)).push(
            "+"@ + side_text(e.key, e.now),
        )
    }
}

/// The lines in front of the entries.
pub open spec fn header_lines(profile: Text) -> Seq<Text> {
    seq![
        "# envc restore stack -- `activate` writes it, `deactivate` replays it."@,
        "# '-' is the value before the profile, '+' what it installed."@,
        "# A side with no `=value` means unset, so undoing it is `unset`."@,
        "# format "@ + decimal(STACK_FORMAT_VERSION as nat),
        "# active-profile "@ + profile,
        "--- before envc"@,
        "+++ after `"@ + profile + "`"@,
    ]
}

/// The file that a stack is kept in.
pub open spec fn stack_text(stack: Record) -> Text {
    unlines(header_lines(stack.profile) + entry_lines(stack.entries))
}

/// A variable and what it holds, on one line; the bare name where it is unset.
pub fn render_side(key: &str, value: Option<&String>) -> (r: String)
    ensures
        r@ == side_text(
            key@,
            match value {
                Some(v) => Some(v@),
                None => None,
            },
        ),
{
    match value {
        Some(v) => cat3(key, "=", escape_value(v.as_str()).as_str()),
        None => key.to_owned(),
    }
}

// ---------------------------------------------------------------------------
// Undoing
// ---------------------------------------------------------------------------

/// The change that puts a variable back.
pub open spec fn put_back(e: Override) -> Change {
    Change { key: e.key, value: e.prev }
}

/// The changes that put every variable back, in the order of the entries.
pub open spec fn put_backs(entries: Seq<Override>) -> Seq<Change> {
    entries.map_values(|e: Override| put_back(e))
}

/// The changes that undo every override, newest first.
pub open spec fn undo_changes(entries: Seq<Override>) -> Seq<Change> {
    put_backs(entries).reverse()
}

/// The changes that a list of settings asks for.
pub open spec fn setting_changes(settings: Seq<Setting>) -> Seq<Change> {
    settings.map_values(|s: Setting| Change { key: s.key, value: Some(s.value) })
}

/// What overriding `base` with `settings` is remembered as.
pub open spec fn overrides(base: Vars, settings: Seq<Setting>) -> Seq<Override> {
    settings.map_values(
        |s: Setting| Override { key: s.key, prev: lookup(base, s.key), now: Some(s.value) },
    )
}

impl Stack {
    pub fn new(profile: &str, entries: Vec<Entry>) -> (r: Stack)
        ensures
            r.profile@ == profile@,
            r.entries == entries,
    {
        Stack { profile: profile.to_owned(), entries }
    }

    /// The file that the stack is kept in.
    pub fn render(&self) -> (r: String)
        ensures
            r@ == stack_text(self@),
    {
        let mut ls: Vec<String> = Vec::new();
        let profile: &str = self.profile.as_str();
        push_item(
            &mut ls,
            "# envc restore stack -- `activate` writes it, `deactivate` replays it.".to_owned(),
        );
        push_item(
            &mut ls,
            "# '-' is the value before the profile, '+' what it installed.".to_owned(),
        );
        push_item(
            &mut ls,
            "# A side with no `=value` means unset, so undoing it is `unset`.".to_owned(),
        );
        push_item(
            &mut ls,
            cat2("# format ", decimal_of(STACK_FORMAT_VERSION as usize).as_str()),
        );
        push_item(&mut ls, cat2("# active-profile ", profile));
        push_item(&mut ls, "--- before envc".to_owned());
        push_item(&mut ls, cat3("+++ after `", profile, "`"));
        let ghost head = header_lines(profile@);
        let ghost all = views(self.entries@);
        assert(views(ls@) =~= head);
        let mut i: usize = 0;
        assert(views(ls@) =~= head + entry_lines(all.take(0)));
        while i < self.entries.len()
            invariant
                i <= self.entries@.len(),
                all == views(self.entries@),
                views(ls@) == head + entry_lines(all.take(i as int)),
            decreases self.entries@.len() - i,
        {
            let e: &Entry = &self.entries[i];
            let ghost before = views(ls@);
            push_item(&mut ls, cat2("-", render_side(e.key.as_str(), e.prev.as_ref()).as_str()));
            push_item(&mut ls, cat2("+", render_side(e.key.as_str(), e.now.as_ref()).as_str()));
            assert(all.take(i + 1).drop_last() =~= all.take(i as int));
            assert(all.take(i + 1).last() == e@);
            assert(views(ls@) =~= head + entry_lines(all.take(i + 1)));
            i += 1;
        }
        assert(all.take(i as int) =~= all);
        joined_lines(&ls)
    }

    /// Shell lines that undo every override, newest first.
    pub fn restore_lines(&self, shell: Shell) -> (r: Vec<String>)
        ensures
            views(r@) == change_lines(shell, undo_changes(self@.entries)),
    {
        let mut out: Vec<String> = Vec::new();
        let mut n: usize = self.entries.len();
        let ghost all = change_lines(shell, undo_changes(self@.entries));
        while n > 0
            invariant
                n <= self.entries@.len(),
                all == change_lines(shell, undo_changes(self@.entries)),
                views(out@) == all.take(self.entries@.len() - n),
            decreases n,
        {
            let e: &Entry = &self.entries[n - 1];
            let ghost k = self.entries@.len() - n;
            assert(undo_changes(self@.entries)[k] == put_back(e@));
            let line: String = match &e.prev {
                Some(v) => shell.assign(e.key.as_str(), v.as_str()),
                None => shell.unset(e.key.as_str()),
            };
            assert(line@ == all[k]);
            push_item(&mut out, line);
            n -= 1;
            assert(views(out@) =~= all.take(self.entries@.len() - n));
        }
        assert(all.take(self.entries@.len() as int) =~= all);
        out
    }

    /// `current` with this stack's overrides peeled off -- the environment as it
    /// was before this profile was activated. Values captured from here stay
    /// correct when one profile replaces another.
    pub fn base_env(&self, current: &Env) -> (r: Env)
        ensures
            r@ == apply_changes(current@, put_backs(self@.entries)),
    {
        let mut base: Env = current.copy();
        let mut i: usize = 0;
        let ghost all = put_backs(self@.entries);
        assert(all.take(0) =~= Seq::<Change>::empty());
        while i < self.entries.len()
            invariant
                i <= self.entries@.len(),
                all == put_backs(self@.entries),
                base@ == apply_changes(current@, all.take(i as int)),
            decreases self.entries@.len() - i,
        {
            let e: &Entry = &self.entries[i];
            assert(all.take(i + 1).drop_last() =~= all.take(i as int));
            assert(all.take(i + 1).last() == put_back(e@));
            match &e.prev {
                Some(v) => base.insert(copy_of(&e.key), copy_of(v)),
                None => base.remove(e.key.as_str()),
            }
            i += 1;
        }
        assert(all.take(i as int) =~= all);
        base
    }

    /// Build stack entries for `assignments` against a base environment.
    pub fn entries_from(base: &Env, assignments: &Vec<Assignment>) -> (r: Vec<Entry>)
        ensures
            views(r@) == overrides(base@, views(assignments@)),
    {
        let mut out: Vec<Entry> = Vec::new();
        let mut i: usize = 0;
        let ghost all = overrides(base@, views(assignments@));
        while i < assignments.len()
            invariant
                i <= assignments@.len(),
                all == overrides(base@, views(assignments@)),
                views(out@) == all.take(i as int),
            decreases assignments@.len() - i,
        {
            let a: &Assignment = &assignments[i];
            let prev: Option<String> = match base.get(a.key.as_str()) {
                Some(v) => Some(copy_of(v)),
                None => None,
            };
            let entry: Entry = Entry { key: copy_of(&a.key), prev, now: Some(copy_of(&a.value)) };
            assert(views(assignments@)[i as int] == a@);
            assert(all[i as int] == entry@);
            push_item(&mut out, entry);
            i += 1;
            assert(views(out@) =~= all.take(i as int));
        }
        assert(all.take(i as int) =~= all);
        out
    }
}

// ---------------------------------------------------------------------------
// Reading
// ---------------------------------------------------------------------------

/// Why a restore stack could not be read. Lines are counted from one.
pub enum StackError {
    BadFormat { line: usize, text: String },
    BadName { line: usize, name: String },
    UnansweredBefore { line: usize },
    UnmatchedAfter { line: usize },
    Mismatch { line: usize, key: String, before: String },
    Unrecognised { line: usize, text: String },
    Unfinished { key: String },
    WrongFormat { version: u32 },
    NoProfile,
}

/// What a `StackError` says.
pub enum StackFault {
    BadFormat { line: nat, text: Text },
    BadName { line: nat, name: Text },
    UnansweredBefore { line: nat },
    UnmatchedAfter { line: nat },
    Mismatch { line: nat, key: Text, before: Text },
    Unrecognised { line: nat, text: Text },
    Unfinished { key: Text },
    WrongFormat { version: u32 },
    NoProfile,
}

impl View for StackError {
    type V = StackFault;

    open spec fn view(&self) -> StackFault {
        match self {
            StackError::BadFormat { line, text } => StackFault::BadFormat {
                line: *line as nat,
                text: text@,
            },
            StackError::BadName { line, name } => StackFault::BadName {
                line: *line as nat,
                name: name@,
            },
            StackError::UnansweredBefore { line } => StackFault::UnansweredBefore {
                line: *line as nat,
            },
            StackError::UnmatchedAfter { line } => StackFault::UnmatchedAfter { line: *line as nat },
            StackError::Mismatch { line, key, before } => StackFault::Mismatch {
                line: *line as nat,
                key: key@,
                before: before@,
            },
            StackError::Unrecognised { line, text } => StackFault::Unrecognised {
                line: *line as nat,
                text: text@,
            },
            StackError::Unfinished { key } => StackFault::Unfinished { key: key@ },
            StackError::WrongFormat { version } => StackFault::WrongFormat { version: *version },
            StackError::NoProfile => StackFault::NoProfile,
        }
    }
}

/// The fault in words; `origin` says which file it is about.
pub open spec fn stack_fault_text(origin: Text, fault: StackFault) -> Text {
    match fault {
        StackFault::BadFormat { line, text } => located(
            origin,
            line,
            "bad format number "@ + debug_text(text),
        ),
        StackFault::BadName { line, name } => located(
            origin,
            line,
            debug_text(name) + " is not a valid variable name"@,
        ),
        StackFault::UnansweredBefore { line } => located(
            origin,
            line,
            "a '-' line was not followed by its '+' line"@,
        ),
        StackFault::UnmatchedAfter { line } => located(
            origin,
            line,
            "a '+' line has no matching '-' line"@,
        ),
        StackFault::Mismatch { line, key, before } => located(
            origin,
            line,
            "'+' line for "@ + debug_text(key) + " does not match the preceding '-' line for "@
                + debug_text(before),
        ),
        StackFault::Unrecognised { line, text } => located(
            origin,
            line,
            "unrecognised line: "@ + debug_text(text),
        ),
        StackFault::Unfinished { key } => origin + ": '"@ + key
            + "' has a '-' line but no '+' line"@,
        StackFault::WrongFormat { version } => origin + ": written with stack format "@ + decimal(
            version as nat,
        ) + ", this build understands "@ + decimal(STACK_FORMAT_VERSION as nat),
        StackFault::NoProfile => origin + ": missing a `# active-profile <name>` line"@,
    }
}

impl StackError {
    /// The error in words; `origin` says which file it is about.
    pub fn message(&self, origin: &str) -> (r: String)
        ensures
            r@ == stack_fault_text(origin@, self@),
    {
        match self {
            StackError::BadFormat { line, text } => locate(
                origin,
                *line,
                cat2("bad format number ", debug_of(text.as_str()).as_str()).as_str(),
            ),
            StackError::BadName { line, name } => locate(
                origin,
                *line,
                cat2(debug_of(name.as_str()).as_str(), " is not a valid variable name").as_str(),
            ),
            StackError::UnansweredBefore { line } => locate(
                origin,
                *line,
                "a '-' line was not followed by its '+' line",
            ),
            StackError::UnmatchedAfter { line } => locate(
                origin,
                *line,
                "a '+' line has no matching '-' line",
            ),
            StackError::Mismatch { line, key, before } => locate(
                origin,
                *line,
                cat4(
                    "'+' line for ",
                    debug_of(key.as_str()).as_str(),
                    " does not match the preceding '-' line for ",
                    debug_of(before.as_str()).as_str(),
                ).as_str(),
            ),
            StackError::Unrecognised { line, text } => locate(
                origin,
                *line,
                cat2("unrecognised line: ", debug_of(text.as_str()).as_str()).as_str(),
            ),
            StackError::Unfinished { key } => cat4(
                origin,
                ": '",
                key.as_str(),
                "' has a '-' line but no '+' line",
            ),
            StackError::WrongFormat { version } => cat5(
                origin,
                ": written with stack format ",
                decimal_of(*version as usize).as_str(),
                ", this build understands ",
                decimal_of(STACK_FORMAT_VERSION as usize).as_str(),
            ),
            StackError::NoProfile => cat2(origin, ": missing a `# active-profile <name>` line"),
        }
    }
}

/// What a line of the file is.
pub enum StackLine {
    /// Nothing but white space.
    Blank,
    /// `# format N`.
    Format(Text),
    /// `# active-profile NAME`.
    Profile(Text),
    /// Any other comment.
    Prose,
    /// A `---` or `+++` file header, which is decoration.
    Header,
    /// The '-' side of an entry.
    Before(Text),
    /// The '+' side of an entry.
    After(Text),
    /// Anything else.
    Strange(Text),
}

/// One side of an entry, from its line without the sign. A value keeps the white
/// space at its end; a bare name has none.
pub open spec fn side_of(raw: Text) -> Text {
    if raw.contains('=') {
        raw
    } else {
        trim_end(raw)
    }
}

pub open spec fn stack_line(raw: Text) -> StackLine {
    let line = trim_end(raw);
    if line.len() == 0 {
        StackLine::Blank
    } else if line[0] == '#' {
        let rest = trim(line.skip(1));
        if begins(rest, "format "@) {
            StackLine::Format(rest.skip(7))
        } else if begins(rest, "active-profile "@) {
            StackLine::Profile(trim(rest.skip(15)))
        } else {
            StackLine::Prose
        }
    } else if begins(line, "---"@) || begins(line, "+++"@) {
        StackLine::Header
    } else if line[0] == '-' {
        StackLine::Before(side_of(raw.skip(1)))
    } else if line[0] == '+' {
        StackLine::After(side_of(raw.skip(1)))
    } else {
        StackLine::Strange(line)
    }
}

/// A variable and what it holds, read from one side of an entry, or the text
/// that is no variable name.
pub open spec fn side_parts(side: Text) -> Result<(Text, Option<Text>), Text> {
    let eq: int = find(side, '=', 0);
    let key = side.take(eq);
    if !identifier(key) {
        Err(key)
    } else if eq >= side.len() {
        Ok((key, None))
    } else {
        Ok((key, Some(unescape(side.skip(eq + 1)))))
    }
}

/// What has been read of a stack so far.
pub struct Progress {
    pub version: u32,
    pub profile: Option<Text>,
    pub entries: Seq<Override>,
    /// A '-' side that waits for its '+' side.
    pub pending: Option<(Text, Option<Text>)>,
}

/// What one more line makes of it.
pub open spec fn take_line(p: Progress, number: nat, line: StackLine) -> Result<
    Progress,
    StackFault,
> {
    match line {
        StackLine::Blank => Ok(p),
        StackLine::Prose => Ok(p),
        StackLine::Header => Ok(p),
        StackLine::Format(text) => match crate::text::number(trim(text)) {
            Some(version) => Ok(Progress { version, ..p }),
            None => Err(StackFault::BadFormat { line: number, text }),
        },
        StackLine::Profile(name) => Ok(Progress { profile: Some(name), ..p }),
        StackLine::Before(side) => if p.pending is Some {
            Err(StackFault::UnansweredBefore { line: number })
        } else {
            match side_parts(side) {
                Ok(parts) => Ok(Progress { pending: Some(parts), ..p }),
                Err(name) => Err(StackFault::BadName { line: number, name }),
            }
        },
        StackLine::After(side) => match side_parts(side) {
            Err(name) => Err(StackFault::BadName { line: number, name }),
            Ok((key, now)) => match p.pending {
                None => Err(StackFault::UnmatchedAfter { line: number }),
                Some((before, prev)) => if before != key {
                    Err(StackFault::Mismatch { line: number, key, before })
                } else {
                    Ok(
                        Progress {
                            pending: None,
                            entries: p.entries.push(Override { key, prev, now }),
                            ..p
                        },
                    )
                },
            },
        },
        StackLine::Strange(text) => Err(StackFault::Unrecognised { line: number, text }),
    }
}

/// What the lines from `i` on make of it.
pub open spec fn take_lines(p: Progress, ls: Seq<Text>, i: int) -> Result<Progress, StackFault>
    decreases ls.len() - i,
{
    if i < 0 || i >= ls.len() {
        Ok(p)
    } else {
        match take_line(p, (i + 1) as nat, stack_line(ls[i])) {
            Ok(next) => take_lines(next, ls, i + 1),
            Err(e) => Err(e),
        }
    }
}

/// The stack once the file has ended.
pub open spec fn completed(p: Progress) -> Result<Record, StackFault> {
    match p.pending {
        Some((key, _)) => Err(StackFault::Unfinished { key }),
        None => if p.version != STACK_FORMAT_VERSION {
            Err(StackFault::WrongFormat { version: p.version })
        } else {
            match p.profile {
                Some(profile) => Ok(Record { profile, entries: p.entries }),
                None => Err(StackFault::NoProfile),
            }
        },
    }
}

pub open spec fn no_progress() -> Progress {
    Progress {
        version: STACK_FORMAT_VERSION,
        profile: None,
        entries: Seq::empty(),
        pending: None,
    }
}

/// The stack that a file holds.
pub open spec fn read_stack(content: Text) -> Result<Record, StackFault> {
    match take_lines(no_progress(), lines(content), 0) {
        Ok(p) => completed(p),
        Err(e) => Err(e),
    }
}

/// The stack that a file holds, if any: an empty file means that nothing is
/// active.
pub open spec fn stack_state(content: Text) -> Result<Option<Record>, StackFault> {
    if trim(content).len() == 0 {
        Ok(None)
    } else {
        match read_stack(content) {
            Ok(s) => Ok(Some(s)),
            Err(e) => Err(e),
        }
    }
}

/// The views of the two parts of a side, or of what is no name.
pub open spec fn side_view(r: Result<(String, Option<String>), String>) -> Result<
    (Text, Option<Text>),
    Text,
> {
    match r {
        Ok((k, v)) => Ok((k@, opt_view(v))),
        Err(name) => Err(name@),
    }
}

/// Splits one side of an entry; the error is the text that is no variable name.
pub fn split_side(side: &str) -> (r: Result<(String, Option<String>), String>)
    ensures
        side_view(r) == side_parts(side@),
{
    let chars: Vec<char> = chars_of(side);
    let eq: usize = find_char(&chars, '=', 0);
    let key: &[char] = slice_subrange(&chars, 0, eq);
    assert(key@ =~= side@.take(eq as int));
    if !is_name(key) {
        return Err(text_of(key));
    }
    if eq >= chars.len() {
        return Ok((text_of(key), None));
    }
    let rest: &[char] = slice_subrange(&chars, eq + 1, chars.len());
    assert(rest@ =~= side@.skip(eq + 1));
    Ok((text_of(key), Some(unescape_value(text_of(rest).as_str()))))
}

/// One side of an entry, from its line without the sign.
fn whole_side(raw: &[char]) -> (r: &[char])
    ensures
        r@ == side_of(raw@),
{
    let eq: usize = find_char(raw, '=', 0);
    proof {
        lemma_find(raw@, '=', 0);
    }
    if eq < raw.len() {
        assert(raw@.contains(raw@[eq as int]));
        raw
    } else {
        trimmed_end(raw)
    }
}

/// What has been read of a stack file so far.
struct Reader {
    version: u32,
    profile: Option<String>,
    entries: Vec<Entry>,
    pending: Option<(String, Option<String>)>,
}

impl Reader {
    spec fn progress(&self) -> Progress {
        Progress {
            version: self.version,
            profile: opt_view(self.profile),
            entries: views(self.entries@),
            pending: match self.pending {
                Some((k, v)) => Some((k@, opt_view(v))),
                None => None,
            },
        }
    }

    /// Takes in one more line.
    fn read_line(&mut self, number: usize, raw: &[char]) -> (r: Result<(), StackError>)
        ensures
            match r {
                Ok(()) => take_line(old(self).progress(), number as nat, stack_line(raw@)) == Ok::<
                    Progress,
                    StackFault,
                >(final(self).progress()),
                Err(e) => take_line(old(self).progress(), number as nat, stack_line(raw@)) == Err::<
                    Progress,
                    StackFault,
                >(e@),
            },
    {
        let line: &[char] = trimmed_end(raw);
        if line.len() == 0 {
            return Ok(());
        }
        let tail: &[char] = slice_subrange(line, 1, line.len());
        assert(tail@ =~= line@.skip(1));
        proof {
            lemma_last_solid(raw@, raw@.len() as int);
            assert(line@[0] == raw@[0]);
        }
        let side: &[char] = whole_side(slice_subrange(raw, 1, raw.len()));
        assert(raw@.subrange(1, raw@.len() as int) =~= raw@.skip(1));
        if line[0] == '#' {
            let rest: &[char] = trimmed(tail);
            if begins_with(rest, &chars_of("format ")) {
                proof {
                    reveal_strlit("format ");
                }
                let text: &[char] = slice_subrange(rest, 7, rest.len());
                assert(text@ =~= rest@.skip(7));
                match parse_number(trimmed(text)) {
                    Some(version) => {
                        self.version = version;
                    },
                    None => {
                        return Err(StackError::BadFormat { line: number, text: text_of(text) });
                    },
                }
            } else if begins_with(rest, &chars_of("active-profile ")) {
                proof {
                    reveal_strlit("active-profile ");
                }
                let name: &[char] = slice_subrange(rest, 15, rest.len());
                assert(name@ =~= rest@.skip(15));
                self.profile = Some(text_of(trimmed(name)));
            }
            return Ok(());
        }
        if begins_with(line, &chars_of("---")) || begins_with(line, &chars_of("+++")) {
            return Ok(());
        }
        if line[0] == '-' {
            if self.pending.is_some() {
                return Err(StackError::UnansweredBefore { line: number });
            }
            match split_side(text_of(side).as_str()) {
                Ok(parts) => {
                    self.pending = Some(parts);
                    Ok(())
                },
                Err(name) => Err(StackError::BadName { line: number, name }),
            }
        } else if line[0] == '+' {
            match split_side(text_of(side).as_str()) {
                Ok((key, now)) => {
                    match self.pending.take() {
                        None => Err(StackError::UnmatchedAfter { line: number }),
                        Some((before, prev)) => {
                            if !same_text(before.as_str(), key.as_str()) {
                                return Err(StackError::Mismatch { line: number, key, before });
                            }
                            push_item(&mut self.entries, Entry { key, prev, now });
                            Ok(())
                        },
                    }
                },
                Err(name) => Err(StackError::BadName { line: number, name }),
            }
        } else {
            Err(StackError::Unrecognised { line: number, text: text_of(line) })
        }
    }
}

/// The views of a stack or of the reason why there is none.
pub open spec fn stack_view(r: Result<Stack, StackError>) -> Result<Record, StackFault> {
    match r {
        Ok(s) => Ok(s@),
        Err(e) => Err(e@),
    }
}

/// The views of a stack, if any, or of the reason why it could not be read.
pub open spec fn stack_opt_view(r: Result<Option<Stack>, StackError>) -> Result<
    Option<Record>,
    StackFault,
> {
    match r {
        Ok(s) => Ok(opt_view(s)),
        Err(e) => Err(e@),
    }
}

/// Reads the file that a stack is kept in.
pub fn parse_stack(content: &str) -> (r: Result<Stack, StackError>)
    ensures
        stack_view(r) == read_stack(content@),
{
    let ls: Vec<Vec<char>> = split_lines(&chars_of(content));
    let mut reader: Reader = Reader {
        version: STACK_FORMAT_VERSION,
        profile: None,
        entries: Vec::new(),
        pending: None,
    };
    let mut i: usize = 0;
    assert(reader.progress().entries =~= Seq::empty());
    while i < ls.len()
        invariant
            i <= ls@.len(),
            views(ls@) == lines(content@),
            take_lines(no_progress(), lines(content@), 0) == take_lines(
                reader.progress(),
                lines(content@),
                i as int,
            ),
        decreases ls@.len() - i,
    {
        assert(ls@[i as int]@ == lines(content@)[i as int]);
        match reader.read_line(i + 1, &ls[i]) {
            Ok(()) => {},
            Err(e) => {
                return Err(e);
            },
        }
        i += 1;
    }
    match reader.pending {
        Some((key, _)) => Err(StackError::Unfinished { key }),
        None => {
            if reader.version != STACK_FORMAT_VERSION {
                return Err(StackError::WrongFormat { version: reader.version });
            }
            match reader.profile {
                Some(profile) => Ok(Stack { profile, entries: reader.entries }),
                None => Err(StackError::NoProfile),
            }
        },
    }
}

/// An empty restore stack means "nothing is active", so it reads as no state.
pub fn parse_stack_state(content: &str) -> (r: Result<Option<Stack>, StackError>)
    ensures
        stack_opt_view(r) == stack_state(content@),
{
    if trimmed(&chars_of(content)).len() == 0 {
        return Ok(None);
    }
    match parse_stack(content) {
        Ok(s) => Ok(Some(s)),
        Err(e) => Err(e),
    }
}

} // verus!
