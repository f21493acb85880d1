//! The profile that new shells load.

use vstd::prelude::*;

use crate::text::{
    cat2, chars_of, decimal, decimal_of, joined_lines, lines, opt_view, push_item, split_lines,
    text_of, trim, trimmed, unlines, views, Text,
};

verus! {

pub const STARTUP_FORMAT_VERSION: u32 = 1;

/// The profile new shells load, chosen by `envc enable <name>`.
///
/// This is deliberately not the restore stack. The stack is per-shell
/// bookkeeping that `deactivate` replays; this file is the persistent answer to
/// "what should the rc hook apply in a fresh shell?". Only `enable` writes it,
/// so `activate` cannot change what the next shell starts with.
pub struct Startup {
    pub profile: String,
}

impl View for Startup {
    type V = Text;

    open spec fn view(&self) -> Text {
        self.profile@
    }
}

pub open spec fn startup_lines(profile: Text) -> Seq<Text> {
    seq![
        "# envc startup profile -- what new shells load through the rc hook."@,
        "# `envc enable <name>` writes it; `envc disable` keeps it, stopped."@,
        "# format "@ + decimal(STARTUP_FORMAT_VERSION as nat),
        profile,
    ]
}

/// The file that the choice is kept in.
pub open spec fn startup_text(profile: Text) -> Text {
    unlines(startup_lines(profile))
}

/// The first line from `i` on that is neither blank nor a comment, without the
/// white space around it.
pub open spec fn first_entry(ls: Seq<Text>, i: int) -> Option<Text>
    decreases ls.len() - i,
{
    if i < 0 || i >= ls.len() {
        None
    } else {
        let line = trim(ls[i]);
        if line.len() > 0 && line[0] != '#' {
            Some(line)
        } else {
            first_entry(ls, i + 1)
        }
    }
}

/// The choice that a file holds, if any.
pub open spec fn read_startup(content: Text) -> Option<Text> {
    first_entry(lines(content), 0)
}

impl Startup {
    /// The file that the choice is kept in.
    pub fn render(&self) -> (r: String)
        ensures
            r@ == startup_text(self@),
    {
        let mut ls: Vec<String> = Vec::new();
        push_item(
            &mut ls,
            "# envc startup profile -- what new shells load through the rc hook.".to_owned(),
        );
        push_item(
            &mut ls,
            "# `envc enable <name>` writes it; `envc disable` keeps it, stopped.".to_owned(),
        );
        push_item(
            &mut ls,
            cat2("# format ", decimal_of(STARTUP_FORMAT_VERSION as usize).as_str()),
        );
        push_item(&mut ls, self.profile.as_str().to_owned());
        assert(views(ls@) =~= startup_lines(self@));
        joined_lines(&ls)
    }
}

/// The file is a comment header plus one bare profile name, so a hand-edited
/// file cannot break startup: anything unparseable simply means "no choice".
pub fn parse_startup(content: &str) -> (r: Option<Startup>)
    ensures
        opt_view(r) == read_startup(content@),
{
    let ls: Vec<Vec<char>> = split_lines(&chars_of(content));
    let mut i: usize = 0;
    while i < ls.len()
        invariant
            i <= ls@.len(),
            views(ls@) == lines(content@),
            read_startup(content@) == first_entry(lines(content@), i as int),
        decreases ls@.len() - i,
    {
        assert(ls@[i as int]@ == lines(content@)[i as int]);
        let line: &[char] = trimmed(&ls[i]);
        if line.len() > 0 && line[0] != '#' {
            return Some(Startup { profile: text_of(line) });
        }
        i += 1;
    }
    None
}

/// The choice that a file holds, if any. Nothing in the file is an error.
pub fn parse_startup_state(content: &str) -> (r: Option<Startup>)
    ensures
        opt_view(r) == read_startup(content@),
{
    parse_startup(content)
}

} // verus!
