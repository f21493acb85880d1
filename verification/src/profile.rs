//! Profiles and their names.

use vstd::prelude::*;
use vstd::utf8::encode_utf8;

use crate::text::{
    cat3, cat4, chars_of, debug_of, debug_text, digit, is_digit, is_letter, letter, Text,
};

verus! {

/// The longest name that is accepted, in bytes of UTF-8.
pub const MAX_NAME_LEN: usize = 64;

/// What is wrong with a profile name.
#[derive(Debug, Clone, Copy, PartialEq, Eq, Structural)]
pub enum NameProblem {
    Empty,
    TooLong,
    LeadingDot,
    BadCharacter,
}

/// A name that no profile can have.
pub struct NameError {
    pub name: String,
    pub problem: NameProblem,
}

/// A character that may stand in a profile name.
pub open spec fn profile_char(c: char) -> bool {
    letter(c) || digit(c) || c == '_' || c == '-' || c == '.'
}

/// What is wrong with a profile name, if anything. Profile names become
/// directory names, so they are kept boring: no separators, no leading dot, no
/// `..`.
pub open spec fn name_problem(name: Text) -> Option<NameProblem> {
    if name.len() == 0 {
        Some(NameProblem::Empty)
    } else if encode_utf8(name).len() > MAX_NAME_LEN {
        Some(NameProblem::TooLong)
    } else if name[0] == '.' {
        Some(NameProblem::LeadingDot)
    } else if exists|i: int| 0 <= i < name.len() && !profile_char(#[trigger] name[i]) {
        Some(NameProblem::BadCharacter)
    } else {
        None
    }
}

pub open spec fn problem_text(p: NameProblem) -> Text {
    match p {
        NameProblem::Empty => "must not be empty"@,
        NameProblem::TooLong => "must be at most 64 characters"@,
        NameProblem::LeadingDot => "must not start with a dot"@,
        NameProblem::BadCharacter => "only letters, digits, '_', '-' and '.' are allowed"@,
    }
}

/// The complaint about a name, in words.
pub open spec fn name_error_text(name: Text, p: NameProblem) -> Text {
    "invalid profile name "@ + debug_text(name) + ": "@ + problem_text(p)
}

impl NameError {
    /// The error in words.
    pub fn message(&self) -> (r: String)
        ensures
            r@ == name_error_text(self.name@, self.problem),
    {
        let why: &str = match self.problem {
            NameProblem::Empty => "must not be empty",
            NameProblem::TooLong => "must be at most 64 characters",
            NameProblem::LeadingDot => "must not start with a dot",
            NameProblem::BadCharacter => "only letters, digits, '_', '-' and '.' are allowed",
        };
        cat4("invalid profile name ", debug_of(self.name.as_str()).as_str(), ": ", why)
    }
}

/// Profile names become directory names, so keep them boring: no separators,
/// no leading dot, no `..`.
pub fn validate_profile_name(name: &str) -> (r: Result<(), NameError>)
    ensures
        match name_problem(name@) {
            None => r is Ok,
            Some(p) => r matches Err(e) && e.name@ == name@ && e.problem == p,
        },
{
    let chars: Vec<char> = chars_of(name);
    if chars.len() == 0 {
        return Err(NameError { name: name.to_owned(), problem: NameProblem::Empty });
    }
    if name.as_bytes().len() > MAX_NAME_LEN {
        return Err(NameError { name: name.to_owned(), problem: NameProblem::TooLong });
    }
    if chars[0] == '.' {
        return Err(NameError { name: name.to_owned(), problem: NameProblem::LeadingDot });
    }
    let mut i: usize = 0;
    while i < chars.len()
        invariant
            i <= chars@.len(),
            chars@ == name@,
            name@.len() > 0,
            encode_utf8(name@).len() <= MAX_NAME_LEN,
            name@[0] != '.',
            forall|j: int| 0 <= j < i ==> profile_char(#[trigger] name@[j]),
        decreases chars@.len() - i,
    {
        let c: char = chars[i];
        if !(is_letter(c) || is_digit(c) || c == '_' || c == '-' || c == '.') {
            assert(!profile_char(name@[i as int]));
            return Err(NameError { name: name.to_owned(), problem: NameProblem::BadCharacter });
        }
        i += 1;
    }
    Ok(())
}

/// What a new profile's file holds.
pub open spec fn template_text(name: Text) -> Text {
    "# envc profile: "@ + name
        + "\n# KEY=value, one per line. Edit this file however you like.\n"@
}

/// A blank starting point. envc never edits a profile's `.env` again -- the
/// file belongs to the user, this only gives it somewhere to start.
pub fn template(name: &str) -> (r: String)
    ensures
        r@ == template_text(name@),
{
    cat3(
        "# envc profile: ",
        name,
        "\n# KEY=value, one per line. Edit this file however you like.\n",
    )
}

} // verus!
