//! Making profiles and doing away with them.

use vstd::prelude::*;
use vstd::utf8::encode_utf8;


use crate::manage::{
    create_fault_text, creation_fault, creation_notes, creation_report, delete_fault_text, deletion,
    CreateFault, DeleteFault,
};
use crate::profile::{name_problem, profile_char, template_text, NameProblem};
use crate::text::{begins, occurs, Text};

verus! {

/// A letter, a digit, `_`, `-` or `.`, in ASCII.
pub open spec fn boring(c: char) -> bool {
    ||| 'a' <= c <= 'z'
    ||| 'A' <= c <= 'Z'
    ||| '0' <= c <= '9'
    ||| c == '_'
    ||| c == '-'
    ||| c == '.'
}

/// A name is one that a profile can have exactly where it has some characters but
/// at most 64 bytes, all of them boring, and the first of them no dot.
pub proof fn boring_names_are_accepted(name: Text)
    ensures
        name_problem(name) is None <==> {
            &&& 0 < name.len()
            &&& encode_utf8(name).len() <= 64
            &&& name[0] != '.'
            &&& forall|i: int| 0 <= i < name.len() ==> boring(#[trigger] name[i])
        },
{
    if name_problem(name) is None {
        assert forall|i: int| 0 <= i < name.len() implies boring(#[trigger] name[i]) by {
            assert(profile_char(name[i]));
        }
    } else if forall|i: int| 0 <= i < name.len() ==> boring(#[trigger] name[i]) {
        assert forall|i: int| 0 <= i < name.len() implies profile_char(#[trigger] name[i]) by {
            assert(boring(name[i]));
        }
    }
}

/// What is said to be wrong with a name is wrong with it, and what is said first
/// is what comes first: that it is empty, that it is too long, that it begins
/// with a dot, that it holds another character.
pub proof fn a_name_is_refused_for_what_is_wrong(name: Text)
    ensures
        name_problem(name) == Some(NameProblem::Empty) <==> name.len() == 0,
        name_problem(name) == Some(NameProblem::TooLong) <==> name.len() > 0 && encode_utf8(
            name,
        ).len() > 64,
        name_problem(name) == Some(NameProblem::LeadingDot) <==> name.len() > 0 && encode_utf8(
            name,
        ).len() <= 64 && name[0] == '.',
        name_problem(name) == Some(NameProblem::BadCharacter) ==> exists|i: int|
            0 <= i < name.len() && !boring(#[trigger] name[i]),
{
    if name_problem(name) == Some(NameProblem::BadCharacter) {
        let i = choose|i: int| 0 <= i < name.len() && !profile_char(#[trigger] name[i]);
        assert(!boring(name[i]));
    }
}

/// A profile is created exactly where its name is one that a profile can have and
/// nothing is overwritten, unless by force.
pub proof fn a_profile_is_created_where_nothing_is_lost(name: Text, force: bool, there: bool)
    ensures
        creation_fault(name, force, there) is None <==> name_problem(name) is None && (!there
            || force),
        name_problem(name) matches Some(problem) ==> creation_fault(name, force, there) == Some(
            CreateFault::Name { name, problem },
        ),
        name_problem(name) is None && there && !force ==> creation_fault(name, force, there) == Some(
            CreateFault::Exists,
        ),
{
}

/// A profile is deleted exactly where it is there and not in use, unless by force;
/// the startup choice and the restore stack are cleared exactly where they are
/// about that profile.
pub proof fn a_profile_is_deleted_where_it_is_not_in_use(
    name: Text,
    force: bool,
    quiet: bool,
    there: bool,
    active: Option<Text>,
    startup: Option<Text>,
    dir: Text,
)
    ensures
        ({
            let result = deletion(name, force, quiet, there, active, startup, dir);
            let in_use = active == Some(name) || startup == Some(name);
            &&& result is Ok <==> name_problem(name) is None && there && (force || !in_use)
            &&& result matches Ok(plan) ==> {
                &&& plan.clear_startup <==> startup == Some(name)
                &&& plan.clear_stack <==> active == Some(name)
                &&& plan.startup_notes.len() == (if plan.clear_startup && !quiet {
                    3int
                } else {
                    0
                })
                &&& plan.stack_notes.len() == (if plan.clear_stack && !quiet {
                    3int
                } else {
                    0
                })
            }
        }),
{
}

/// Where a profile is not deleted, what is said is why: first what is wrong with
/// its name, else that it is not there, else that it is active, else that it is
/// the one new shells load.
pub proof fn a_deletion_is_refused_for_what_is_wrong(
    name: Text,
    force: bool,
    quiet: bool,
    there: bool,
    active: Option<Text>,
    startup: Option<Text>,
    dir: Text,
)
    ensures
        deletion(name, force, quiet, there, active, startup, dir) matches Err(fault) ==> match fault {
            DeleteFault::Name { name: n, problem } => n == name && name_problem(name) == Some(
                problem,
            ),
            DeleteFault::Missing => name_problem(name) is None && !there,
            DeleteFault::Active => there && active == Some(name),
            DeleteFault::Startup => there && active != Some(name) && startup == Some(name),
        },
{
}

/// Deleting one profile has nothing to do with what is active or chosen, so long
/// as that is another.
pub proof fn other_profiles_do_not_matter(
    name: Text,
    force: bool,
    quiet: bool,
    there: bool,
    active: Option<Text>,
    startup: Option<Text>,
    dir: Text,
)
    requires
        active != Some(name),
        startup != Some(name),
    ensures
        deletion(name, force, quiet, there, active, startup, dir) == deletion(
            name,
            true,
            quiet,
            there,
            None,
            None,
            dir,
        ),
{
}

/// What is said of a creation names the profile, and where it is.
pub proof fn a_creation_names_the_profile(name: Text, file: Text)
    ensures
        creation_report(name, file).len() == 3,
        occurs(creation_report(name, file)[0], name),
        occurs(creation_report(name, file)[1], file),
        occurs(creation_report(name, file)[2], name),
        creation_notes(name, true).len() == 0,
        creation_notes(name, false).len() == 3 && occurs(creation_notes(name, false)[2], name),
        occurs(template_text(name), name),
{
    lemma_occurs("created profile '"@, name, "'"@);
    lemma_ends_in("  env file: "@, file);
    lemma_ends_in("  edit it, then run: envc activate "@, name);
    lemma_occurs("      run `envc enable "@, name, "` to turn it on."@);
    lemma_occurs(
        "# envc profile: "@,
        name,
        "\n# KEY=value, one per line. Edit this file however you like.\n"@,
    );
}

/// What is said of a deletion names the profile, and where it was.
pub proof fn a_deletion_names_the_profile(
    name: Text,
    dir: Text,
    quiet: bool,
    active: Option<Text>,
    startup: Option<Text>,
)
    ensures
        deletion(name, true, quiet, true, active, startup, dir) matches Ok(plan) ==> occurs(
            plan.report,
            name,
        ) && occurs(plan.report, dir),
{
    let a = "deleted profile '"@;
    let b = "' ("@;
    let c = ")"@;
    let tail = b + dir + c;
    lemma_occurs(a, name, tail);
    assert(a + name + tail =~= a + name + b + dir + c);
    lemma_occurs(a + name + b, dir, c);
}

/// That a profile is in use is said of that profile.
pub proof fn what_is_in_use_is_named(name: Text)
    ensures
        begins(delete_fault_text(DeleteFault::Active, name), "profile '"@ + name + "' is "@),
        begins(delete_fault_text(DeleteFault::Startup, name), "profile '"@ + name + "' is "@),
{
    let front = "profile '"@ + name + "' is "@;
    let a = delete_fault_text(DeleteFault::Active, name);
    let b = delete_fault_text(DeleteFault::Startup, name);
    assert(a.take(front.len() as int) =~= front);
    assert(b.take(front.len() as int) =~= front);
}

/// What is cleared along with a profile is said with its name.
pub proof fn what_is_cleared_is_told(name: Text, there: bool, dir: Text)
    requires
        name_problem(name) is None,
    ensures
        deletion(name, true, false, true, Some(name), Some(name), dir) matches Ok(plan) && occurs(
            plan.startup_notes[0],
            name,
        ) && occurs(plan.stack_notes[0], name),
{
    let a = "envc: "@;
    let b = "cleared the startup profile ('"@;
    let c = "' deleted)"@;
    let ab = a + b;
    lemma_occurs(ab, name, c);
    assert(ab + name + c =~= a + (b + name + c));
    let d = "cleared the restore stack ('"@;
    let e = "')"@;
    let ad = a + d;
    lemma_occurs(ad, name, e);
    assert(ad + name + e =~= a + (d + name + e));
}

/// A refusal names the profile.
pub proof fn a_refusal_names_the_profile(name: Text, file: Text)
    ensures
        occurs(create_fault_text(CreateFault::Exists, name, file), name),
        occurs(create_fault_text(CreateFault::Exists, name, file), file),
        occurs(delete_fault_text(DeleteFault::Missing, name), name),
{
    let c = "profile '"@;
    let d = "' already exists ("@;
    let e = "); pass --force to overwrite it"@;
    let tail = d + file + e;
    lemma_occurs(c, name, tail);
    assert(c + name + tail =~= c + name + d + file + e);
    lemma_occurs(c + name + d, file, e);
    lemma_ends_in("no such profile: "@, name);
}

proof fn lemma_ends_in(before: Text, p: Text)
    ensures
        occurs(before + p, p),
{
    lemma_occurs(before, p, Seq::empty());
    assert(before + p + Seq::<char>::empty() =~= before + p);
}

/// What stands between two texts occurs in the whole.
pub proof fn lemma_occurs(before: Text, p: Text, after: Text)
    ensures
        occurs(before + p + after, p),
{
    let s = before + p + after;
    let at: int = before.len() as int;
    assert(s.skip(at).take(p.len() as int) =~= p);
    assert(begins(s.skip(at), p));
}

} // verus!
