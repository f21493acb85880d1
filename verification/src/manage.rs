//! Making profiles and doing away with them.

use vstd::prelude::*;

use crate::activation::{notice, notify};
use crate::profile::{
    name_error_text, name_problem, template, template_text, validate_profile_name, NameError,
    NameProblem,
};
use crate::shell::str_opt;
use crate::text::{cat2, cat3, cat5, push_item, same_text, views, Text};

verus! {

// ---------------------------------------------------------------------------
// Create
// ---------------------------------------------------------------------------

/// Why a profile was not created.
pub enum CreateError {
    /// The name is none that a profile can have.
    Name(NameError),
    /// There is one of that name already.
    Exists,
}

/// What a `CreateError` says.
pub enum CreateFault {
    Name { name: Text, problem: NameProblem },
    Exists,
}

impl View for CreateError {
    type V = CreateFault;

    open spec fn view(&self) -> CreateFault {
        match self {
            CreateError::Name(e) => CreateFault::Name { name: e.name@, problem: e.problem },
            CreateError::Exists => CreateFault::Exists,
        }
    }
}

/// The fault in words; `file` is the profile's file as messages show it.
pub open spec fn create_fault_text(fault: CreateFault, name: Text, file: Text) -> Text {
    match fault {
        CreateFault::Name { name, problem } => name_error_text(name, problem),
        CreateFault::Exists => "profile '"@ + name + "' already exists ("@ + file
            + "); pass --force to overwrite it"@,
    }
}

impl CreateError {
    /// The error in words; `file` is the profile's file as messages show it.
    pub fn message(&self, name: &str, file: &str) -> (r: String)
        ensures
            r@ == create_fault_text(self@, name@, file@),
    {
        match self {
            CreateError::Name(e) => e.message(),
            CreateError::Exists => cat5(
                "profile '",
                name,
                "' already exists (",
                file,
                "); pass --force to overwrite it",
            ),
        }
    }
}

/// What creating a profile asks for.
pub struct Creation {
    /// What to write into the profile's file.
    pub content: String,
    /// What to tell once that is done.
    pub report: Vec<String>,
}

pub open spec fn creation_report(name: Text, file: Text) -> Seq<Text> {
    seq![
        "created profile '"@ + name + "'"@,
        "  env file: "@ + file,
        "  edit it, then run: envc activate "@ + name,
    ]
}

/// Why a profile is not created, if there is a reason. One that exists already
/// is overwritten only by force.
pub open spec fn creation_fault(name: Text, force: bool, exists_already: bool) -> Option<
    CreateFault,
> {
    match name_problem(name) {
        Some(problem) => Some(CreateFault::Name { name, problem }),
        None => if exists_already && !force {
            Some(CreateFault::Exists)
        } else {
            None
        },
    }
}

/// Create a profile. `exists_already` says whether its file, which messages show
/// as `file`, is there.
pub fn cmd_create(name: &str, force: bool, exists_already: bool, file: &str) -> (r: Result<
    Creation,
    CreateError,
>)
    ensures
        match r {
            Ok(c) => {
                &&& creation_fault(name@, force, exists_already) is None
                &&& c.content@ == template_text(name@)
                &&& views(c.report@) == creation_report(name@, file@)
            },
            Err(e) => creation_fault(name@, force, exists_already) == Some(e@),
        },
{
    if let Err(e) = validate_profile_name(name) {
        return Err(CreateError::Name(e));
    }
    if exists_already && !force {
        return Err(CreateError::Exists);
    }
    let mut report: Vec<String> = Vec::new();
    push_item(&mut report, cat3("created profile '", name, "'"));
    push_item(&mut report, cat2("  env file: ", file));
    push_item(&mut report, cat2("  edit it, then run: envc activate ", name));
    assert(views(report@) =~= creation_report(name@, file@));
    Ok(Creation { content: template(name), report })
}

pub open spec fn creation_notes(name: Text, startup_on: bool) -> Seq<Text> {
    if startup_on {
        Seq::empty()
    } else {
        seq![
            ""@,
            "note: startup loading is off, so new shells will not load this profile."@,
            "      run `envc enable "@ + name + "` to turn it on."@,
        ]
    }
}

/// What to add to the report where new shells load nothing.
pub fn create_notes(name: &str, startup_on: bool) -> (r: Vec<String>)
    ensures
        views(r@) == creation_notes(name@, startup_on),
{
    let mut notes: Vec<String> = Vec::new();
    if !startup_on {
        push_item(&mut notes, "".to_owned());
        push_item(
            &mut notes,
            "note: startup loading is off, so new shells will not load this profile.".to_owned(),
        );
        push_item(&mut notes, cat3("      run `envc enable ", name, "` to turn it on."));
    }
    assert(views(notes@) =~= creation_notes(name@, startup_on));
    notes
}

// ---------------------------------------------------------------------------
// Delete
// ---------------------------------------------------------------------------

/// Why a profile was not deleted.
pub enum DeleteError {
    /// The name is none that a profile can have.
    Name(NameError),
    /// There is no such profile.
    Missing,
    /// It is the active one.
    Active,
    /// It is the one new shells load.
    Startup,
}

/// What a `DeleteError` says.
pub enum DeleteFault {
    Name { name: Text, problem: NameProblem },
    Missing,
    Active,
    Startup,
}

impl View for DeleteError {
    type V = DeleteFault;

    open spec fn view(&self) -> DeleteFault {
        match self {
            DeleteError::Name(e) => DeleteFault::Name { name: e.name@, problem: e.problem },
            DeleteError::Missing => DeleteFault::Missing,
            DeleteError::Active => DeleteFault::Active,
            DeleteError::Startup => DeleteFault::Startup,
        }
    }
}

/// The fault in words.
pub open spec fn delete_fault_text(fault: DeleteFault, name: Text) -> Text {
    match fault {
        DeleteFault::Name { name, problem } => name_error_text(name, problem),
        DeleteFault::Missing => "no such profile: "@ + name,
        DeleteFault::Active => "profile '"@ + name + "' is "@
            + "currently active; run `envc deactivate` first"@ + ", or pass --force"@,
        DeleteFault::Startup => "profile '"@ + name + "' is "@
            + "the startup profile; run `envc disable` first"@ + ", or pass --force"@,
    }
}

impl DeleteError {
    /// The error in words.
    pub fn message(&self, name: &str) -> (r: String)
        ensures
            r@ == delete_fault_text(self@, name@),
    {
        match self {
            DeleteError::Name(e) => e.message(),
            DeleteError::Missing => cat2("no such profile: ", name),
            DeleteError::Active => cat5(
                "profile '",
                name,
                "' is ",
                "currently active; run `envc deactivate` first",
                ", or pass --force",
            ),
            DeleteError::Startup => cat5(
                "profile '",
                name,
                "' is ",
                "the startup profile; run `envc disable` first",
                ", or pass --force",
            ),
        }
    }
}

/// What deleting a profile asks for, besides removing its directory.
pub struct Deletion {
    /// Whether to forget the startup profile.
    pub clear_startup: bool,
    /// What to say once it is forgotten.
    pub startup_notes: Vec<String>,
    /// Whether to remove the restore stack.
    pub clear_stack: bool,
    /// What to say once it is removed.
    pub stack_notes: Vec<String>,
    /// What to tell in the end.
    pub report: String,
}

/// What a `Deletion` holds.
pub struct DeletionPlan {
    pub clear_startup: bool,
    pub startup_notes: Seq<Text>,
    pub clear_stack: bool,
    pub stack_notes: Seq<Text>,
    pub report: Text,
}

impl View for Deletion {
    type V = DeletionPlan;

    open spec fn view(&self) -> DeletionPlan {
        DeletionPlan {
            clear_startup: self.clear_startup,
            startup_notes: views(self.startup_notes@),
            clear_stack: self.clear_stack,
            stack_notes: views(self.stack_notes@),
            report: self.report@,
        }
    }
}

/// Lines, unless messages are not wanted.
pub open spec fn unless_quiet(quiet: bool, ls: Seq<Text>) -> Seq<Text> {
    if quiet {
        Seq::empty()
    } else {
        ls
    }
}

/// What deleting the profile `name` comes to. `there` says whether it exists;
/// `active` is the profile on the restore stack and `startup` the one new
/// shells load. Those two are deleted only by force.
pub open spec fn deletion(
    name: Text,
    force: bool,
    quiet: bool,
    there: bool,
    active: Option<Text>,
    startup: Option<Text>,
    dir: Text,
) -> Result<DeletionPlan, DeleteFault> {
    match name_problem(name) {
        Some(problem) => Err(DeleteFault::Name { name, problem }),
        None => if !there {
            Err(DeleteFault::Missing)
        } else if active == Some(name) && !force {
            Err(DeleteFault::Active)
        } else if startup == Some(name) && !force {
            Err(DeleteFault::Startup)
        } else {
            Ok(
                DeletionPlan {
                    clear_startup: startup == Some(name),
                    startup_notes: if startup == Some(name) {
                        notice(quiet, "cleared the startup profile ('"@ + name + "' deleted)"@)
                            + unless_quiet(
                            quiet,
                            seq![
                                "envc: warning: new shells load nothing until you pick one:"@,
                                "envc:          envc enable <name>"@,
                            ],
                        )
                    } else {
                        Seq::empty()
                    },
                    clear_stack: active == Some(name),
                    stack_notes: if active == Some(name) {
                        notice(quiet, "cleared the restore stack ('"@ + name + "')"@)
                            + unless_quiet(
                            quiet,
                            seq![
                                "envc: warning: this shell still holds those variables;"@,
                                "envc:          `envc deactivate` drops them."@,
                            ],
                        )
                    } else {
                        Seq::empty()
                    },
                    report: "deleted profile '"@ + name + "' ("@ + dir + ")"@,
                },
            )
        },
    }
}

fn is_name_of(o: Option<&str>, name: &str) -> (r: bool)
    ensures
        r == (str_opt(o) == Some(name@)),
{
    match o {
        Some(s) => same_text(s, name),
        None => false,
    }
}

/// Delete a profile. `there` says whether its directory, which messages show as
/// `dir`, exists; `active` is the profile on the restore stack and `startup` the
/// one new shells load.
pub fn cmd_delete(
    name: &str,
    force: bool,
    quiet: bool,
    there: bool,
    active: Option<&str>,
    startup: Option<&str>,
    dir: &str,
) -> (r: Result<Deletion, DeleteError>)
    ensures
        match r {
            Ok(d) => deletion(name@, force, quiet, there, str_opt(active), str_opt(startup), dir@)
                == Ok::<DeletionPlan, DeleteFault>(d@),
            Err(e) => deletion(name@, force, quiet, there, str_opt(active), str_opt(startup), dir@)
                == Err::<DeletionPlan, DeleteFault>(e@),
        },
{
    if let Err(e) = validate_profile_name(name) {
        return Err(DeleteError::Name(e));
    }
    if !there {
        return Err(DeleteError::Missing);
    }
    let is_active: bool = is_name_of(active, name);
    let is_startup: bool = is_name_of(startup, name);
    if is_active && !force {
        return Err(DeleteError::Active);
    }
    if is_startup && !force {
        return Err(DeleteError::Startup);
    }
    let ghost plan = deletion(
        name@,
        force,
        quiet,
        there,
        str_opt(active),
        str_opt(startup),
        dir@,
    )->Ok_0;
    let mut startup_notes: Vec<String> = Vec::new();
    if is_startup {
        startup_notes =
        notify(quiet, cat3("cleared the startup profile ('", name, "' deleted)").as_str());
        if !quiet {
            push_item(
                &mut startup_notes,
                "envc: warning: new shells load nothing until you pick one:".to_owned(),
            );
            push_item(&mut startup_notes, "envc:          envc enable <name>".to_owned());
        }
    }
    assert(views(startup_notes@) =~= plan.startup_notes);
    let mut stack_notes: Vec<String> = Vec::new();
    if is_active {
        stack_notes = notify(quiet, cat3("cleared the restore stack ('", name, "')").as_str());
        if !quiet {
            push_item(
                &mut stack_notes,
                "envc: warning: this shell still holds those variables;".to_owned(),
            );
            push_item(&mut stack_notes, "envc:          `envc deactivate` drops them.".to_owned());
        }
    }
    assert(views(stack_notes@) =~= plan.stack_notes);
    Ok(
        Deletion {
            clear_startup: is_startup,
            startup_notes,
            clear_stack: is_active,
            stack_notes,
            report: cat5("deleted profile '", name, "' (", dir, ")"),
        },
    )
}

} // verus!
