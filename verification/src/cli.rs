//! Commands.

use vstd::prelude::*;

use crate::shell::{named_shell, str_opt, wanted_shell, Shell, UnknownShell};

verus! {

/// What was asked for.
pub enum Command {
    Create { name: String, force: bool },
    List,
    Delete { name: String, force: bool },
    Activate { name: String },
    Deactivate,
    Init,
    Enable(Option<String>),
    Disable,
    Stack,
    Status,
    Autoload,
}

/// A command with all that it goes by.
pub enum Job {
    Create { name: String, force: bool },
    List,
    Delete { name: String, force: bool, quiet: bool },
    Activate { name: String, quiet: bool, shell: Shell },
    Deactivate { quiet: bool, shell: Shell },
    Init { quiet: bool },
    Enable(Option<String>),
    Disable { quiet: bool },
    Stack,
    Status,
    Autoload { shell: Shell },
}

/// What a command amounts to once the shell is known.
pub open spec fn job(command: Command, quiet: bool, shell: Shell) -> Job {
    match command {
        Command::Create { name, force } => Job::Create { name, force },
        Command::List => Job::List,
        Command::Delete { name, force } => Job::Delete { name, force, quiet },
        Command::Activate { name } => Job::Activate { name, quiet, shell },
        Command::Deactivate => Job::Deactivate { quiet, shell },
        Command::Init => Job::Init { quiet },
        Command::Enable(name) => Job::Enable(name),
        Command::Disable => Job::Disable { quiet },
        Command::Stack => Job::Stack,
        Command::Status => Job::Status,
        Command::Autoload => Job::Autoload { shell },
    }
}

/// What to run: the command, for the shell that `flag` (`--shell`) or `variable`
/// (`ENVC_SHELL`) names, else for the one that was detected. An unknown shell is
/// refused before any command is looked at.
pub fn run(
    command: Command,
    quiet: bool,
    flag: Option<&str>,
    variable: Option<&str>,
    detected: Shell,
) -> (r: Result<Job, UnknownShell>)
    ensures
        match wanted_shell(str_opt(flag), str_opt(variable)) {
            None => r == Ok::<Job, UnknownShell>(job(command, quiet, detected)),
            Some(name) => match named_shell(name) {
                Some(shell) => r == Ok::<Job, UnknownShell>(job(command, quiet, shell)),
                None => r matches Err(e) && e.name@ == name,
            },
        },
{
    let shell: Shell = match Shell::resolve(flag, variable, detected) {
        Ok(shell) => shell,
        Err(e) => {
            return Err(e);
        },
    };
    Ok(
        match command {
            Command::Create { name, force } => Job::Create { name, force },
            Command::List => Job::List,
            Command::Delete { name, force } => Job::Delete { name, force, quiet },
            Command::Activate { name } => Job::Activate { name, quiet, shell },
            Command::Deactivate => Job::Deactivate { quiet, shell },
            Command::Init => Job::Init { quiet },
            Command::Enable(name) => Job::Enable(name),
            Command::Disable => Job::Disable { quiet },
            Command::Stack => Job::Stack,
            Command::Status => Job::Status,
            Command::Autoload => Job::Autoload { shell },
        },
    )
}

} // verus!
