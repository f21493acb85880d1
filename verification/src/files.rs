//! What reading a file came to.
//!
//! The program reads the files and hands over what it got: the content, or the
//! words in which the operating system says why there is none. A file that may
//! be absent is handed over as an option.

use vstd::prelude::*;

use crate::dotenv::{
    complaint_text, located, parse_env, settings, Assignment, EnvError, EnvFault, Setting,
};
use crate::env::{Env, Vars};
use crate::stack::{
    parse_stack_state, stack_fault_text, stack_state, Record, Stack, StackError, StackFault,
};
use crate::startup::{parse_startup_state, read_startup, Startup};
use crate::text::{cat2, cat4, opt_view, views, Text};

verus! {

/// What was read.
pub open spec fn read_view(read: Result<String, String>) -> Result<Text, Text> {
    match read {
        Ok(content) => Ok(content@),
        Err(e) => Err(e@),
    }
}

/// What was read of a file that may be absent.
pub open spec fn read_opt_view(read: Option<Result<String, String>>) -> Option<Result<Text, Text>> {
    match read {
        Some(r) => Some(read_view(r)),
        None => None,
    }
}

pub open spec fn cannot_read(origin: Text, why: Text) -> Text {
    "cannot read "@ + origin + ": "@ + why
}

// ---------------------------------------------------------------------------
// Profiles
// ---------------------------------------------------------------------------

/// Why a profile's file gave no assignments.
pub enum EnvFileError {
    Unreadable(String),
    Broken(EnvError),
}

/// What an `EnvFileError` says.
pub enum EnvFileFault {
    Unreadable(Text),
    Broken(EnvFault),
}

impl View for EnvFileError {
    type V = EnvFileFault;

    open spec fn view(&self) -> EnvFileFault {
        match self {
            EnvFileError::Unreadable(why) => EnvFileFault::Unreadable(why@),
            EnvFileError::Broken(e) => EnvFileFault::Broken(e@),
        }
    }
}

/// The fault in words; `origin` says which file it is about.
pub open spec fn env_file_fault_text(origin: Text, fault: EnvFileFault) -> Text {
    match fault {
        EnvFileFault::Unreadable(why) => cannot_read(origin, why),
        EnvFileFault::Broken(e) => located(origin, e.line, complaint_text(e.reason)),
    }
}

/// The fault in fewer words: without the operating system's.
pub open spec fn env_file_fault_brief(origin: Text, fault: EnvFileFault) -> Text {
    match fault {
        EnvFileFault::Unreadable(_) => "cannot read "@ + origin,
        EnvFileFault::Broken(e) => located(origin, e.line, complaint_text(e.reason)),
    }
}

impl EnvFileError {
    /// The error in words; `origin` says which file it is about.
    pub fn message(&self, origin: &str) -> (r: String)
        ensures
            r@ == env_file_fault_text(origin@, self@),
    {
        match self {
            EnvFileError::Unreadable(why) => cat4("cannot read ", origin, ": ", why.as_str()),
            EnvFileError::Broken(e) => e.message(origin),
        }
    }

    /// The error in fewer words: without the operating system's.
    pub fn brief(&self, origin: &str) -> (r: String)
        ensures
            r@ == env_file_fault_brief(origin@, self@),
    {
        match self {
            EnvFileError::Unreadable(_) => cat2("cannot read ", origin),
            EnvFileError::Broken(e) => e.message(origin),
        }
    }
}

/// What a profile's file assigns.
pub open spec fn env_file(read: Result<Text, Text>, env: Vars) -> Result<Seq<Setting>, EnvFileFault> {
    match read {
        Ok(content) => match settings(content, env) {
            Ok(s) => Ok(s),
            Err(e) => Err(EnvFileFault::Broken(e)),
        },
        Err(why) => Err(EnvFileFault::Unreadable(why)),
    }
}

/// The views of assignments or of the reason why there are none.
pub open spec fn env_file_view(r: Result<Vec<Assignment>, EnvFileError>) -> Result<
    Seq<Setting>,
    EnvFileFault,
> {
    match r {
        Ok(v) => Ok(views(v@)),
        Err(e) => Err(e@),
    }
}

/// Parses a profile's `.env`.
pub fn parse_env_file(read: &Result<String, String>, vars: &Env) -> (r: Result<
    Vec<Assignment>,
    EnvFileError,
>)
    ensures
        env_file_view(r) == env_file(read_view(*read), vars@),
{
    match read {
        Ok(content) => match parse_env(content.as_str(), vars) {
            Ok(v) => Ok(v),
            Err(e) => Err(EnvFileError::Broken(e)),
        },
        Err(why) => Err(EnvFileError::Unreadable(why.as_str().to_owned())),
    }
}

// ---------------------------------------------------------------------------
// Kept state
// ---------------------------------------------------------------------------

/// Why kept state could not be loaded.
pub enum LoadError {
    Unreadable(String),
    Broken(StackError),
}

/// What a `LoadError` says.
pub enum LoadFault {
    Unreadable(Text),
    Broken(StackFault),
}

impl View for LoadError {
    type V = LoadFault;

    open spec fn view(&self) -> LoadFault {
        match self {
            LoadError::Unreadable(why) => LoadFault::Unreadable(why@),
            LoadError::Broken(e) => LoadFault::Broken(e@),
        }
    }
}

/// The fault in words; `origin` says which file it is about.
pub open spec fn load_fault_text(origin: Text, fault: LoadFault) -> Text {
    match fault {
        LoadFault::Unreadable(why) => cannot_read(origin, why),
        LoadFault::Broken(e) => stack_fault_text(origin, e),
    }
}

impl LoadError {
    /// The error in words; `origin` says which file it is about.
    pub fn message(&self, origin: &str) -> (r: String)
        ensures
            r@ == load_fault_text(origin@, self@),
    {
        match self {
            LoadError::Unreadable(why) => cat4("cannot read ", origin, ": ", why.as_str()),
            LoadError::Broken(e) => e.message(origin),
        }
    }
}

/// The restore stack that a file holds: none where the file is absent or empty.
pub open spec fn loaded_stack(read: Option<Result<Text, Text>>) -> Result<Option<Record>, LoadFault> {
    match read {
        None => Ok(None),
        Some(Err(why)) => Err(LoadFault::Unreadable(why)),
        Some(Ok(content)) => match stack_state(content) {
            Ok(s) => Ok(s),
            Err(e) => Err(LoadFault::Broken(e)),
        },
    }
}

/// The startup profile that a file holds: none where the file is absent or
/// names none.
pub open spec fn loaded_startup(read: Option<Result<Text, Text>>) -> Result<Option<Text>, LoadFault> {
    match read {
        None => Ok(None),
        Some(Err(why)) => Err(LoadFault::Unreadable(why)),
        Some(Ok(content)) => Ok(read_startup(content)),
    }
}

/// The views of state, if any, or of the reason why it could not be loaded.
pub open spec fn load_view<T: View>(r: Result<Option<T>, LoadError>) -> Result<
    Option<T::V>,
    LoadFault,
> {
    match r {
        Ok(s) => Ok(opt_view(s)),
        Err(e) => Err(e@),
    }
}

/// Loads the restore stack.
pub fn load_stack(read: &Option<Result<String, String>>) -> (r: Result<Option<Stack>, LoadError>)
    ensures
        load_view(r) == loaded_stack(read_opt_view(*read)),
{
    match read {
        None => Ok(None),
        Some(Err(why)) => Err(LoadError::Unreadable(why.as_str().to_owned())),
        Some(Ok(content)) => match parse_stack_state(content.as_str()) {
            Ok(s) => Ok(s),
            Err(e) => Err(LoadError::Broken(e)),
        },
    }
}

/// Loads the startup profile.
pub fn load_startup(read: &Option<Result<String, String>>) -> (r: Result<Option<Startup>, LoadError>)
    ensures
        load_view(r) == loaded_startup(read_opt_view(*read)),
{
    match read {
        None => Ok(None),
        Some(Err(why)) => Err(LoadError::Unreadable(why.as_str().to_owned())),
        Some(Ok(content)) => Ok(parse_startup_state(content.as_str())),
    }
}

/// The content of a file that may be absent: nothing, where it is.
pub open spec fn existing(read: Option<Result<Text, Text>>) -> Result<Text, LoadFault> {
    match read {
        None => Ok(Seq::empty()),
        Some(Err(why)) => Err(LoadFault::Unreadable(why)),
        Some(Ok(content)) => Ok(content),
    }
}

/// The content of a file that may be absent: nothing, where it is.
pub fn read_if_exists(read: &Option<Result<String, String>>) -> (r: Result<String, LoadError>)
    ensures
        match r {
            Ok(content) => existing(read_opt_view(*read)) == Ok::<Text, LoadFault>(content@),
            Err(e) => existing(read_opt_view(*read)) == Err::<Text, LoadFault>(e@),
        },
{
    match read {
        None => Ok(String::new()),
        Some(Err(why)) => Err(LoadError::Unreadable(why.as_str().to_owned())),
        Some(Ok(content)) => Ok(content.as_str().to_owned()),
    }
}

} // verus!
