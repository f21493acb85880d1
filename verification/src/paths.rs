//! Where things are.
//!
//! Paths are given as the names that lead there, one directory after the other,
//! from a directory that only the running process knows: envc's own, the home
//! directory or the one for temporary files.

use vstd::prelude::*;
use vstd::slice::slice_subrange;

use crate::text::{
    cat2, cat3, chars_of, has_part, lowercase, lowered, occurs, push_item, same, text_of, views,
    Text,
};

verus! {

pub const PROFILE_ENV_FILE: &'static str = ".env";

/// `profiles`, below envc's directory.
pub fn profiles_dir() -> (r: Vec<String>)
    ensures
        views(r@) == seq!["profiles"@],
{
    let mut path: Vec<String> = Vec::new();
    push_item(&mut path, "profiles".to_owned());
    assert(views(path@) =~= seq!["profiles"@]);
    path
}

/// `profiles/<name>`, below envc's directory.
pub fn profile_dir(name: &str) -> (r: Vec<String>)
    ensures
        views(r@) == seq!["profiles"@, name@],
{
    let mut path: Vec<String> = profiles_dir();
    push_item(&mut path, name.to_owned());
    path
}

/// `profiles/<name>/.env` -- the file a profile loads.
pub fn profile_env_file(name: &str) -> (r: Vec<String>)
    ensures
        views(r@) == seq!["profiles"@, name@, ".env"@],
{
    let mut path: Vec<String> = profile_dir(name);
    push_item(&mut path, PROFILE_ENV_FILE.to_owned());
    path
}

fn one_name(name: &str) -> (r: Vec<String>)
    ensures
        views(r@) == seq![name@],
{
    let mut path: Vec<String> = Vec::new();
    push_item(&mut path, name.to_owned());
    assert(views(path@) =~= seq![name@]);
    path
}

/// `stack` -- the restore stack.
pub fn stack_path() -> (r: Vec<String>)
    ensures
        views(r@) == seq!["stack"@],
{
    one_name("stack")
}

/// `startup` -- the profile new shells load.
pub fn startup_path() -> (r: Vec<String>)
    ensures
        views(r@) == seq!["startup"@],
{
    one_name("startup")
}

/// `user-stack` -- Windows only: what the user-level variables held before
/// `enable` overwrote them, so `disable` can put them back.
///
/// A separate file from the session stack: the two layers have different
/// lifetimes (`deactivate` must not undo what `disable` is for), and they can
/// both be live at once.
pub fn user_stack_path() -> (r: Vec<String>)
    ensures
        views(r@) == seq!["user-stack"@],
{
    one_name("user-stack")
}

/// `envc/<what>.cmd`, below the directory for temporary files -- the hand-off
/// file for cmd.
pub fn batch_path(what: &str) -> (r: Vec<String>)
    ensures
        views(r@) == seq!["envc"@, what@ + ".cmd"@],
{
    let mut path: Vec<String> = one_name("envc");
    push_item(&mut path, cat2(what, ".cmd"));
    path
}

// ---------------------------------------------------------------------------
// Directories that the environment names
// ---------------------------------------------------------------------------

/// The variable that names the home directory, or the complaint that none does.
/// `home` and `userprofile` say whether that variable holds anything.
///
/// Windows sets USERPROFILE (and, in shells that emulate POSIX, HOME); POSIX
/// shells set HOME. Accepting both keeps `envc` usable from git-bash too.
pub fn home_dir(windows: bool, home: bool, userprofile: bool) -> (r: Result<&'static str, String>)
    ensures
        match r {
            Ok(name) => (home && name@ == "HOME"@) || (!home && windows && userprofile && name@
                == "USERPROFILE"@),
            Err(e) => !home && !(windows && userprofile) && e@ == if windows {
                "HOME / USERPROFILE is not set"@
            } else {
                "HOME is not set"@
            },
        },
{
    if home {
        Ok("HOME")
    } else if windows && userprofile {
        Ok("USERPROFILE")
    } else if windows {
        Err("HOME / USERPROFILE is not set".to_owned())
    } else {
        Err("HOME is not set".to_owned())
    }
}

/// Where envc keeps everything: the directory that `ENVC_HOME` names, else the
/// name to go to from the home directory. `variable` says whether `ENVC_HOME`
/// holds anything.
pub fn envc_home(variable: bool) -> (r: Option<&'static str>)
    ensures
        match r {
            None => variable,
            Some(name) => !variable && name@ == ".envc"@,
        },
{
    if variable {
        None
    } else {
        Some(".envc")
    }
}

/// Which file the hook goes into.
#[derive(Debug, Clone, Copy, PartialEq, Eq, Structural)]
pub enum RcSource {
    /// The one `ENVC_RC` names.
    EnvcRc,
    /// The one `ENVC_BASHRC` names.
    EnvcBashrc,
    /// The startup file of this shell, in the home directory.
    Home(ShellKind),
}

/// The rc file `init` / `enable` / `disable` patch.
///
/// `ENVC_RC` overrides the detection; `ENVC_BASHRC` is accepted as a legacy
/// alias for it. The arguments say whether the variables hold anything, and
/// which shell was detected.
pub fn rc_file(envc_rc: bool, envc_bashrc: bool, detected: ShellKind) -> (r: RcSource)
    ensures
        r == (if envc_rc {
            RcSource::EnvcRc
        } else if envc_bashrc {
            RcSource::EnvcBashrc
        } else {
            RcSource::Home(detected)
        }),
{
    if envc_rc {
        RcSource::EnvcRc
    } else if envc_bashrc {
        RcSource::EnvcBashrc
    } else {
        RcSource::Home(detected)
    }
}

// ---------------------------------------------------------------------------
// The login shell
// ---------------------------------------------------------------------------

/// Which shell's startup file we are dealing with. POSIX only: Windows has no
/// rc file to pick.
#[derive(Debug, Clone, Copy, PartialEq, Eq, Structural)]
pub enum ShellKind {
    Bash,
    Zsh,
}

pub open spec fn kind_name(kind: ShellKind) -> Text {
    match kind {
        ShellKind::Bash => "bash"@,
        ShellKind::Zsh => "zsh"@,
    }
}

pub open spec fn kind_rc_name(kind: ShellKind) -> Text {
    match kind {
        ShellKind::Bash => ".bashrc"@,
        ShellKind::Zsh => ".zshrc"@,
    }
}

pub open spec fn default_kind(macos: bool) -> ShellKind {
    if macos {
        ShellKind::Zsh
    } else {
        ShellKind::Bash
    }
}

/// Where the part of a path begins that ends at `n`: behind the slash in front of
/// it.
pub open spec fn part_start(path: Text, n: int) -> int
    decreases n,
{
    if n <= 0 || path[n - 1] == '/' {
        n
    } else {
        part_start(path, n - 1)
    }
}

/// The last name in the first `n` characters of a path: parts that are empty or
/// `.` do not count, and `..` is no name.
pub open spec fn last_name(path: Text, n: int) -> Text
    decreases n,
    via last_name_decreases
{
    if n <= 0 {
        Seq::empty()
    } else {
        let start: int = part_start(path, n);
        let part = path.subrange(start, n);
        if part == "."@ || part.len() == 0 {
            if start <= 0 {
                Seq::empty()
            } else {
                last_name(path, start - 1)
            }
        } else if part == ".."@ {
            Seq::empty()
        } else {
            part
        }
    }
}

#[via_fn]
proof fn last_name_decreases(path: Text, n: int) {
    lemma_part_start(path, n);
}

proof fn lemma_part_start(path: Text, n: int)
    ensures
        n >= 0 ==> 0 <= part_start(path, n) <= n,
    decreases n,
{
    if n > 0 && path[n - 1] != '/' {
        lemma_part_start(path, n - 1);
    }
}

/// The last name in a path, empty where there is none.
pub fn file_name(path: &str) -> (r: String)
    ensures
        r@ == last_name(path@, path@.len() as int),
{
    proof {
        reveal_strlit(".");
        reveal_strlit("..");
    }
    let chars: Vec<char> = chars_of(path);
    let mut n: usize = chars.len();
    while n > 0
        invariant
            n <= chars@.len(),
            chars@ == path@,
            last_name(path@, path@.len() as int) == last_name(path@, n as int),
        decreases n,
    {
        let mut start: usize = n;
        while start > 0 && chars[start - 1] != '/'
            invariant
                start <= n <= chars@.len(),
                chars@ == path@,
                part_start(path@, n as int) == part_start(path@, start as int),
            decreases start,
        {
            start -= 1;
        }
        let part: &[char] = slice_subrange(&chars, start, n);
        if part.len() > 0 && !same(part, &chars_of(".")) {
            if same(part, &chars_of("..")) {
                return String::new();
            }
            return text_of(part);
        }
        if start == 0 {
            return String::new();
        }
        n = start - 1;
    }
    String::new()
}

/// The login shell, told from the last name in `$SHELL`.
pub open spec fn login_shell(shell: Text, macos: bool) -> ShellKind {
    let name = lowercase(last_name(shell, shell.len() as int));
    if occurs(name, "zsh"@) {
        ShellKind::Zsh
    } else if occurs(name, "bash"@) {
        ShellKind::Bash
    } else {
        default_kind(macos)
    }
}

impl ShellKind {
    pub fn name(self) -> (r: &'static str)
        ensures
            r@ == kind_name(self),
    {
        match self {
            ShellKind::Bash => "bash",
            ShellKind::Zsh => "zsh",
        }
    }

    /// The startup file an interactive shell of this kind reads.
    pub fn rc_name(self) -> (r: &'static str)
        ensures
            r@ == kind_rc_name(self),
    {
        match self {
            ShellKind::Bash => ".bashrc",
            ShellKind::Zsh => ".zshrc",
        }
    }

    /// What a fresh install on this OS should target: macOS has shipped zsh as
    /// the login shell since Catalina, Linux is almost always bash.
    pub fn default_for_os(macos: bool) -> (r: ShellKind)
        ensures
            r == default_kind(macos),
    {
        if macos {
            ShellKind::Zsh
        } else {
            ShellKind::Bash
        }
    }
}

/// Guess the login shell from `$SHELL`, empty where it is not set, falling back
/// to the OS default. The rc file belongs to the login shell, not to whatever
/// shell runs `envc`.
pub fn detect_shell(shell: &str, macos: bool) -> (r: ShellKind)
    ensures
        r == login_shell(shell@, macos),
{
    let name: Vec<char> = lowered(&chars_of(file_name(shell).as_str()));
    if has_part(&name, &chars_of("zsh")) {
        ShellKind::Zsh
    } else if has_part(&name, &chars_of("bash")) {
        ShellKind::Bash
    } else {
        ShellKind::default_for_os(macos)
    }
}

/// Where the detection came from, in words.
pub open spec fn detection_text(shell: Option<Text>, os: Text) -> Text {
    match shell {
        Some(s) => if s.len() > 0 {
            "$SHELL="@ + s
        } else {
            "the "@ + os + " default"@
        },
        None => "the "@ + os + " default"@,
    }
}

/// Where the detection came from, for the `init` report.
pub fn detection_source(shell: Option<&str>, os: &str) -> (r: String)
    ensures
        r@ == detection_text(
            match shell {
                Some(s) => Some(s@),
                None => None,
            },
            os@,
        ),
{
    match shell {
        Some(s) => if !s.is_empty() {
            cat2("$SHELL=", s)
        } else {
            cat3("the ", os, " default")
        },
        None => cat3("the ", os, " default"),
    }
}

// ---------------------------------------------------------------------------
// Paths in messages
// ---------------------------------------------------------------------------

/// A path as messages show it: under `~` where it lies in the home directory.
pub open spec fn tilde_text(path: Text, below_home: Option<Text>) -> Text {
    match below_home {
        Some(rest) => if rest.len() == 0 {
            "~"@
        } else {
            "~/"@ + rest
        },
        None => path,
    }
}

/// Show paths under $HOME as `~/...` to keep listings short. `below_home` is
/// what of the path lies below the home directory, if it lies there.
pub fn tilde(path: &str, below_home: Option<&str>) -> (r: String)
    ensures
        r@ == tilde_text(
            path@,
            match below_home {
                Some(rest) => Some(rest@),
                None => None,
            },
        ),
{
    match below_home {
        Some(rest) => if rest.is_empty() {
            "~".to_owned()
        } else {
            cat2("~/", rest)
        },
        None => path.to_owned(),
    }
}

/// Where to install the program: a path, and whether it starts in the home
/// directory.
pub struct InstallPath {
    pub below_home: bool,
    pub path: &'static str,
}

/// `~/.local/bin` on Linux, `/usr/local/bin` on macOS (where the former is
/// rarely on PATH), and there too where the home directory is not known.
pub fn suggested_install_path(macos: bool, home_known: bool) -> (r: InstallPath)
    ensures
        r.below_home == (!macos && home_known),
        r.path@ == if !macos && home_known {
            ".local/bin/envc"@
        } else {
            "/usr/local/bin/envc"@
        },
{
    if macos || !home_known {
        InstallPath { below_home: false, path: "/usr/local/bin/envc" }
    } else {
        InstallPath { below_home: true, path: ".local/bin/envc" }
    }
}

} // verus!
