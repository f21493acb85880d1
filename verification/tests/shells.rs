use envc::activation::{cmd_activate, Emitted};
use envc::dotenv::{parse_env, Assignment};
use envc::env::{Env, Var};
use envc::loading::{
    cmd_disable, cmd_enable, cmd_init_windows, path_warning, startup_is_on, startup_where, EnablePlace,
    StartupPlace,
};
use envc::palette::Palette;
use envc::paths::{
    batch_path, envc_home, home_dir, profile_dir, profile_env_file, profiles_dir, stack_path,
    startup_path, suggested_install_path, tilde, user_stack_path, ShellKind,
};
use envc::rc::{hook_block, rc_disable, rc_enable, rc_is_enabled, strip_block, EnableOutcome};
use envc::shell::{
    is_identifier, is_safe_unquoted, quote, quote_powershell, set_cmd, Shell,
};
use envc::startup::Startup;
use envc::user_env::{
    enable_user_env, parse_user_stack_state, powershell, query_user_env, read_user_vars,
    user_vars_query, write_user_vars, Attempt, NextStep, UserStack, UserVar,
};

// ---------------------------------------------------------------------------
// Code for shells
// ---------------------------------------------------------------------------

#[test]
fn plain_words_stay_unquoted() {
    assert_eq!(quote(""), "''");
    assert_eq!(quote("/usr/bin:a=b,c+d%e@f^g_h-1.2"), "/usr/bin:a=b,c+d%e@f^g_h-1.2");
    assert_eq!(quote("a b"), "'a b'");
    assert_eq!(quote("it's"), "'it'\\''s'");
    assert_eq!(quote("~"), "'~'");
    assert!(is_safe_unquoted('^') && !is_safe_unquoted('$') && !is_safe_unquoted('ä'));
}

#[test]
fn each_shell_has_its_own_syntax() {
    assert_eq!(quote_powershell(""), "''");
    assert_eq!(quote_powershell("it's"), "'it''s'");
    assert_eq!(set_cmd("A", "50%\""), "set \"A=50%%\"\"");
    assert_eq!(Shell::Posix.assign("A", "b c"), "export A='b c'");
    assert_eq!(Shell::Posix.unset("A"), "unset A");
    assert_eq!(Shell::PowerShell.assign("A", "b"), "$env:A='b'");
    assert_eq!(Shell::PowerShell.unset("A"), "Remove-Item Env:A -ErrorAction SilentlyContinue");
    assert_eq!(Shell::Cmd.assign("A", "b"), "set \"A=b\"");
    assert_eq!(Shell::Cmd.unset("A"), "set \"A=\"");
    assert_eq!(Shell::Posix.name(), "bash");
    assert_eq!(Shell::PowerShell.name(), "powershell");
    assert_eq!(Shell::Cmd.name(), "cmd");
}

#[test]
fn shells_go_by_several_names() {
    for (name, shell) in [
        ("bash", Shell::Posix),
        ("zsh", Shell::Posix),
        ("sh", Shell::Posix),
        ("posix", Shell::Posix),
        ("powershell", Shell::PowerShell),
        ("pwsh", Shell::PowerShell),
        (" ps\n", Shell::PowerShell),
        ("cmd", Shell::Cmd),
        ("cmd.exe", Shell::Cmd),
        ("bat", Shell::Cmd),
        ("batch", Shell::Cmd),
    ] {
        assert!(matches!(Shell::resolve(Some(name), None, Shell::Posix), Ok(s) if s == shell));
    }
    assert!(Shell::resolve(Some(""), Some("bash"), Shell::Posix).is_err());
    assert!(matches!(Shell::resolve(None, Some("cmd"), Shell::Posix), Ok(Shell::Cmd)));
    assert!(matches!(Shell::resolve(None, Some(" "), Shell::Cmd), Ok(Shell::Cmd)));
    let unknown = Shell::resolve(Some("Bash"), None, Shell::Posix).err().unwrap();
    assert_eq!(unknown.message(), "unknown shell \"Bash\"; expected bash, powershell or cmd");
}

#[test]
fn names_of_variables() {
    assert!(is_identifier("A") && is_identifier("_a9"));
    assert!(!is_identifier("") && !is_identifier("9a") && !is_identifier("a-b") && !is_identifier("ä"));
}

#[test]
fn the_shell_is_detected_from_the_environment() {
    let code = |shell: Shell| {
        let file = Some(Ok("FOO=bar\n".to_string()));
        match cmd_activate("work", false, shell, &file, &Env::new(), &None, false) {
            Ok(a) => a.emitted,
            Err(_) => panic!("should succeed"),
        }
    };
    assert!(
        matches!(code(Shell::detect(true, true)), Emitted::Printed(code) if code.contains("$env:"))
    );
    assert!(matches!(code(Shell::detect(true, false)), Emitted::Batch(_)));
    assert_eq!(Shell::detect(false, true), Shell::Posix);
}

// ---------------------------------------------------------------------------
// The hook
// ---------------------------------------------------------------------------

const HOOK: &str = "
# >>> envc initialize >>>
# envc -- managed; do not edit.
if command -v envc >/dev/null 2>&1; then
    envc() {
        case \"${1:-}\" in
            activate|use|deactivate|de|unuse)
                # ENVC_WRAPPED: output is eval'd, not printed.
                eval \"$(ENVC_WRAPPED=1 command envc \"$@\")\"
                ;;
            *)
                command envc \"$@\"
                ;;
        esac
    }
    eval \"$(command envc autoload)\"
fi
# <<< envc initialize <<<
";

#[test]
fn the_hook_goes_in_and_comes_out() {
    assert_eq!(hook_block(), HOOK);
    let (on, outcome) = rc_enable("a\nb\n");
    assert_eq!(on, format!("a\nb\n{HOOK}"));
    assert_eq!(outcome, EnableOutcome::Installed);
    assert!(rc_is_enabled(&on));
    assert_eq!(rc_disable(&on).as_deref(), Some("a\nb\n"));
    assert_eq!(rc_disable("a\nb\n"), None);
    // Switching it on again changes nothing.
    let (again, outcome) = rc_enable(&on);
    assert_eq!(again, on);
    assert_eq!(outcome, EnableOutcome::Refreshed);
    // What stands behind the block stays.
    let (moved, _) = rc_enable(&format!("{on}c\n"));
    assert_eq!(moved, format!("a\nb\nc\n{HOOK}"));
}

#[test]
fn every_file_comes_out_as_it_was() {
    for content in [
        "", "\n", "\n\n", "a", "a\n", "a\n\n", "a\r\n", "a\r\nb\r\n\r\n", "a\r\nb", "a\r", "\r\n", " ",
        "a\r\r\nb\n",
    ] {
        let (on, outcome) = rc_enable(content);
        assert_eq!(outcome, EnableOutcome::Installed);
        assert!(rc_is_enabled(&on));
        assert!(on.starts_with(content));
        assert_eq!(rc_enable(&on), (on.clone(), EnableOutcome::Refreshed));
        assert_eq!(rc_disable(&on).as_deref(), Some(content));
        assert_eq!(rc_disable(content), None);
    }
    // A last line that is not ended is told by the end of the block.
    let (on, _) = rc_enable("a");
    assert_eq!(format!("{on}\n"), format!("a\n{HOOK}"));
}

#[test]
fn blocks_are_cut_out() {
    let block = "# >>> envc initialize >>>  \nold\n# <<< envc initialize <<<\t\n";
    assert_eq!(strip_block(&format!("a\n\n{block}b")), ("a\nb".to_string(), true));
    assert_eq!(strip_block(&format!("\n{block}")), (String::new(), true));
    assert_eq!(
        strip_block("\n# >>> envc initialize >>>\n# <<< envc initialize <<<\nA=1\n"),
        ("A=1\n".to_string(), true)
    );
    assert_eq!(
        strip_block("x\r\n\r\n# >>> envc initialize >>>\r\n# <<< envc initialize <<<\r\ny\r\n"),
        ("x\r\ny\r\n".to_string(), true)
    );
    assert_eq!(strip_block(&format!("x\n{block}y\n")), ("x\ny\n".to_string(), true));
    assert_eq!(strip_block("a\n# <<< envc initialize <<<\nb\n"), ("a\nb\n".to_string(), false));
    assert_eq!(strip_block("a\n# >>> envc initialize >>>\nb\n"), ("a\n".to_string(), true));
    assert_eq!(strip_block(""), (String::new(), false));
    assert_eq!(strip_block("a"), ("a".to_string(), false));
    // A marker that is not alone on its line is no marker, but is found.
    assert_eq!(rc_disable("echo # >>> envc initialize >>>\n"), None);
    assert!(rc_is_enabled("echo # >>> envc initialize >>>\n"));
}

// ---------------------------------------------------------------------------
// Places
// ---------------------------------------------------------------------------

#[test]
fn places() {
    assert_eq!(profiles_dir(), vec!["profiles"]);
    assert_eq!(profile_dir("work"), vec!["profiles", "work"]);
    assert_eq!(profile_env_file("work"), vec!["profiles", "work", ".env"]);
    assert_eq!(stack_path(), vec!["stack"]);
    assert_eq!(startup_path(), vec!["startup"]);
    assert_eq!(user_stack_path(), vec!["user-stack"]);
    assert_eq!(batch_path("activate"), vec!["envc", "activate.cmd"]);
    assert_eq!(envc_home(true), None);
    assert_eq!(envc_home(false), Some(".envc"));
    assert_eq!(home_dir(false, true, true), Ok("HOME"));
    assert_eq!(home_dir(true, false, true), Ok("USERPROFILE"));
    assert_eq!(home_dir(false, false, true), Err("HOME is not set".to_string()));
    assert_eq!(home_dir(true, false, false), Err("HOME / USERPROFILE is not set".to_string()));
    assert_eq!(tilde("/home/me/x", Some("x")), "~/x");
    assert_eq!(tilde("/home/me", Some("")), "~");
    assert_eq!(tilde("/etc", None), "/etc");
    assert_eq!(suggested_install_path(false, true).path, ".local/bin/envc");
    assert_eq!(suggested_install_path(true, true).path, "/usr/local/bin/envc");
    assert!(!suggested_install_path(false, false).below_home);
    assert_eq!(ShellKind::default_for_os(true).name(), "zsh");
    assert_eq!(ShellKind::Bash.rc_name(), ".bashrc");
    assert_eq!(
        path_warning(false, "/x/envc", "/y/envc"),
        vec![
            "",
            "envc: warning: not on PATH, so the hook cannot fire in new shells.",
            "envc:          install -Dm755 /x/envc /y/envc",
        ]
    );
    assert_eq!(path_warning(true, "", ""), Vec::<String>::new());
}

#[test]
fn colors() {
    let on = Palette::new(true, false);
    assert_eq!(on.bold("x"), "\x1b[1mx\x1b[0m");
    assert_eq!(on.dim("x"), "\x1b[2mx\x1b[0m");
    assert_eq!(on.green("x"), "\x1b[32mx\x1b[0m");
    assert_eq!(on.yellow("x"), "\x1b[33mx\x1b[0m");
    assert_eq!(on.red("x"), "\x1b[31mx\x1b[0m");
    assert_eq!(on.paint("7", ""), "\x1b[7m\x1b[0m");
    assert_eq!(Palette::new(true, true).bold("x"), "x");
    assert_eq!(Palette::new(false, false).bold("x"), "x");
}

// ---------------------------------------------------------------------------
// User-level variables
// ---------------------------------------------------------------------------

fn work(content: &str) -> Vec<Assignment> {
    let home = Env::from_vars(vec![Var { key: "HOME".to_string(), value: "C:\\me".to_string() }]);
    parse_env(content, &home).unwrap_or_else(|e| panic!("{}", e.message("f")))
}

#[test]
fn enable_writes_user_level_variables() {
    let assignments = work("FOO=from-work\nBAR=$HOME\n");
    assert_eq!(
        query_user_env("work", &assignments),
        Ok("'FOO','BAR' | ForEach-Object { $v = [Environment]::GetEnvironmentVariable($_,'User'); if ($null -eq $v) { $_ } else { \"$_=$v\" } }".to_string())
    );
    let startup = Startup { profile: "work".to_string() };
    let plan = enable_user_env(startup, &assignments, "FOO\r\nBAR=it's=old\r\n", &None);
    assert_eq!(
        plan.script.as_deref(),
        Some("[Environment]::SetEnvironmentVariable('FOO','from-work','User'); [Environment]::SetEnvironmentVariable('BAR','C:\\me','User')")
    );
    assert_eq!(plan.startup.profile, "work");
    assert!(plan.stack.render().ends_with("-FOO\n+FOO=from-work\n-BAR=it's=old\n+BAR=C:\\\\me\n"));
    assert_eq!(
        plan.report,
        vec![
            "startup loading enabled: work",
            "  wrote 2 variables to your user environment",
            "  new shells and programs see them; this one does not",
            "  `envc disable` puts the previous values back",
        ]
    );
    assert_eq!(
        query_user_env("none", &Vec::new()),
        Err("profile 'none' sets no variables".to_string())
    );
}

#[test]
fn disable_restores_a_value_that_was_already_there() {
    let assignments = work("PRE_EXISTING=from-work\nNEW=x\n");
    let startup = Startup { profile: "work".to_string() };
    let on = enable_user_env(startup, &assignments, "PRE_EXISTING=original\r\nNEW\r\n", &None);
    let kept: Option<UserStack> = match parse_user_stack_state(&on.stack.render()) {
        Ok(s) => s,
        Err(e) => panic!("{}", e.message("user-stack")),
    };
    let place = StartupPlace::UserEnvironment { stack: None };
    assert!(!startup_is_on(&place));
    assert_eq!(startup_where(&place), "user environment");
    let place = StartupPlace::UserEnvironment { stack: kept };
    assert!(startup_is_on(&place));
    let off = cmd_disable(false, &place, Some("work"));
    assert_eq!(
        off.script.as_deref(),
        Some("[Environment]::SetEnvironmentVariable('PRE_EXISTING','original','User'); [Environment]::SetEnvironmentVariable('NEW',$null,'User')")
    );
    assert!(off.clear_user_stack && off.rc.is_none());
    assert_eq!(off.report, vec!["startup loading disabled", "  restored 2 user variables"]);
    assert_eq!(
        off.notes,
        vec![
            "  'work' remembered; a bare `envc enable` turns it back on",
            "  this shell keeps its profile -- `envc deactivate` drops it.",
        ]
    );
    let already = cmd_disable(false, &StartupPlace::UserEnvironment { stack: None }, None);
    assert_eq!(already.report, vec!["startup loading was already disabled"]);
    assert!(already.script.is_none() && !already.clear_user_stack && already.notes.is_empty());
}

#[test]
fn a_second_enable_remembers_the_values_from_before_the_first() {
    let enable = |name: &str, content: &str, output: &str, file: &str| {
        let place = EnablePlace::UserEnvironment {
            assignments: work(content),
            output: output.to_string(),
            earlier: parse_user_stack_state(file).unwrap_or(None),
        };
        let plan = cmd_enable(Startup { profile: name.to_string() }, &place)
            .unwrap_or_else(|e| panic!("{e}"));
        assert!(plan.rc.is_none() && plan.script.is_some());
        plan.user_stack.unwrap().render()
    };
    let disable = |file: &str| {
        let stack = parse_user_stack_state(file).unwrap_or(None);
        cmd_disable(false, &StartupPlace::UserEnvironment { stack }, None).script
    };
    let first = enable("one", "A=1\nB=1\n", "A=old \r\nB\r\n", "");
    let second = enable("two", "C=2\nA=2\n", "C=c\r\nA=1\r\n", &first);
    let script = "[Environment]::SetEnvironmentVariable('B',$null,'User'); [Environment]::SetEnvironmentVariable('C','c','User'); [Environment]::SetEnvironmentVariable('A','old ','User')";
    assert_eq!(disable(&second).as_deref(), Some(script));
    let again = enable("two", "C=2\nA=2\n", "C=2\r\nA=2\r\n", &second);
    assert_eq!(disable(&again).as_deref(), Some(script));
    let nothing = EnablePlace::UserEnvironment {
        assignments: Vec::new(),
        output: String::new(),
        earlier: None,
    };
    assert_eq!(
        cmd_enable(Startup { profile: "none".to_string() }, &nothing).err().as_deref(),
        Some("profile 'none' sets no variables")
    );
}

#[test]
fn user_variables_are_read_and_written() {
    let read = read_user_vars(" A =1\nB\n=x\nA=2=3\n");
    let pairs: Vec<(String, Option<String>)> = read.into_iter().map(|v| (v.key, v.value)).collect();
    assert_eq!(
        pairs,
        vec![
            ("A".to_string(), Some("1".to_string())),
            ("B".to_string(), None),
            ("".to_string(), Some("x".to_string())),
            ("A".to_string(), Some("2=3".to_string())),
        ]
    );
    assert_eq!(write_user_vars(&Vec::new()), None);
    let one = vec![UserVar { key: "A".to_string(), value: Some("it's".to_string()) }];
    assert_eq!(
        write_user_vars(&one).as_deref(),
        Some("[Environment]::SetEnvironmentVariable('A','it''s','User')")
    );
    assert!(user_vars_query(&vec!["A".to_string()]).starts_with("'A' | "));
}

#[test]
fn init_does_not_touch_a_shell_profile() {
    let init = cmd_init_windows(false, Shell::Cmd, None);
    assert_eq!(
        init.found,
        vec!["shell:   cmd", "startup: user environment (no rc file to patch)"]
    );
    assert_eq!(
        init.profile,
        vec![
            "profile: none -- `envc enable <name>` picks one",
            "",
            "next: envc create work, then envc enable work",
            "",
            "to apply a profile to just this shell:",
            "    cmd        envc activate work && call \"%TEMP%\\envc\\activate.cmd\"",
            "    powershell envc activate work | Invoke-Expression",
        ]
    );
    assert_eq!(
        cmd_init_windows(true, Shell::PowerShell, Some("p")).profile,
        vec!["profile: p"]
    );
}

#[test]
fn the_next_interpreter_is_tried_where_one_does_not_start() {
    let missing = Attempt::NotStarted("not found".to_string());
    assert!(matches!(powershell("powershell", &missing, true), NextStep::TryNext));
    assert!(matches!(
        powershell("powershell", &missing, false),
        NextStep::GiveUp(why) if why == "cannot run powershell (powershell: not found)"
    ));
    let ran = |success: bool| Attempt::Ran {
        success,
        stdout: "A=1\r\n".to_string(),
        stderr: " oops\r\n".to_string(),
    };
    assert!(matches!(powershell("p", &ran(true), true), NextStep::Done(out) if out == "A=1\r\n"));
    assert!(matches!(
        powershell("p", &ran(false), true),
        NextStep::GiveUp(why) if why == "powershell failed: oops"
    ));
}
