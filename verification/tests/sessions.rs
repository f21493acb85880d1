use std::collections::BTreeMap;

use envc::activation::{cmd_activate, cmd_autoload, cmd_deactivate, Activation, Autoload, Emitted};
use envc::cli::{run, Command, Job};
use envc::dotenv::parse_env;
use envc::env::{Env, Var};
use envc::files::{load_stack, load_startup, read_if_exists};
use envc::loading::{
    adopt_startup, cmd_disable, cmd_enable, cmd_init, remembered_startup, resolve_startup_profile,
    startup_candidate, startup_is_on, EnableError, EnablePlace,
    StartupPlace,
};
use envc::manage::{cmd_create, cmd_delete, create_notes};
use envc::palette::Palette;
use envc::paths::{detect_shell, detection_source, rc_file, RcSource, ShellKind};
use envc::report::{cmd_list, cmd_stack, cmd_status, startup_report, Found, Status};
use envc::shell::Shell;
use envc::startup::Startup;

const BEGIN: &str = "# >>> envc initialize >>>";

/// One shell, and the files that the commands keep.
struct Lab {
    vars: BTreeMap<String, String>,
    profiles: BTreeMap<String, String>,
    stack: Option<String>,
    startup: Option<String>,
    rc: String,
}

fn read(content: &Option<String>) -> Option<Result<String, String>> {
    content.as_ref().map(|c| Ok(c.clone()))
}

fn env_of(vars: &BTreeMap<String, String>) -> Env {
    Env::from_vars(
        vars.iter().map(|(k, v)| Var { key: k.clone(), value: v.clone() }).collect(),
    )
}

/// What a POSIX shell makes of `export KEY=word` and `unset KEY`.
fn eval(vars: &mut BTreeMap<String, String>, code: &str) {
    let chars: Vec<char> = code.chars().collect();
    let mut i = 0;
    while i < chars.len() {
        let mut word = String::new();
        let mut words: Vec<String> = Vec::new();
        while i < chars.len() && chars[i] != '\n' {
            match chars[i] {
                ' ' => {
                    words.push(word);
                    word = String::new();
                    i += 1;
                }
                '\'' => {
                    i += 1;
                    while chars[i] != '\'' {
                        word.push(chars[i]);
                        i += 1;
                    }
                    i += 1;
                }
                '\\' => {
                    word.push(chars[i + 1]);
                    i += 2;
                }
                c => {
                    word.push(c);
                    i += 1;
                }
            }
        }
        words.push(word);
        i += 1;
        assert_eq!(words.len(), 2, "{words:?}");
        match words[0].as_str() {
            "export" => {
                let (k, v) = words[1].split_once('=').unwrap();
                vars.insert(k.to_string(), v.to_string());
            }
            "unset" => {
                vars.remove(&words[1]);
            }
            other => panic!("unknown command {other}"),
        }
    }
}

impl Lab {
    fn new() -> Lab {
        let mut vars = BTreeMap::new();
        vars.insert("HOME".to_string(), "/home/me".to_string());
        vars.insert("PATH".to_string(), "/usr/bin:/bin".to_string());
        Lab {
            vars,
            profiles: BTreeMap::new(),
            stack: None,
            startup: None,
            rc: "export KEEPME=1\nalias ll='ls -l'\n".to_string(),
        }
    }

    fn with_two_profiles() -> Lab {
        let mut lab = Lab::new();
        lab.profile(
            "work",
            "# the profile used by most tests\n\
             EDITOR=vim\n\
             PROJECT=work\n\
             TOKEN=\"a b\"\n\
             PATH=\"$HOME/bin:$PATH\"\n\
             export EXPLICIT=yes\n",
        );
        lab.profile("alt", "EDITOR=emacs\nPROJECT=alt\n");
        lab
    }

    fn profile(&mut self, name: &str, body: &str) {
        self.profiles.insert(name.to_string(), body.to_string());
    }

    fn set(&mut self, key: &str, value: &str) {
        self.vars.insert(key.to_string(), value.to_string());
    }

    fn show(&self, keys: &[&str]) -> String {
        let values: Vec<String> = keys
            .iter()
            .map(|k| self.vars.get(*k).cloned().unwrap_or("<unset>".to_string()))
            .collect();
        values.join("|")
    }

    fn file(name: &str) -> String {
        format!("~/.envc/profiles/{name}/.env")
    }

    fn plan(&self, name: &str, shell: Shell) -> Result<Activation, String> {
        let file = read(&self.profiles.get(name).cloned());
        cmd_activate(name, false, shell, &file, &env_of(&self.vars), &read(&self.stack), false)
            .map_err(|e| e.message(name, &Lab::file(name), "~/.envc/stack"))
    }

    fn activate(&mut self, name: &str) -> Result<Vec<String>, String> {
        let plan = self.plan(name, Shell::Posix)?;
        match &plan.emitted {
            Emitted::Printed(code) => eval(&mut self.vars, code),
            Emitted::Batch(_) => panic!("no batch file for a POSIX shell"),
        }
        self.stack = Some(plan.stack.render());
        Ok(plan.messages)
    }

    fn deactivate(&mut self) -> Vec<String> {
        let active = self.vars.contains_key("ENVC_ACTIVE");
        let plan = cmd_deactivate(false, Shell::Posix, &read(&self.stack), active, false)
            .unwrap_or_else(|e| panic!("{}", e.message("stack")));
        if let Some(Emitted::Printed(code)) = &plan.emitted {
            eval(&mut self.vars, code);
        }
        if plan.clear_stack {
            self.stack = None;
        }
        plan.messages
    }

    fn place(&self) -> StartupPlace {
        StartupPlace::Rc { path: "~/.bashrc".to_string(), content: self.rc.clone() }
    }

    fn init(&mut self) -> Vec<String> {
        let chosen = load_startup(&read(&self.startup)).unwrap_or(None);
        let init = cmd_init(
            false,
            ShellKind::Bash,
            "$SHELL=/bin/bash",
            "~/.bashrc",
            &self.rc,
            chosen.as_ref().map(|s| s.profile.as_str()),
        );
        if let Some(rc) = init.rc {
            self.rc = rc;
        }
        let mut all = init.found;
        all.push(init.hook);
        all.push(init.profile);
        all.extend(init.next);
        all
    }

    fn enable(&mut self, name: Option<&str>) -> Result<Vec<String>, String> {
        let mut notes = Vec::new();
        let mut remembered = None;
        if name.is_none() {
            let memory = match remembered_startup(&read(&self.startup), &read(&self.stack)) {
                Ok(m) => m,
                Err(_) => panic!("unreadable state"),
            };
            let there = match &memory {
                envc::loading::Remembered::OnStack(p) => self.profiles.contains_key(p),
                _ => false,
            };
            let adoption = adopt_startup(&memory, there);
            if let Some(s) = &adoption.save {
                self.startup = Some(s.render());
            }
            notes.extend(adoption.note);
            remembered = adoption.profile;
        }
        let candidate = startup_candidate(name, remembered.as_deref())
            .map_err(|e| e.message(""))?;
        let there = self.profiles.contains_key(&candidate);
        let profile = resolve_startup_profile(name, remembered.as_deref(), there)
            .map_err(|e| e.message(&Lab::file(&candidate)))?;
        let place =
            EnablePlace::Rc { path: "~/.bashrc".to_string(), content: self.rc.clone() };
        let plan = cmd_enable(Startup { profile }, &place)?;
        self.startup = Some(plan.startup.render());
        self.rc = plan.rc.unwrap();
        assert!(plan.script.is_none() && plan.user_stack.is_none());
        notes.extend(plan.report);
        Ok(notes)
    }

    fn disable(&mut self) -> Vec<String> {
        let chosen = load_startup(&read(&self.startup)).unwrap_or(None);
        let plan = cmd_disable(
            false,
            &self.place(),
            chosen.as_ref().map(|s| s.profile.as_str()),
        );
        assert!(plan.script.is_none() && !plan.clear_user_stack);
        if let Some(rc) = plan.rc {
            self.rc = rc;
        }
        let mut all = plan.report;
        all.extend(plan.notes);
        all
    }

    /// A new shell with the login environment, which reads the startup file.
    fn new_shell(&mut self) -> BTreeMap<String, String> {
        let mut vars = Lab::new().vars;
        if !self.rc.contains(BEGIN) {
            return vars;
        }
        let memory = match remembered_startup(&read(&self.startup), &read(&self.stack)) {
            Ok(m) => m,
            Err(_) => panic!("unreadable state"),
        };
        let there = match &memory {
            envc::loading::Remembered::OnStack(p) => self.profiles.contains_key(p),
            _ => false,
        };
        let Some(profile) = adopt_startup(&memory, there).profile else {
            return vars;
        };
        let file = read(&self.profiles.get(&profile).cloned());
        match cmd_autoload(&profile, Shell::Posix, &Lab::file(&profile), &file, &env_of(&vars)) {
            Ok(Autoload::Loaded { emitted: Emitted::Printed(code), stack }) => {
                eval(&mut vars, &code);
                self.stack = Some(stack.render());
            }
            Ok(Autoload::Skipped(_)) => {}
            _ => panic!("autoload failed"),
        }
        vars
    }
}

fn get(vars: &BTreeMap<String, String>, key: &str) -> String {
    vars.get(key).cloned().unwrap_or("<unset>".to_string())
}

// ---------------------------------------------------------------------------
// Profiles
// ---------------------------------------------------------------------------

#[test]
fn create_writes_a_profile_and_refuses_to_clobber_it() {
    let file = "~/.envc/profiles/work/.env";
    let made = match cmd_create("work", false, false, file) {
        Ok(c) => c,
        Err(_) => panic!("create should succeed"),
    };
    assert_eq!(
        made.content,
        "# envc profile: work\n# KEY=value, one per line. Edit this file however you like.\n"
    );
    assert_eq!(
        made.report,
        vec![
            "created profile 'work'",
            "  env file: ~/.envc/profiles/work/.env",
            "  edit it, then run: envc activate work",
        ]
    );
    match cmd_create("work", false, true, file) {
        Ok(_) => panic!("create should not overwrite"),
        Err(e) => assert_eq!(
            e.message("work", file),
            "profile 'work' already exists (~/.envc/profiles/work/.env); pass --force to overwrite it"
        ),
    }
    assert!(cmd_create("work", true, true, file).is_ok());
    assert_eq!(create_notes("work", true), Vec::<String>::new());
    assert_eq!(
        create_notes("work", false),
        vec![
            "",
            "note: startup loading is off, so new shells will not load this profile.",
            "      run `envc enable work` to turn it on.",
        ]
    );
    // What was written sets nothing.
    assert_eq!(parse_env(&made.content, &Env::new()).unwrap_or_else(|_| panic!()).len(), 0);
}

#[test]
fn list_shows_every_profile_and_the_startup_state() {
    let mut lab = Lab::with_two_profiles();
    lab.profile("broken", "EDITOR=ed\nTHIS LINE HAS NO EQUALS SIGN\n");
    let found: Vec<Found> = ["work", "broken", "alt"]
        .iter()
        .map(|n| Found {
            name: n.to_string(),
            file: Lab::file(n),
            read: Ok(lab.profiles[*n].clone()),
        })
        .collect();
    let c = Palette::new(false, false);
    let listing = cmd_list(&c, &found, &env_of(&lab.vars), Some("work"), "~/.envc/profiles");
    assert_eq!(
        listing.out,
        vec![
            "  PROFILE  VARS  ENV FILE",
            "  alt         2  ~/.envc/profiles/alt/.env",
            "  broken      !  ~/.envc/profiles/broken/.env",
            "* work        5  ~/.envc/profiles/work/.env",
            "",
        ]
    );
    assert_eq!(
        listing.err,
        vec![
            "envc: profile 'broken' could not be parsed: ~/.envc/profiles/broken/.env:2: expected `KEY=value`",
        ]
    );
    let state = startup_report(&c, Some("work"), &lab.place(), None);
    assert_eq!(
        state,
        vec![
            "startup loading: disabled",
            "startup profile: work (remembered, loading off)",
        ]
    );
}

#[test]
fn a_listing_names_what_is_missing() {
    let c = Palette::new(true, false);
    let found = vec![Found {
        name: "profile-with-a-long-name".to_string(),
        file: "F".to_string(),
        read: Err("No such file or directory (os error 2)".to_string()),
    }];
    let listing = cmd_list(&c, &found, &Env::new(), Some("gone"), "~/.envc/profiles");
    assert_eq!(
        listing.out,
        vec![
            "  \x1b[1mPROFILE\x1b[0m           VARS  \x1b[1mENV FILE\x1b[0m",
            "  profile-with-a-long-name     !  \x1b[31mF\x1b[0m",
            "",
        ]
    );
    assert_eq!(
        listing.err,
        vec![
            "envc: profile 'profile-with-a-long-name' could not be parsed: cannot read F",
            "envc: startup profile 'gone' has no directory under ~/.envc/profiles",
        ]
    );
    let none = cmd_list(&c, &Vec::new(), &Env::new(), Some("gone"), "D");
    assert_eq!(none.out, vec!["no profiles yet.", "create one with: envc create <name>", ""]);
    assert_eq!(none.err, Vec::<String>::new());
}

#[test]
fn delete_refuses_active_and_startup_profiles() {
    let mut lab = Lab::with_two_profiles();
    assert!(lab.enable(Some("work")).is_ok());
    assert!(lab.activate("alt").is_ok());
    let delete = |lab: &Lab, name: &str, force: bool| {
        let active = load_stack(&read(&lab.stack)).unwrap_or(None).map(|s| s.profile);
        let startup = load_startup(&read(&lab.startup)).unwrap_or(None).map(|s| s.profile);
        cmd_delete(
            name,
            force,
            false,
            lab.profiles.contains_key(name),
            active.as_deref(),
            startup.as_deref(),
            &format!("~/.envc/profiles/{name}"),
        )
        .map_err(|e| e.message(name))
    };
    let active = delete(&lab, "alt", false).err().unwrap();
    assert!(active.contains("currently active"));
    assert_eq!(
        active,
        "profile 'alt' is currently active; run `envc deactivate` first, or pass --force"
    );
    let startup = delete(&lab, "work", false).err().unwrap();
    assert!(startup.contains("startup profile"));
    assert!(startup.contains("envc disable"));
    let forced = match delete(&lab, "alt", true) {
        Ok(d) => d,
        Err(e) => panic!("{e}"),
    };
    assert!(forced.clear_stack && !forced.clear_startup);
    assert_eq!(
        forced.stack_notes,
        vec![
            "envc: cleared the restore stack ('alt')",
            "envc: warning: this shell still holds those variables;",
            "envc:          `envc deactivate` drops them.",
        ]
    );
    assert_eq!(forced.report, "deleted profile 'alt' (~/.envc/profiles/alt)");
    let startup = match delete(&lab, "work", true) {
        Ok(d) => d,
        Err(e) => panic!("{e}"),
    };
    assert!(startup.clear_startup && !startup.clear_stack);
    assert_eq!(startup.startup_notes.len(), 3);
    assert_eq!(delete(&lab, "nonexistent", false).err().unwrap(), "no such profile: nonexistent");
}

#[test]
fn bad_profile_names_are_rejected() {
    for bad in ["../evil", "a/b", ".hidden", ""] {
        assert!(cmd_create(bad, false, false, "f").is_err());
        assert!(cmd_delete(bad, true, true, true, None, None, "d").is_err());
    }
    let mut lab = Lab::new();
    assert_eq!(
        lab.activate("nonexistent").err().unwrap(),
        "no such profile: 'nonexistent' (expected ~/.envc/profiles/nonexistent/.env)"
    );
    assert_eq!(lab.deactivate(), vec!["envc: no profile is active in this shell"]);
    let status = cmd_status(
        &Palette::new(false, false),
        &Status {
            version: "0.2.0".to_string(),
            home: "~/.envc".to_string(),
            shell: Shell::Posix,
            place: lab.place(),
            startup: None,
            active: None,
            stack: None,
            stack_path: "~/.envc/stack".to_string(),
            profile_count: 0,
            profiles: "~/.envc/profiles".to_string(),
        },
    );
    assert_eq!(
        status.out,
        vec![
            "envc 0.2.0",
            "  home             ~/.envc",
            "  shell            bash",
            "  startup loading  disabled (~/.bashrc)",
            "  startup profile  (none)",
            "  this shell       (none)",
            "  restore stack    (empty)",
            "  profiles         0 in ~/.envc/profiles",
        ]
    );
    assert_eq!(status.err, Vec::<String>::new());
}

// ---------------------------------------------------------------------------
// This shell
// ---------------------------------------------------------------------------

#[test]
fn activate_overrides_existing_values() {
    let mut lab = Lab::with_two_profiles();
    lab.set("EDITOR", "nano");
    assert_eq!(lab.activate("work"), Ok(vec!["envc: activated 'work' (5 vars)".to_string()]));
    assert_eq!(lab.show(&["EDITOR", "PROJECT", "TOKEN", "EXPLICIT"]), "vim|work|a b|yes");
    assert_eq!(lab.show(&["ENVC_ACTIVE"]), "work");
    assert_eq!(lab.activate("work"), Ok(vec!["envc: reloaded 'work' (5 vars)".to_string()]));
    assert_eq!(
        lab.activate("alt"),
        Ok(vec!["envc: switched 'work' -> 'alt' (2 vars)".to_string()])
    );
}

#[test]
fn activate_expands_path_from_the_environment() {
    let mut lab = Lab::with_two_profiles();
    lab.set("PATH", "/usr/bin:/bin");
    assert!(lab.activate("work").is_ok());
    assert_eq!(lab.show(&["PATH"]), "/home/me/bin:/usr/bin:/bin");
}

#[test]
fn deactivate_restores_replaced_values() {
    let mut lab = Lab::with_two_profiles();
    lab.set("EDITOR", "nano");
    assert!(lab.activate("work").is_ok());
    assert_eq!(lab.deactivate(), vec!["envc: deactivated 'work' (5 vars restored)"]);
    assert_eq!(lab.show(&["EDITOR", "PROJECT", "TOKEN"]), "nano|<unset>|<unset>");
    assert_eq!(lab.show(&["ENVC_ACTIVE"]), "<unset>");
}

#[test]
fn deactivate_restores_path_exactly() {
    let mut lab = Lab::with_two_profiles();
    lab.set("PATH", "/usr/bin");
    assert!(lab.activate("work").is_ok());
    lab.deactivate();
    assert_eq!(lab.show(&["PATH"]), "/usr/bin");
}

#[test]
fn deactivate_without_a_stack_clears_the_record_only() {
    let mut lab = Lab::new();
    lab.set("ENVC_ACTIVE", "work");
    lab.set("EDITOR", "vim");
    assert_eq!(
        lab.deactivate(),
        vec!["envc: nothing on the restore stack; cleared ENVC_ACTIVE only"]
    );
    assert_eq!(lab.show(&["ENVC_ACTIVE", "EDITOR"]), "<unset>|vim");
}

#[test]
fn switching_profiles_rolls_back_to_the_original_base() {
    let mut lab = Lab::with_two_profiles();
    lab.set("EDITOR", "nano");
    let before = lab.vars.clone();
    assert!(lab.activate("work").is_ok());
    assert_eq!(lab.show(&["EDITOR", "PROJECT"]), "vim|work");
    assert!(lab.activate("alt").is_ok());
    assert_eq!(lab.show(&["EDITOR", "PROJECT"]), "emacs|alt");
    lab.deactivate();
    assert_eq!(lab.show(&["EDITOR", "PROJECT"]), "nano|<unset>");
    assert_eq!(lab.vars, before);
}

#[test]
fn the_same_variable_set_twice_comes_back_once() {
    let mut lab = Lab::new();
    lab.profile("twice", "A=1\nA=${A}2\n");
    lab.set("A", "old");
    assert!(lab.activate("twice").is_ok());
    assert_eq!(lab.show(&["A"]), "12");
    lab.deactivate();
    assert_eq!(lab.show(&["A"]), "old");
}

#[test]
fn any_number_of_activations_is_undone_at_once() {
    let mut lab = Lab::with_two_profiles();
    lab.profile("blanks", "EDITOR='ends in blanks  '\nNEW=\"a \"\nTAB='\t'\n");
    lab.set("EDITOR", "nano ");
    lab.set("TAB", " \t ");
    let before = lab.vars.clone();
    for name in ["work", "blanks", "alt", "blanks", "work", "blanks"] {
        assert!(lab.activate(name).is_ok());
    }
    assert_eq!(lab.show(&["EDITOR", "NEW", "PROJECT"]), "ends in blanks  |a |<unset>");
    lab.deactivate();
    assert_eq!(lab.vars, before);
    assert_eq!(lab.stack, None);
}

#[test]
fn values_of_every_kind_survive_the_shell() {
    let mut lab = Lab::new();
    lab.profile("odd", "A='$x `y` \"z\" \\ # !'\nB=\"it's\nme\"\nC=\nD=plain/1.2:3\n");
    lab.set("A", "two\nlines and a 'quote'");
    let before = lab.vars.clone();
    assert!(lab.activate("odd").is_ok());
    assert_eq!(lab.show(&["A"]), "$x `y` \"z\" \\ # !");
    assert_eq!(lab.show(&["B"]), "it's\nme");
    assert_eq!(lab.show(&["C", "D"]), "|plain/1.2:3");
    lab.deactivate();
    assert_eq!(lab.vars, before);
}

#[test]
fn the_restore_stack_is_a_diff_shaped_file() {
    let mut lab = Lab::with_two_profiles();
    lab.set("EDITOR", "nano");
    assert!(lab.activate("work").is_ok());
    let stack = lab.stack.clone().unwrap();
    assert!(stack.contains("-EDITOR=nano\n"));
    assert!(stack.contains("+EDITOR=vim\n"));
    assert!(stack.contains("-PROJECT\n"));
    assert!(stack.contains("# active-profile work\n"));
    assert!(stack.contains("--- before envc\n"));
    let kept = load_stack(&read(&lab.stack)).unwrap_or(None);
    let shown = cmd_stack(&Palette::new(false, false), &kept, "~/.envc/stack");
    assert_eq!(shown, format!("envc: 'work' active, 5 in the stack\n~/.envc/stack\n\n{stack}"));
    assert_eq!(
        cmd_stack(&Palette::new(true, true), &None, "~/.envc/stack"),
        "no profile active; ~/.envc/stack is absent\n"
    );
}

#[test]
fn a_broken_profile_is_reported_not_half_applied() {
    let mut lab = Lab::with_two_profiles();
    lab.profile("broken", "EDITOR=ed\nTHIS LINE HAS NO EQUALS SIGN\n");
    lab.set("EDITOR", "nano");
    assert!(lab.activate("work").is_ok());
    lab.set("EDITOR", "nano");
    let error = lab.activate("broken").err().unwrap();
    assert!(error.contains("broken/.env:2"));
    assert_eq!(error, "~/.envc/profiles/broken/.env:2: expected `KEY=value`");
    assert!(lab.stack.clone().unwrap().contains("# active-profile work"));
    assert_eq!(lab.show(&["EDITOR"]), "nano");
}

#[test]
fn a_broken_stack_stops_activation() {
    let mut lab = Lab::with_two_profiles();
    lab.stack = Some("# active-profile work\n-A=1\n".to_string());
    assert_eq!(
        lab.activate("alt").err().unwrap(),
        "~/.envc/stack: 'A' has a '-' line but no '+' line"
    );
    let unreadable = Some(Err("permission denied".to_string()));
    match cmd_deactivate(false, Shell::Posix, &unreadable, false, false) {
        Ok(_) => panic!("should fail"),
        Err(e) => assert_eq!(
            e.message("~/.envc/stack"),
            "cannot read ~/.envc/stack: permission denied"
        ),
    }
}

// ---------------------------------------------------------------------------
// New shells
// ---------------------------------------------------------------------------

#[test]
fn init_installs_the_hook_and_is_idempotent() {
    let mut lab = Lab::new();
    let report = lab.init();
    assert_eq!(
        report,
        vec![
            "shell:   bash ($SHELL=/bin/bash)",
            "rc file: ~/.bashrc",
            "hook:    installed",
            "profile: none -- `envc enable <name>` picks one",
            "",
            "open a new shell, or `source ~/.bashrc`.",
            "",
            "next: envc create work, then envc enable work",
        ]
    );
    assert!(lab.rc.contains(BEGIN));
    assert!(lab.rc.contains("envc autoload"));
    let again = lab.init();
    assert!(again.contains(&"hook:    already installed".to_string()));
    assert_eq!(lab.rc.matches(BEGIN).count(), 1);
    assert!(lab.rc.starts_with("export KEEPME=1"));
}

#[test]
fn enable_selects_what_new_shells_load() {
    let mut lab = Lab::with_two_profiles();
    lab.init();
    let error = lab.enable(None).err().unwrap();
    assert!(error.contains("envc enable <name>"));
    assert_eq!(error, "no startup profile chosen yet; run `envc enable <name>`");
    assert_eq!(
        lab.enable(Some("ghost")).err().unwrap(),
        "no such profile: 'ghost' (expected ~/.envc/profiles/ghost/.env)"
    );
    assert_eq!(
        lab.enable(Some("work")),
        Ok(vec![
            "startup loading enabled: work".to_string(),
            "  refreshed the hook in ~/.bashrc".to_string(),
            "  new shells load it; `envc activate work` for this one".to_string(),
        ])
    );
    assert!(lab.startup.clone().unwrap().contains("work"));
    let fresh = lab.new_shell();
    assert_eq!(get(&fresh, "PROJECT"), "work");
    assert_eq!(get(&fresh, "ENVC_ACTIVE"), "work");
    assert!(matches!(
        resolve_startup_profile(Some("a b"), None, true),
        Err(EnableError::Name(_))
    ));
}

#[test]
fn enable_does_not_touch_the_current_shell() {
    let mut lab = Lab::with_two_profiles();
    lab.init();
    let before = lab.vars.clone();
    assert!(lab.enable(Some("work")).is_ok());
    assert_eq!(lab.vars, before);
    assert_eq!(lab.show(&["PROJECT", "ENVC_ACTIVE"]), "<unset>|<unset>");
    assert_eq!(lab.stack, None);
}

#[test]
fn bare_enable_restores_the_remembered_profile() {
    let mut lab = Lab::with_two_profiles();
    lab.init();
    assert!(lab.enable(Some("work")).is_ok());
    lab.disable();
    assert!(lab.enable(None).is_ok());
    assert!(lab.startup.clone().unwrap().ends_with("\nwork\n"));
}

#[test]
fn disable_stops_loading_but_keeps_the_choice() {
    let mut lab = Lab::with_two_profiles();
    lab.init();
    assert!(lab.enable(Some("work")).is_ok());
    assert_eq!(
        lab.disable(),
        vec![
            "startup loading disabled",
            "  removed the hook from ~/.bashrc",
            "  'work' remembered; a bare `envc enable` turns it back on",
            "  this shell keeps its profile -- `envc deactivate` drops it.",
        ]
    );
    assert!(lab.startup.clone().unwrap().contains("work"));
    let fresh = lab.new_shell();
    assert_eq!(get(&fresh, "PROJECT"), "<unset>");
    assert_eq!(get(&fresh, "ENVC_ACTIVE"), "<unset>");
    assert!(!startup_is_on(&lab.place()));
    assert_eq!(
        lab.disable(),
        vec![
            "startup loading was already disabled (~/.bashrc has no hook)",
            "  run `envc enable` to turn it back on",
        ]
    );
}

#[test]
fn disable_restores_the_rc_file_byte_for_byte() {
    let mut lab = Lab::with_two_profiles();
    let original = lab.rc.clone();
    assert!(lab.enable(Some("work")).is_ok());
    assert!(startup_is_on(&lab.place()));
    assert_ne!(lab.rc, original);
    lab.disable();
    assert_eq!(lab.rc, original);
}

#[test]
fn the_two_halves_are_independent() {
    let mut lab = Lab::with_two_profiles();
    lab.init();
    assert!(lab.enable(Some("work")).is_ok());
    lab.vars = lab.new_shell();
    lab.deactivate();
    let fresh = lab.new_shell();
    assert_eq!(get(&fresh, "PROJECT"), "work");
    assert!(lab.activate("alt").is_ok());
    assert_eq!(lab.show(&["PROJECT"]), "alt");
    let startup = load_startup(&read(&lab.startup)).unwrap_or(None).unwrap();
    assert_eq!(startup.profile, "work");
    let untouched = lab.new_shell();
    assert_eq!(get(&untouched, "PROJECT"), "work");
}

#[test]
fn an_install_from_before_the_startup_file_keeps_working() {
    let mut lab = Lab::new();
    lab.profile("work", "PROJECT=work\n");
    lab.rc = String::new();
    assert!(lab.activate("work").is_ok());
    assert_eq!(lab.startup, None);
    let notes = lab.enable(None).unwrap_or_else(|e| panic!("{e}"));
    assert_eq!(
        notes[0],
        "envc: 'work' is now the startup profile (it was selected before the upgrade; `envc enable <name>` changes it)"
    );
    assert!(lab.startup.clone().unwrap().contains("work"));
}

#[test]
fn a_missing_startup_profile_is_skipped() {
    match cmd_autoload("gone", Shell::Posix, "~/f", &None, &Env::new()) {
        Ok(Autoload::Skipped(note)) => assert_eq!(
            note,
            "envc: startup profile 'gone' is selected but ~/f is missing; skipping autoload"
        ),
        _ => panic!("should be skipped"),
    }
}

#[test]
fn status_tells_when_the_halves_disagree() {
    let mut lab = Lab::with_two_profiles();
    assert!(lab.enable(Some("work")).is_ok());
    assert!(lab.activate("alt").is_ok());
    let status = cmd_status(
        &Palette::new(false, false),
        &Status {
            version: "0.2.0".to_string(),
            home: "~/.envc".to_string(),
            shell: Shell::Posix,
            place: lab.place(),
            startup: Some("work".to_string()),
            active: Some("alt".to_string()),
            stack: load_stack(&read(&lab.stack)).unwrap_or(None),
            stack_path: "~/.envc/stack".to_string(),
            profile_count: 2,
            profiles: "~/.envc/profiles".to_string(),
        },
    );
    assert_eq!(status.out[3], "  startup loading  enabled (~/.bashrc)");
    assert_eq!(status.out[4], "  startup profile  work");
    assert_eq!(status.out[5], "  this shell       alt");
    assert_eq!(status.out[6], "  restore stack    2 vars (~/.envc/stack)");
    assert_eq!(
        status.err,
        vec![
            "",
            "envc: note: this shell has 'alt', new shells load 'work'.",
            "envc:       `envc activate work` to match, `envc enable alt` to switch.",
        ]
    );
    assert_eq!(
        startup_report(&Palette::new(false, false), Some("work"), &lab.place(), Some("alt")),
        vec![
            "startup loading: enabled (~/.bashrc)",
            "startup profile: work",
            "this shell:      alt",
        ]
    );
    assert_eq!(
        startup_report(&Palette::new(false, false), Some("work"), &lab.place(), Some("work")).len(),
        2
    );
}

// ---------------------------------------------------------------------------
// Login shells
// ---------------------------------------------------------------------------

#[test]
fn a_zsh_login_shell_gets_the_hook_in_zshrc() {
    let kind = detect_shell("/bin/zsh", true);
    let RcSource::Home(found) = rc_file(false, false, kind) else {
        panic!("the home directory's file");
    };
    assert_eq!(found.rc_name(), ".zshrc");
    let source = detection_source(Some("/bin/zsh"), "macos");
    let init = cmd_init(false, kind, &source, "~/.zshrc", "", None);
    assert_eq!(init.found, vec!["shell:   zsh ($SHELL=/bin/zsh)", "rc file: ~/.zshrc"]);
    assert!(init.rc.unwrap().contains(BEGIN));
}

#[test]
fn without_a_shell_variable_macos_defaults_to_zsh() {
    assert_eq!(detect_shell("", true), ShellKind::Zsh);
    assert_eq!(detect_shell("", false), ShellKind::Bash);
    assert_eq!(detect_shell("fish", true), ShellKind::Zsh);
    assert_eq!(detect_shell("RBASH", true), ShellKind::Bash);
    assert_eq!(detect_shell("/opt/zsh/bin/bash", true), ShellKind::Bash);
    assert_eq!(detect_shell("/bin/bash/./", true), ShellKind::Bash);
    assert_eq!(detect_shell("/bin/bash/..", true), ShellKind::Zsh);
    assert_eq!(detection_source(None, "macos"), "the macos default");
    assert_eq!(detection_source(Some(""), "linux"), "the linux default");
    assert_eq!(rc_file(true, true, ShellKind::Zsh), RcSource::EnvcRc);
    assert_eq!(rc_file(false, true, ShellKind::Zsh), RcSource::EnvcBashrc);
}

#[test]
fn activate_and_deactivate_round_trip_in_zsh() {
    let mut lab = Lab::new();
    lab.profile("work", "EDITOR=vim\nPROJECT=work\n");
    lab.set("EDITOR", "nano");
    assert!(lab.activate("work").is_ok());
    let on = lab.show(&["EDITOR", "PROJECT"]);
    lab.deactivate();
    let off = lab.show(&["EDITOR", "PROJECT"]);
    assert_eq!(format!("on={on} off={off}"), "on=vim|work off=nano|<unset>");
}

#[test]
fn a_new_zsh_autoloads_the_startup_profile() {
    let mut lab = Lab::new();
    lab.profile("work", "EDITOR=vim\nPROJECT=work\n");
    lab.init();
    assert!(lab.enable(Some("work")).is_ok());
    let fresh = lab.new_shell();
    assert_eq!(format!("{}|{}", get(&fresh, "PROJECT"), get(&fresh, "ENVC_ACTIVE")), "work|work");
}

#[test]
fn the_two_halves_stay_independent_in_zsh() {
    let mut lab = Lab::new();
    lab.profile("work", "EDITOR=vim\nPROJECT=work\n");
    lab.profile("alt", "EDITOR=emacs\nPROJECT=alt\n");
    lab.init();
    assert!(lab.enable(Some("work")).is_ok());
    lab.vars = lab.new_shell();
    assert!(lab.activate("alt").is_ok());
    assert_eq!(lab.show(&["PROJECT"]), "alt");
    assert!(lab.startup.clone().unwrap().contains("work"));
    assert_eq!(get(&lab.new_shell(), "PROJECT"), "work");
}

// ---------------------------------------------------------------------------
// Other shells
// ---------------------------------------------------------------------------

fn printed(plan: &Activation) -> String {
    match &plan.emitted {
        Emitted::Printed(code) => code.clone(),
        Emitted::Batch(_) => panic!("printed code expected"),
    }
}

fn batch(emitted: &Emitted) -> String {
    match emitted {
        Emitted::Batch(body) => body.clone(),
        Emitted::Printed(_) => panic!("a batch file expected"),
    }
}

#[test]
fn powershell_gets_powershell_syntax() {
    let mut lab = Lab::new();
    lab.profile("ps", "FOO=bar baz\nQUOTED=$SRC\nPCT=50%\n");
    lab.set("SRC", "it's");
    let plan = lab.plan("ps", Shell::PowerShell).unwrap_or_else(|e| panic!("{e}"));
    assert_eq!(
        printed(&plan),
        "$env:FOO='bar baz'\n$env:QUOTED='it''s'\n$env:PCT='50%'\n$env:ENVC_ACTIVE='ps'\n"
    );
    let off = cmd_deactivate(
        true,
        Shell::PowerShell,
        &Some(Ok(plan.stack.render())),
        true,
        true,
    );
    match off {
        Ok(d) => match d.emitted {
            Some(Emitted::Printed(code)) => assert_eq!(
                code,
                "Remove-Item Env:PCT -ErrorAction SilentlyContinue\n\
                 Remove-Item Env:QUOTED -ErrorAction SilentlyContinue\n\
                 Remove-Item Env:FOO -ErrorAction SilentlyContinue\n\
                 Remove-Item Env:ENVC_ACTIVE -ErrorAction SilentlyContinue\n"
            ),
            _ => panic!("printed code expected"),
        },
        Err(_) => panic!("should succeed"),
    }
}

#[test]
fn cmd_gets_a_batch_file_instead_of_stdout() {
    let mut lab = Lab::new();
    lab.profile("c", "FOO=bar baz\nPCT=50%\n");
    let plan = lab.plan("c", Shell::Cmd).unwrap_or_else(|e| panic!("{e}"));
    assert_eq!(
        batch(&plan.emitted),
        "@echo off\r\nset \"FOO=bar baz\"\r\nset \"PCT=50%%\"\r\nset \"ENVC_ACTIVE=c\"\r\n"
    );
    assert_eq!(
        envc::activation::batch_notes("~/x.cmd", "/home/me/x.cmd"),
        vec!["envc: wrote ~/x.cmd", "envc: in cmd, run: call \"/home/me/x.cmd\""]
    );
}

#[test]
fn cmd_deactivate_writes_the_undo_script() {
    let lab = Lab::with_two_profiles();
    let plan = lab.plan("work", Shell::Cmd).unwrap_or_else(|e| panic!("{e}"));
    let off = cmd_deactivate(false, Shell::Cmd, &Some(Ok(plan.stack.render())), true, true);
    let off = match off {
        Ok(d) => d,
        Err(_) => panic!("should succeed"),
    };
    let script = batch(&off.emitted.unwrap());
    assert!(script.contains("set \"EDITOR=\""));
    assert!(script.contains("set \"PATH=/usr/bin:/bin\""));
    assert!(script.contains("set \"ENVC_ACTIVE=\""));
    assert!(off.clear_stack);
    assert_eq!(off.messages, vec!["envc: deactivated 'work' (5 vars restored)"]);
}

#[test]
fn an_unknown_shell_is_rejected() {
    let asked = run(
        Command::Activate { name: "work".to_string() },
        false,
        Some("tcsh"),
        None,
        Shell::Posix,
    );
    match asked {
        Ok(_) => panic!("should be refused"),
        Err(e) => assert_eq!(
            e.message(),
            "unknown shell \"tcsh\"; expected bash, powershell or cmd"
        ),
    }
    assert!(run(Command::List, false, Some("tcsh"), None, Shell::Posix).is_err());
}

#[test]
fn a_command_gets_the_shell_that_was_asked_for() {
    let job = run(Command::Deactivate, true, None, Some(" pwsh "), Shell::Posix);
    assert!(matches!(job, Ok(Job::Deactivate { quiet: true, shell: Shell::PowerShell })));
    let job = run(Command::Deactivate, false, Some("batch"), Some("bash"), Shell::Posix);
    assert!(matches!(job, Ok(Job::Deactivate { quiet: false, shell: Shell::Cmd })));
    let job = run(Command::Autoload, false, None, Some("  "), Shell::PowerShell);
    assert!(matches!(job, Ok(Job::Autoload { shell: Shell::PowerShell })));
    let job = run(Command::Enable(None), false, None, None, Shell::Posix);
    assert!(matches!(job, Ok(Job::Enable(None))));
}

#[test]
fn the_hint_is_for_code_that_nothing_evaluates() {
    let mut lab = Lab::new();
    lab.profile("p", "A=1\n");
    let hinted = |shell: Shell, quiet: bool, hint: bool| {
        let file = read(&lab.profiles.get("p").cloned());
        match cmd_activate("p", quiet, shell, &file, &Env::new(), &None, hint) {
            Ok(a) => a.messages,
            Err(_) => panic!("should succeed"),
        }
    };
    assert_eq!(
        hinted(Shell::Posix, false, true),
        vec![
            "envc: activated 'p' (1 vars)",
            "",
            "envc: this shell is unchanged until you evaluate that:",
            "envc:     eval \"$(envc activate p)\"",
            "envc: `envc enable` installs a wrapper so that is not needed.",
        ]
    );
    assert_eq!(hinted(Shell::Posix, true, true), Vec::<String>::new());
    assert_eq!(hinted(Shell::Cmd, false, true).len(), 1);
    assert_eq!(hinted(Shell::Posix, false, false).len(), 1);
    assert!(envc::activation::hint_wanted(true, None));
    assert!(envc::activation::hint_wanted(true, Some("0")));
    assert!(!envc::activation::hint_wanted(true, Some("1")));
    assert!(!envc::activation::hint_wanted(false, None));
}

#[test]
fn a_file_that_is_absent_reads_as_empty() {
    assert_eq!(read_if_exists(&None).unwrap_or_else(|_| panic!()), "");
    assert_eq!(read_if_exists(&Some(Ok("x".to_string()))).unwrap_or_else(|_| panic!()), "x");
    match read_if_exists(&Some(Err("denied".to_string()))) {
        Ok(_) => panic!("should fail"),
        Err(e) => assert_eq!(e.message("~/.bashrc"), "cannot read ~/.bashrc: denied"),
    }
}
