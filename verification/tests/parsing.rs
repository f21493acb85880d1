use envc::dotenv::{expand, expand_default, parse_env, parse_value, read_default, strip_export, ValueError};
use envc::env::{Env, Var};
use envc::profile::{template, validate_profile_name, NameProblem};
use envc::stack::{
    escape_value, parse_stack, parse_stack_state, render_side, split_side, unescape_value, Entry, Stack,
    StackError,
};
use envc::startup::{parse_startup, parse_startup_state, Startup};

fn env(pairs: &[(&str, &str)]) -> Env {
    Env::from_vars(
        pairs
            .iter()
            .map(|(k, v)| Var { key: k.to_string(), value: v.to_string() })
            .collect(),
    )
}

fn values(content: &str, vars: &Env) -> String {
    match parse_env(content, vars) {
        Ok(all) => all.into_iter().map(|a| a.value).collect::<Vec<_>>().join("|"),
        Err(e) => panic!("{}", e.message("f")),
    }
}

fn complaint(content: &str) -> String {
    match parse_env(content, &Env::new()) {
        Ok(_) => panic!("should not be accepted"),
        Err(e) => e.message("~/p/.env"),
    }
}

fn value(raw: &str, vars: &Env) -> String {
    parse_value(raw, vars).unwrap_or_else(|e| panic!("{}", e.message()))
}

// ---------------------------------------------------------------------------
// Profiles
// ---------------------------------------------------------------------------

#[test]
fn a_profile_is_parsed_the_way_the_readme_says() {
    let content = "# comment\n\
         KEY=value\n\
         export EXPORTED=yes\n\
         QUOTED=\"hello world\"\n\
         LITERAL='$HOME not expanded'\n\
         TRAILING=abc # trailing comment\n\
         NOT_A_COMMENT=abc#def\n\
         ROOT=/opt/app\n\
         BIN=$ROOT/bin\n\
         FALLBACK=${UNSET_VAR:-fallback}\n\
         FROM_ENV=x$FROM_ENV\n";
    assert_eq!(
        values(content, &env(&[("FROM_ENV", "base"), ("HOME", "/home/me")])),
        "value|yes|hello world|$HOME not expanded|abc|abc#def|/opt/app|/opt/app/bin|fallback|xbase"
    );
}

#[test]
fn quotes_inside_a_value_survive() {
    let content = "A=it's\n\
         B=don't stop\n\
         C=\"double says 'hi'\"\n\
         D='literal'\n\
         E=a\"b\n\
         F=x'y'z\n\
         G=\"a\"'b'\n";
    assert_eq!(
        values(content, &Env::new()),
        "it's|don't stop|double says 'hi'|literal|a\"b|x'y'z|ab"
    );
}

#[test]
fn a_quoted_value_can_span_lines() {
    let content = "MULTI=\"first\nsecond\nthird\"\nSINGLE='raw\n$HOME stays'\nAFTER=ok\n";
    assert_eq!(
        values(content, &env(&[("HOME", "/home/me")])),
        "first\nsecond\nthird|raw\n$HOME stays|ok"
    );
}

#[test]
fn everything_inside_quotes_is_kept() {
    assert_eq!(values("A='a  \nb'\n", &Env::new()), "a  \nb");
    assert_eq!(values("A=\"a\t\n  b \"  \nB=c  \n", &Env::new()), "a\t\n  b |c");
    assert_eq!(values("  export  A = 'x '  # y\n", &Env::new()), "x ");
}

#[test]
fn an_open_quote_is_reported_on_the_line_it_stands_on() {
    let error = complaint("A=\"x\ny\"'z\n");
    assert_eq!(error, "~/p/.env:2: in the value of A: unterminated ' quote");
    assert_eq!(
        complaint("B=1\nA='x\n\ny'\"z\nC=2\n"),
        "~/p/.env:4: in the value of A: unterminated \" quote"
    );
}

#[test]
fn an_unterminated_quote_is_reported_with_its_line() {
    let error = complaint("A=1\nB=\"oops\nC=2\n");
    assert!(error.contains("p/.env:2"));
    assert!(error.contains("unterminated \" quote"));
    assert_eq!(error, "~/p/.env:2: in the value of B: unterminated \" quote");
}

#[test]
fn a_quote_opens_a_section_only_at_a_boundary() {
    let none = Env::new();
    // Straight behind a section, but not behind white space.
    assert_eq!(value("\"a\"'b'", &none), "ab");
    assert_eq!(value("\"a\" 'b'", &none), "a 'b'");
    assert_eq!(value("'a'b'c'", &none), "ab'c'");
    // A reference that gives nothing leaves the boundary in place.
    assert_eq!(value("$EMPTY'x'", &none), "x");
    assert_eq!(value("$FULL'x'", &env(&[("FULL", "f")])), "f'x'");
    assert_eq!(value("\\''x'", &none), "''x'");
}

#[test]
fn white_space_and_comments_end_a_value() {
    let none = Env::new();
    assert_eq!(value("a   ", &none), "a");
    assert_eq!(value("\"a \"", &none), "a ");
    assert_eq!(value("a  b\t", &none), "a  b");
    assert_eq!(value("a # b", &none), "a");
    assert_eq!(value("# b", &none), "");
    assert_eq!(value("a#b #", &none), "a#b");
    assert_eq!(value("\"a # b\" # c", &none), "a # b");
    assert_eq!(value("", &none), "");
}

#[test]
fn a_backslash_escapes() {
    let none = Env::new();
    assert_eq!(value("\"a\\tb\\nc\\rd\\\"e\\\\f\\$g\\q\"", &none), "a\tb\nc\rd\"e\\f$gq");
    assert_eq!(value("a\\ b\\n\\#", &none), "a bn#");
    assert_eq!(value("'a\\n'", &none), "a\\n");
    assert!(matches!(parse_value("a\\", &none), Err(ValueError::Other(m)) if m == "trailing backslash"));
    assert!(matches!(
        parse_value("'a\n", &none),
        Err(ValueError::Unterminated { quote: '\'', feeds: 0 })
    ));
    assert!(matches!(
        parse_value("\"a\nb\"\"c'", &none),
        Err(ValueError::Unterminated { quote: '"', feeds: 1 })
    ));
}

#[test]
fn references_are_expanded() {
    let vars = env(&[("A", "1"), ("B_2", "two"), ("EMPTY", "")]);
    assert_eq!(value("$A", &vars), "1");
    assert_eq!(value("$A-$B_2.${A}x", &vars), "1-two.1x");
    assert_eq!(value("$NONE", &vars), "");
    assert_eq!(value("$1 $ $.", &vars), "$1 $ $.");
    assert_eq!(value("a$", &vars), "a$");
    assert_eq!(value("${EMPTY:-d}${NONE-e}${A:-f}", &vars), "de1");
    assert_eq!(value("${NONE:-${A}}", &vars), "1");
    assert_eq!(value("${NONE:-{x}$B_2}", &vars), "{x}two");
    assert_eq!(value("\"${NONE:-a b}\"", &vars), "a b");
    let bad = |raw: &str| match parse_value(raw, &Env::new()) {
        Err(ValueError::Other(m)) => m,
        _ => panic!("should fail"),
    };
    assert_eq!(bad("${A"), "unterminated `${`");
    assert_eq!(bad("${A:-b"), "unterminated `${`");
    assert_eq!(bad("${A b}"), "invalid variable name in `${A b}`");
    assert_eq!(bad("${}"), "invalid variable name in `${}`");
    assert_eq!(bad("${1}"), "invalid variable name in `${1}`");
}

#[test]
fn expansion_says_where_it_ends() {
    let chars: Vec<char> = "x${A:-{b}}y".chars().collect();
    assert_eq!(expand(&chars, 1, &Env::new()), Ok(("{b}".to_string(), 10)));
    assert_eq!(read_default(&chars, 6), Ok(("{b}".to_string(), 10)));
    assert_eq!(expand_default("a$Ab", &env(&[("Ab", "!")])), Ok("a!".to_string()));
}

#[test]
fn lines_of_a_profile() {
    let content = "\r\n  # note\r\n\texport\tA = 1\r\nexportB=2\nA=$A$exportB\n";
    match parse_env(content, &Env::new()) {
        Ok(all) => {
            let pairs: Vec<(String, String)> = all.into_iter().map(|a| (a.key, a.value)).collect();
            assert_eq!(
                pairs,
                vec![
                    ("A".to_string(), "1".to_string()),
                    ("exportB".to_string(), "2".to_string()),
                    ("A".to_string(), "12".to_string()),
                ]
            );
        }
        Err(e) => panic!("{}", e.message("f")),
    }
    assert_eq!(strip_export("export  A=1"), "A=1");
    assert_eq!(strip_export("exporter=1"), "exporter=1");
    assert_eq!(strip_export("export"), "export");
}

#[test]
fn lines_that_are_no_assignments() {
    assert_eq!(complaint("A=1\n\nB\n"), "~/p/.env:3: expected `KEY=value`");
    assert_eq!(complaint("a b=1\n"), "~/p/.env:1: \"a b\" is not a valid variable name");
    assert_eq!(complaint("1=1\n"), "~/p/.env:1: \"1\" is not a valid variable name");
    assert_eq!(complaint("A=x\\\n"), "~/p/.env:1: in the value of A: trailing backslash");
    assert_eq!(complaint("A='x\ny\n\n"), "~/p/.env:1: in the value of A: unterminated ' quote");
    assert_eq!(
        complaint("A=${B c}\n"),
        "~/p/.env:1: in the value of A: invalid variable name in `${B c}`"
    );
}

// ---------------------------------------------------------------------------
// Names
// ---------------------------------------------------------------------------

#[test]
fn profile_names() {
    let problem = |name: &str| validate_profile_name(name).err().map(|e| e.problem);
    assert_eq!(problem("work"), None);
    assert_eq!(problem("a-b_c.d9"), None);
    assert_eq!(problem(&"x".repeat(64)), None);
    assert_eq!(problem(""), Some(NameProblem::Empty));
    assert_eq!(problem(&"x".repeat(65)), Some(NameProblem::TooLong));
    assert_eq!(problem(".x"), Some(NameProblem::LeadingDot));
    assert_eq!(problem("a b"), Some(NameProblem::BadCharacter));
    assert_eq!(problem("ä"), Some(NameProblem::BadCharacter));
    let message = |name: &str| validate_profile_name(name).err().map(|e| e.message()).unwrap();
    assert_eq!(message(""), "invalid profile name \"\": must not be empty");
    assert_eq!(message(".x"), "invalid profile name \".x\": must not start with a dot");
    assert_eq!(
        message("a\"\n"),
        "invalid profile name \"a\\\"\\n\": only letters, digits, '_', '-' and '.' are allowed"
    );
    assert!(message(&"y".repeat(65)).ends_with(": must be at most 64 characters"));
    assert_eq!(
        template("x"),
        "# envc profile: x\n# KEY=value, one per line. Edit this file however you like.\n"
    );
}

// ---------------------------------------------------------------------------
// The restore stack
// ---------------------------------------------------------------------------

fn entry(key: &str, prev: Option<&str>, now: Option<&str>) -> Entry {
    Entry {
        key: key.to_string(),
        prev: prev.map(|s| s.to_string()),
        now: now.map(|s| s.to_string()),
    }
}

#[test]
fn a_stack_is_written_and_read_back() {
    let stack = Stack::new(
        "work",
        vec![
            entry("EDITOR", Some("nano"), Some("vim")),
            entry("TOKEN", None, Some("a\nb\\n\r=c")),
            entry("EMPTY", Some(""), None),
        ],
    );
    let text = stack.render();
    assert_eq!(
        text,
        "# envc restore stack -- `activate` writes it, `deactivate` replays it.\n\
         # '-' is the value before the profile, '+' what it installed.\n\
         # A side with no `=value` means unset, so undoing it is `unset`.\n\
         # format 1\n\
         # active-profile work\n\
         --- before envc\n\
         +++ after `work`\n\
         -EDITOR=nano\n\
         +EDITOR=vim\n\
         -TOKEN\n\
         +TOKEN=a\\nb\\\\n\\r=c\n\
         -EMPTY=\n\
         +EMPTY\n"
    );
    let back = match parse_stack(&text) {
        Ok(s) => s,
        Err(e) => panic!("{}", e.message("stack")),
    };
    assert_eq!(back.profile, "work");
    assert_eq!(back.entries.len(), 3);
    assert_eq!(back.entries[1].prev, None);
    assert_eq!(back.entries[1].now.as_deref(), Some("a\nb\\n\r=c"));
    assert_eq!(back.entries[2].prev.as_deref(), Some(""));
    assert_eq!(back.entries[2].now, None);
    assert_eq!(back.render(), text);
}

#[test]
fn white_space_at_the_end_of_a_value_is_kept() {
    let stack = Stack::new("work", vec![entry("EDITOR", Some("nano "), Some("vim\t\u{a0}"))]);
    let back = parse_stack(&stack.render()).unwrap_or_else(|_| panic!());
    assert_eq!(back.profile, "work");
    assert_eq!(back.entries.len(), 1);
    assert_eq!(back.entries[0].key, "EDITOR");
    assert_eq!(back.entries[0].prev.as_deref(), Some("nano "));
    assert_eq!(back.entries[0].now.as_deref(), Some("vim\t\u{a0}"));
    // Behind a bare name it means nothing.
    let loose = "# active-profile p \n-A  \n+A= \n \n";
    let back = parse_stack(loose).unwrap_or_else(|_| panic!());
    assert_eq!(back.entries[0].prev, None);
    assert_eq!(back.entries[0].now.as_deref(), Some(" "));
}

#[test]
fn values_on_one_line() {
    assert_eq!(escape_value("a\\b\nc\rd"), "a\\\\b\\nc\\rd");
    assert_eq!(unescape_value("a\\\\b\\nc\\rd"), "a\\b\nc\rd");
    assert_eq!(unescape_value("\\q\\"), "\\q\\");
    assert_eq!(render_side("A", None), "A");
    assert_eq!(render_side("A", Some(&"x\n".to_string())), "A=x\\n");
    assert_eq!(split_side("A=b=c"), Ok(("A".to_string(), Some("b=c".to_string()))));
    assert_eq!(split_side("A"), Ok(("A".to_string(), None)));
    assert_eq!(split_side("1=b"), Err("1".to_string()));
}

#[test]
fn a_broken_stack_is_reported() {
    let fault = |content: &str| match parse_stack(content) {
        Ok(_) => panic!("should not be accepted"),
        Err(e) => e.message("s"),
    };
    assert_eq!(fault("# format x\n"), "s:1: bad format number \"x\"");
    assert_eq!(fault("# format 4294967296\n"), "s:1: bad format number \"4294967296\"");
    assert_eq!(fault("-1=2\n"), "s:1: \"1\" is not a valid variable name");
    assert_eq!(fault("+1\n"), "s:1: \"1\" is not a valid variable name");
    assert_eq!(fault("-A\n-B\n"), "s:2: a '-' line was not followed by its '+' line");
    assert_eq!(fault("\n+A\n"), "s:2: a '+' line has no matching '-' line");
    assert_eq!(
        fault("-A\n+B\n"),
        "s:2: '+' line for \"B\" does not match the preceding '-' line for \"A\""
    );
    assert_eq!(fault("what\n"), "s:1: unrecognised line: \"what\"");
    assert_eq!(fault("# active-profile p\n-A\n"), "s: 'A' has a '-' line but no '+' line");
    assert_eq!(
        fault("# format +2 \n# active-profile p\n"),
        "s: written with stack format 2, this build understands 1"
    );
    assert_eq!(fault("# prose\n--- x\n+++ y\n"), "s: missing a `# active-profile <name>` line");
    assert!(matches!(parse_stack(""), Err(StackError::NoProfile)));
    assert!(matches!(parse_stack_state(" \n\t"), Ok(None)));
    assert!(matches!(parse_stack_state("#  active-profile   p  \n"), Ok(Some(s)) if s.profile == "p"));
}

// ---------------------------------------------------------------------------
// The startup profile
// ---------------------------------------------------------------------------

#[test]
fn the_startup_choice_is_written_and_read_back() {
    let startup = Startup { profile: "work".to_string() };
    assert_eq!(
        startup.render(),
        "# envc startup profile -- what new shells load through the rc hook.\n\
         # `envc enable <name>` writes it; `envc disable` keeps it, stopped.\n\
         # format 1\n\
         work\n"
    );
    assert_eq!(parse_startup(&startup.render()).unwrap().profile, "work");
    assert_eq!(parse_startup("# x\n\n  other \nmore\n").unwrap().profile, "other");
    assert!(parse_startup("# x\n").is_none());
    assert!(parse_startup_state("").is_none());
}

#[test]
fn an_environment() {
    let mut vars = env(&[("A", "1"), ("B", "2"), ("A", "3")]);
    assert_eq!(vars.get("A").map(|s| s.as_str()), Some("3"));
    vars.remove("A");
    assert_eq!(vars.get("A"), None);
    let copy = vars.copy();
    vars.insert("B".to_string(), "4".to_string());
    assert_eq!(vars.get("B").map(|s| s.as_str()), Some("4"));
    assert_eq!(copy.get("B").map(|s| s.as_str()), Some("2"));
}
