//! What `list`, `stack` and `status` print.

use vstd::prelude::*;

use crate::dotenv::Setting;
use crate::env::{Env, Vars};
use crate::files::{
    env_file, env_file_fault_brief, env_file_view, parse_env_file, read_view, EnvFileFault,
};
use crate::loading::{is_on, place_text, startup_is_on, startup_where, Place, StartupPlace};
use crate::palette::{painted, Palette};
use crate::shell::{shell_name, str_opt, Shell};
use crate::stack::{stack_text, Record, Stack};
use crate::text::{
    cat2, cat3, cat4, cat5, chars_of, decimal, decimal_of, opt_view, push_item, same_text, views,
    Text,
};

verus! {

// ---------------------------------------------------------------------------
// Columns
// ---------------------------------------------------------------------------

pub open spec fn spaces(n: int) -> Text {
    Seq::new(
        if n < 0 {
            0
        } else {
            n as nat
        },
        |i: int| ' ',
    )
}

/// `s` with spaces behind it, `width` characters wide at least.
pub open spec fn padded(s: Text, width: nat) -> Text {
    s + spaces(width - s.len())
}

/// `s` with spaces in front of it, `width` characters wide at least.
pub open spec fn right_aligned(s: Text, width: nat) -> Text {
    spaces(width - s.len()) + s
}

fn spaces_up_to(len: usize, width: usize) -> (r: String)
    ensures
        r@ == spaces(width - len),
{
    let mut s: String = String::new();
    let mut i: usize = len;
    while i < width
        invariant
            len <= i,
            i <= width || i == len,
            s@ == spaces(i - len),
        decreases width - i,
    {
        s.push(' ');
        i += 1;
        assert(s@ =~= spaces(i - len));
    }
    assert(s@ =~= spaces(width - len));
    s
}

pub fn pad(s: &str, width: usize) -> (r: String)
    ensures
        r@ == padded(s@, width as nat),
{
    cat2(s, spaces_up_to(chars_of(s).len(), width).as_str())
}

pub fn align_right(s: &str, width: usize) -> (r: String)
    ensures
        r@ == right_aligned(s@, width as nat),
{
    cat2(spaces_up_to(chars_of(s).len(), width).as_str(), s)
}

// ---------------------------------------------------------------------------
// Order
// ---------------------------------------------------------------------------

/// Whether `a` comes before `b`, character by character.
pub open spec fn precedes(a: Text, b: Text) -> bool
    decreases a.len(),
{
    if b.len() == 0 {
        false
    } else if a.len() == 0 {
        true
    } else if a[0] != b[0] {
        a[0] < b[0]
    } else {
        precedes(a.drop_first(), b.drop_first())
    }
}

pub fn comes_before(a: &str, b: &str) -> (r: bool)
    ensures
        r == precedes(a@, b@),
{
    let s: Vec<char> = chars_of(a);
    let t: Vec<char> = chars_of(b);
    let mut i: usize = 0;
    assert(s@.skip(0) =~= s@ && t@.skip(0) =~= t@);
    while i < s.len() && i < t.len()
        invariant
            i <= s@.len(),
            i <= t@.len(),
            s@ == a@,
            t@ == b@,
            precedes(a@, b@) == precedes(s@.skip(i as int), t@.skip(i as int)),
        decreases s@.len() - i,
    {
        if s[i] != t[i] {
            return s[i] < t[i];
        }
        assert(s@.skip(i as int).drop_first() =~= s@.skip(i + 1));
        assert(t@.skip(i as int).drop_first() =~= t@.skip(i + 1));
        i += 1;
    }
    i < t.len()
}

/// A profile that was found: its name, its file as messages show it, and what
/// was read of that.
pub struct Found {
    pub name: String,
    pub file: String,
    pub read: Result<String, String>,
}

/// What a `Found` holds.
pub struct Listed {
    pub name: Text,
    pub file: Text,
    pub read: Result<Text, Text>,
}

impl View for Found {
    type V = Listed;

    open spec fn view(&self) -> Listed {
        Listed { name: self.name@, file: self.file@, read: read_view(self.read) }
    }
}

/// Where a profile goes in front of those from `i` on that come after it.
pub open spec fn place_for(ps: Seq<Listed>, name: Text, i: int) -> int
    decreases ps.len() - i,
{
    if i < 0 || i >= ps.len() {
        ps.len() as int
    } else if precedes(name, ps[i].name) {
        i
    } else {
        place_for(ps, name, i + 1)
    }
}

/// The profiles in the order of their names.
pub open spec fn in_order(ps: Seq<Listed>) -> Seq<Listed>
    decreases ps.len(),
{
    if ps.len() == 0 {
        Seq::empty()
    } else {
        let before = in_order(ps.drop_last());
        before.insert(place_for(before, ps.last().name, 0), ps.last())
    }
}

/// The profiles at the given positions.
pub open spec fn picked(ps: Seq<Listed>, order: Seq<usize>) -> Seq<Listed> {
    order.map_values(|i: usize| ps[i as int])
}

/// The positions of the profiles in the order of their names.
fn order_of(ps: &Vec<Found>) -> (r: Vec<usize>)
    ensures
        picked(views(ps@), r@) == in_order(views(ps@)),
        r@.len() == ps@.len(),
        forall|i: int| 0 <= i < r@.len() ==> #[trigger] r@[i] < ps@.len(),
{
    let ghost all = views(ps@);
    let mut order: Vec<usize> = Vec::new();
    let mut n: usize = 0;
    assert(all.take(0) =~= Seq::<Listed>::empty());
    assert(picked(all, order@) =~= Seq::<Listed>::empty());
    while n < ps.len()
        invariant
            n <= ps@.len(),
            all == views(ps@),
            order@.len() == n,
            forall|i: int| 0 <= i < n ==> #[trigger] order@[i] < ps@.len(),
            picked(all, order@) == in_order(all.take(n as int)),
        decreases ps@.len() - n,
    {
        let ghost before = order@;
        let ghost sorted = in_order(all.take(n as int));
        assert(all.take(n + 1).drop_last() =~= all.take(n as int));
        assert(all.take(n + 1).last() == ps@[n as int]@);
        let mut k: usize = 0;
        while k < order.len() && !comes_before(
            ps[n].name.as_str(),
            ps[order[k]].name.as_str(),
        )
            invariant
                n < ps@.len(),
                all == views(ps@),
                order@.len() == n,
                k <= n,
                forall|i: int| 0 <= i < n ==> #[trigger] order@[i] < ps@.len(),
                sorted == picked(all, order@),
                place_for(sorted, ps@[n as int].name@, 0) == place_for(
                    sorted,
                    ps@[n as int].name@,
                    k as int,
                ),
            decreases n - k,
        {
            assert(sorted[k as int] == ps@[order@[k as int] as int]@);
            k += 1;
        }
        if k < order.len() {
            assert(sorted[k as int] == ps@[order@[k as int] as int]@);
        }
        order.insert(k, n);
        assert(picked(all, order@) =~= sorted.insert(k as int, all[n as int]));
        n += 1;
    }
    assert(all.take(n as int) =~= all);
    order
}

// ---------------------------------------------------------------------------
// The state of startup loading
// ---------------------------------------------------------------------------

pub open spec fn state_text(on: bool, enabled: bool) -> Text {
    if enabled {
        painted(on, "32"@, "enabled"@)
    } else {
        painted(on, "33"@, "disabled"@)
    }
}

fn state_label(c: &Palette, enabled: bool) -> (r: String)
    ensures
        r@ == state_text(c.on, enabled),
{
    if enabled {
        c.green("enabled")
    } else {
        c.yellow("disabled")
    }
}

/// What `list` says of startup loading: whether it is on and where, the profile,
/// and this shell's where that is not the one new shells load.
pub open spec fn startup_summary(
    on: bool,
    startup: Option<Text>,
    place: Place,
    current: Option<Text>,
) -> Seq<Text> {
    let enabled = is_on(place);
    let first = "startup loading: "@ + state_text(on, enabled) + if enabled {
        " ("@ + place_text(place) + ")"@
    } else {
        ""@
    };
    let second = match (enabled, startup) {
        (true, Some(name)) => "startup profile: "@ + painted(on, "1"@, name),
        (true, None) => "startup profile: (none -- `envc enable <name>`)"@,
        (false, Some(name)) => "startup profile: "@ + painted(on, "1"@, name) + " "@ + painted(
            on,
            "2"@,
            "(remembered, loading off)"@,
        ),
        (false, None) => "startup profile: (none)"@,
    };
    match current {
        Some(cur) => if enabled && startup == Some(cur) {
            seq![first, second]
        } else {
            seq![first, second, "this shell:      "@ + cur]
        },
        None => seq![first, second],
    }
}

/// What `list` says of startup loading. `current` is the profile that this shell
/// has applied.
pub fn startup_report(
    c: &Palette,
    startup: Option<&str>,
    place: &StartupPlace,
    current: Option<&str>,
) -> (r: Vec<String>)
    ensures
        views(r@) == startup_summary(c.on, str_opt(startup), place@, str_opt(current)),
{
    let enabled: bool = startup_is_on(place);
    let suffix: String = if enabled {
        cat3(" (", startup_where(place).as_str(), ")")
    } else {
        "".to_owned()
    };
    let mut report: Vec<String> = Vec::new();
    push_item(
        &mut report,
        cat3("startup loading: ", state_label(c, enabled).as_str(), suffix.as_str()),
    );
    let second: String = match startup {
        Some(name) => if enabled {
            cat2("startup profile: ", c.bold(name).as_str())
        } else {
            // Remembered but not loading: saying "work" alone would read as if
            // new shells were about to load it.
            cat4(
                "startup profile: ",
                c.bold(name).as_str(),
                " ",
                c.dim("(remembered, loading off)").as_str(),
            )
        },
        None => if enabled {
            "startup profile: (none -- `envc enable <name>`)".to_owned()
        } else {
            "startup profile: (none)".to_owned()
        },
    };
    push_item(&mut report, second);
    if let Some(cur) = current {
        let agrees: bool = enabled && match startup {
            Some(name) => same_text(name, cur),
            None => false,
        };
        if !agrees {
            push_item(&mut report, cat2("this shell:      ", cur));
        }
    }
    assert(views(report@) =~= startup_summary(c.on, str_opt(startup), place@, str_opt(current)));
    report
}

// ---------------------------------------------------------------------------
// List
// ---------------------------------------------------------------------------

/// What goes to standard output and what to standard error.
pub struct Report {
    pub out: Vec<String>,
    pub err: Vec<String>,
}

/// The width of the column of names.
pub open spec fn name_width(ps: Seq<Listed>) -> nat
    decreases ps.len(),
{
    if ps.len() == 0 {
        "PROFILE"@.len()
    } else {
        let w = name_width(ps.drop_last());
        if ps.last().name.len() > w {
            ps.last().name.len()
        } else {
            w
        }
    }
}

pub open spec fn list_header(on: bool, width: nat) -> Text {
    "  "@ + padded(painted(on, "1"@, "PROFILE"@), width) + "  "@ + right_aligned("VARS"@, 4) + "  "@
        + painted(on, "1"@, "ENV FILE"@)
}

/// The line on one profile: `count` says how many variables it sets, if it can
/// be read.
pub open spec fn row_text(
    on: bool,
    name: Text,
    file: Text,
    count: Option<nat>,
    is_startup: bool,
    width: nat,
) -> Text {
    let marker = if is_startup {
        painted(on, "32"@, "*"@)
    } else {
        " "@
    };
    let label = if is_startup {
        painted(on, "1"@, padded(name, width))
    } else {
        padded(name, width)
    };
    let number = match count {
        Some(n) => decimal(n),
        None => "!"@,
    };
    let shown = match count {
        Some(_) => painted(on, "2"@, file),
        None => painted(on, "31"@, file),
    };
    marker + " "@ + label + "  "@ + right_aligned(number, 4) + "  "@ + shown
}

/// How many settings there are, if there are any to count.
pub open spec fn count_of(settings: Result<Seq<Setting>, EnvFileFault>) -> Option<nat> {
    match settings {
        Ok(s) => Some(s.len()),
        Err(_) => None,
    }
}

/// The line on one profile. The marker tracks the startup choice, not this
/// shell: that is the one that survives, and the one `enable` talks about.
pub open spec fn list_row(on: bool, p: Listed, env: Vars, startup: Option<Text>, width: nat) -> Text {
    row_text(
        on,
        p.name,
        p.file,
        count_of(env_file(p.read, env)),
        startup == Some(p.name),
        width,
    )
}

/// The lines on the profiles.
pub open spec fn list_rows(
    on: bool,
    ps: Seq<Listed>,
    env: Vars,
    startup: Option<Text>,
    width: nat,
) -> Seq<Text> {
    ps.map_values(|p: Listed| list_row(on, p, env, startup, width))
}

/// The complaints about profiles that cannot be read.
pub open spec fn list_complaints(ps: Seq<Listed>, env: Vars) -> Seq<Text>
    decreases ps.len(),
{
    if ps.len() == 0 {
        Seq::empty()
    } else {
        let p = ps.last();
        let before = list_complaints(ps.drop_last(), env);
        match env_file(p.read, env) {
            Ok(_) => before,
            Err(e) => before.push(
                "envc: profile '"@ + p.name + "' could not be parsed: "@ + env_file_fault_brief(
                    p.file,
                    e,
                ),
            ),
        }
    }
}

/// Whether there is a profile of that name.
pub open spec fn listed(ps: Seq<Listed>, name: Text) -> bool {
    exists|i: int| 0 <= i < ps.len() && (#[trigger] ps[i]).name == name
}

/// What `list` prints in front of the state of startup loading.
pub open spec fn list_out(on: bool, ps: Seq<Listed>, env: Vars, startup: Option<Text>) -> Seq<Text> {
    if ps.len() == 0 {
        seq!["no profiles yet."@, "create one with: envc create <name>"@, ""@]
    } else {
        let width = name_width(ps);
        (seq![list_header(on, width)] + list_rows(on, in_order(ps), env, startup, width)).push(""@)
    }
}

/// What `list` complains of.
pub open spec fn list_err(ps: Seq<Listed>, env: Vars, startup: Option<Text>, dir: Text) -> Seq<Text> {
    if ps.len() == 0 {
        Seq::empty()
    } else {
        list_complaints(in_order(ps), env) + match startup {
            Some(name) => if !listed(ps, name) {
                seq!["envc: startup profile '"@ + name + "' has no directory under "@ + dir]
            } else {
                Seq::empty()
            },
            None => Seq::empty(),
        }
    }
}

fn width_of(ps: &Vec<Found>) -> (r: usize)
    ensures
        r == name_width(views(ps@)),
{
    let ghost all = views(ps@);
    let mut width: usize = 7;
    let mut i: usize = 0;
    assert(all.take(0) =~= Seq::<Listed>::empty());
    proof {
        reveal_strlit("PROFILE");
    }
    while i < ps.len()
        invariant
            i <= ps@.len(),
            all == views(ps@),
            width == name_width(all.take(i as int)),
        decreases ps@.len() - i,
    {
        assert(all.take(i + 1).drop_last() =~= all.take(i as int));
        assert(all.take(i + 1).last() == ps@[i as int]@);
        let len: usize = chars_of(ps[i].name.as_str()).len();
        if len > width {
            width = len;
        }
        i += 1;
    }
    assert(all.take(i as int) =~= all);
    width
}

fn is_listed(ps: &Vec<Found>, name: &str) -> (r: bool)
    ensures
        r == listed(views(ps@), name@),
{
    let ghost all = views(ps@);
    let mut i: usize = 0;
    while i < ps.len()
        invariant
            i <= ps@.len(),
            all == views(ps@),
            forall|j: int| 0 <= j < i ==> (#[trigger] all[j]).name != name@,
        decreases ps@.len() - i,
    {
        assert(all[i as int] == ps@[i as int]@);
        if same_text(ps[i].name.as_str(), name) {
            return true;
        }
        i += 1;
    }
    false
}

fn header_line(c: &Palette, width: usize) -> (r: String)
    ensures
        r@ == list_header(c.on, width as nat),
{
    let mut s: String = cat4(
        "  ",
        pad(c.bold("PROFILE").as_str(), width).as_str(),
        "  ",
        align_right("VARS", 4).as_str(),
    );
    s.append("  ");
    s.append(c.bold("ENV FILE").as_str());
    s
}

/// The line on one profile, given how many variables it sets, if it can be read.
fn row_line(
    c: &Palette,
    name: &str,
    file: &str,
    count: Option<usize>,
    is_startup: bool,
    width: usize,
) -> (r: String)
    ensures
        r@ == row_text(
            c.on,
            name@,
            file@,
            match count {
                Some(n) => Some(n as nat),
                None => None,
            },
            is_startup,
            width as nat,
        ),
{
    let marker: String = if is_startup {
        c.green("*")
    } else {
        " ".to_owned()
    };
    let plain: String = pad(name, width);
    let label: String = if is_startup {
        c.bold(plain.as_str())
    } else {
        plain
    };
    let (number, shown): (String, String) = match count {
        Some(n) => (decimal_of(n), c.dim(file)),
        None => ("!".to_owned(), c.red(file)),
    };
    let mut s: String = cat4(marker.as_str(), " ", label.as_str(), "  ");
    s.append(align_right(number.as_str(), 4).as_str());
    s.append("  ");
    s.append(shown.as_str());
    s
}

/// List profiles, marking the one new shells load. What is printed here comes in
/// front of the state of startup loading. `dir` is the directory of the profiles
/// as messages show it.
pub fn cmd_list(c: &Palette, ps: &Vec<Found>, env: &Env, startup: Option<&str>, dir: &str) -> (r:
    Report)
    ensures
        views(r.out@) == list_out(c.on, views(ps@), env@, str_opt(startup)),
        views(r.err@) == list_err(views(ps@), env@, str_opt(startup), dir@),
{
    let mut out: Vec<String> = Vec::new();
    let mut err: Vec<String> = Vec::new();
    if ps.len() == 0 {
        push_item(&mut out, "no profiles yet.".to_owned());
        push_item(&mut out, "create one with: envc create <name>".to_owned());
        push_item(&mut out, "".to_owned());
        assert(views(out@) =~= list_out(c.on, views(ps@), env@, str_opt(startup)));
        assert(views(err@) =~= Seq::<Text>::empty());
        return Report { out, err };
    }
    let ghost all = views(ps@);
    let ghost sorted = in_order(all);
    let ghost start = str_opt(startup);
    let width: usize = width_of(ps);
    let order: Vec<usize> = order_of(ps);
    let ghost head = seq![list_header(c.on, width as nat)];
    let ghost rows = list_rows(c.on, sorted, env@, start, width as nat);
    push_item(&mut out, header_line(c, width));
    assert(views(out@) =~= head + rows.take(0));
    assert(views(err@) =~= list_complaints(sorted.take(0), env@));
    let mut k: usize = 0;
    while k < order.len()
        invariant
            k <= order@.len(),
            order@.len() == ps@.len(),
            forall|i: int| 0 <= i < order@.len() ==> #[trigger] order@[i] < ps@.len(),
            all == views(ps@),
            sorted == picked(all, order@),
            start == str_opt(startup),
            rows == list_rows(c.on, sorted, env@, start, width as nat),
            views(out@) == head + rows.take(k as int),
            views(err@) == list_complaints(sorted.take(k as int), env@),
        decreases order@.len() - k,
    {
        let p: &Found = &ps[order[k]];
        assert(sorted[k as int] == p@);
        assert(sorted.take(k + 1).drop_last() =~= sorted.take(k as int));
        assert(sorted.take(k + 1).last() == p@);
        let is_startup: bool = match startup {
            Some(name) => same_text(name, p.name.as_str()),
            None => false,
        };
        let parsed = parse_env_file(&p.read, env);
        let count: Option<usize> = match &parsed {
            Ok(assignments) => Some(assignments.len()),
            Err(_) => None,
        };
        assert(env_file_view(parsed) == env_file(p@.read, env@));
        let line: String = row_line(c, p.name.as_str(), p.file.as_str(), count, is_startup, width);
        assert(line@ == list_row(c.on, p@, env@, start, width as nat));
        assert(rows[k as int] == line@);
        push_item(&mut out, line);
        if let Err(e) = parsed {
            push_item(
                &mut err,
                cat4(
                    "envc: profile '",
                    p.name.as_str(),
                    "' could not be parsed: ",
                    e.brief(p.file.as_str()).as_str(),
                ),
            );
        }
        k += 1;
        assert(views(out@) =~= head + rows.take(k as int));
    }
    assert(rows.take(k as int) =~= rows);
    assert(sorted.take(k as int) =~= sorted);
    push_item(&mut out, "".to_owned());
    if let Some(name) = startup {
        if !is_listed(ps, name) {
            push_item(
                &mut err,
                cat4("envc: startup profile '", name, "' has no directory under ", dir),
            );
        }
    }
    assert(views(err@) =~= list_err(all, env@, start, dir@));
    Report { out, err }
}

// ---------------------------------------------------------------------------
// Stack
// ---------------------------------------------------------------------------

pub open spec fn stack_report(on: bool, stack: Option<Record>, path: Text) -> Text {
    match stack {
        Some(s) => painted(on, "1"@, "envc:"@) + " '"@ + painted(on, "1"@, s.profile) + "' active, "@
            + decimal(s.entries.len()) + " in the stack\n"@ + path + "\n\n"@ + stack_text(s),
        None => "no profile active; "@ + path + " is absent\n"@,
    }
}

/// Show the restore stack that `deactivate` replays. `path` is its file as
/// messages show it.
pub fn cmd_stack(c: &Palette, stack: &Option<Stack>, path: &str) -> (r: String)
    ensures
        r@ == stack_report(c.on, opt_view(*stack), path@),
{
    match stack {
        Some(s) => {
            let mut text: String = cat5(
                c.bold("envc:").as_str(),
                " '",
                c.bold(s.profile.as_str()).as_str(),
                "' active, ",
                decimal_of(s.entries.len()).as_str(),
            );
            text.append(" in the stack\n");
            text.append(path);
            text.append("\n\n");
            text.append(s.render().as_str());
            text
        },
        None => cat3("no profile active; ", path, " is absent\n"),
    }
}

// ---------------------------------------------------------------------------
// Status
// ---------------------------------------------------------------------------

/// A line of the status: a label in a column of its own, and what it is about.
pub open spec fn status_line(label: Text, value: Text) -> Text {
    "  "@ + padded(label, 17) + value
}

fn status_row(label: &str, value: &str) -> (r: String)
    ensures
        r@ == status_line(label@, value@),
{
    cat3("  ", pad(label, 17).as_str(), value)
}

/// What `status` goes by. Paths are as messages show them.
pub struct Status {
    pub version: String,
    pub home: String,
    pub shell: Shell,
    pub place: StartupPlace,
    /// The profile new shells load.
    pub startup: Option<String>,
    /// The profile this shell has applied.
    pub active: Option<String>,
    pub stack: Option<Stack>,
    pub stack_path: String,
    pub profile_count: usize,
    pub profiles: String,
}

pub open spec fn status_startup(on: bool, enabled: bool, startup: Option<Text>) -> Text {
    match (enabled, startup) {
        (true, Some(s)) => painted(on, "1"@, s),
        (true, None) => painted(on, "2"@, "(none -- `envc enable <name>`)"@),
        (false, Some(s)) => painted(on, "1"@, s) + " "@ + painted(
            on,
            "2"@,
            "(remembered, loading off)"@,
        ),
        (false, None) => painted(on, "2"@, "(none)"@),
    }
}

pub open spec fn status_out(on: bool, s: Status) -> Seq<Text> {
    let enabled = is_on(s.place@);
    seq![
        painted(on, "1"@, "envc"@) + " "@ + s.version@,
        status_line("home"@, s.home@),
        status_line("shell"@, shell_name(s.shell)),
        status_line(
            "startup loading"@,
            state_text(on, enabled) + " ("@ + place_text(s.place@) + ")"@,
        ),
        status_line("startup profile"@, status_startup(on, enabled, opt_view(s.startup))),
        status_line(
            "this shell"@,
            match opt_view(s.active) {
                Some(name) => painted(on, "1"@, name),
                None => painted(on, "2"@, "(none)"@),
            },
        ),
        status_line(
            "restore stack"@,
            match opt_view(s.stack) {
                Some(st) => decimal(st.entries.len()) + " vars ("@ + s.stack_path@ + ")"@,
                None => painted(on, "2"@, "(empty)"@),
            },
        ),
        status_line("profiles"@, decimal(s.profile_count as nat) + " in "@ + s.profiles@),
    ]
}

/// What is said where this shell is not showing what the next shell will load,
/// which is exactly when the user needs to be told.
pub open spec fn status_err(enabled: bool, startup: Option<Text>, active: Option<Text>) -> Seq<Text> {
    match (startup, active) {
        (Some(s), Some(cur)) => if enabled && s != cur {
            seq![
                ""@,
                "envc: note: this shell has '"@ + cur + "', new shells load '"@ + s + "'."@,
                "envc:       `envc activate "@ + s + "` to match, `envc enable "@ + cur
                    + "` to switch."@,
            ]
        } else {
            Seq::empty()
        },
        _ => Seq::empty(),
    }
}

/// Show what is enabled and active right now.
pub fn cmd_status(c: &Palette, s: &Status) -> (r: Report)
    ensures
        views(r.out@) == status_out(c.on, *s),
        views(r.err@) == status_err(is_on(s.place@), opt_view(s.startup), opt_view(s.active)),
{
    let enabled: bool = startup_is_on(&s.place);
    let mut out: Vec<String> = Vec::new();
    push_item(&mut out, cat3(c.bold("envc").as_str(), " ", s.version.as_str()));
    push_item(&mut out, status_row("home", s.home.as_str()));
    push_item(&mut out, status_row("shell", s.shell.name()));
    let loading: String = cat4(
        state_label(c, enabled).as_str(),
        " (",
        startup_where(&s.place).as_str(),
        ")",
    );
    push_item(&mut out, status_row("startup loading", loading.as_str()));
    let profile: String = match &s.startup {
        Some(name) => if enabled {
            c.bold(name.as_str())
        } else {
            cat3(c.bold(name.as_str()).as_str(), " ", c.dim("(remembered, loading off)").as_str())
        },
        None => if enabled {
            c.dim("(none -- `envc enable <name>`)")
        } else {
            c.dim("(none)")
        },
    };
    push_item(&mut out, status_row("startup profile", profile.as_str()));
    let here: String = match &s.active {
        Some(name) => c.bold(name.as_str()),
        None => c.dim("(none)"),
    };
    push_item(&mut out, status_row("this shell", here.as_str()));
    let restore: String = match &s.stack {
        Some(st) => cat4(
            decimal_of(st.entries.len()).as_str(),
            " vars (",
            s.stack_path.as_str(),
            ")",
        ),
        None => c.dim("(empty)"),
    };
    push_item(&mut out, status_row("restore stack", restore.as_str()));
    let count: String = cat3(decimal_of(s.profile_count).as_str(), " in ", s.profiles.as_str());
    push_item(&mut out, status_row("profiles", count.as_str()));
    assert(views(out@) =~= status_out(c.on, *s));
    let mut err: Vec<String> = Vec::new();
    if enabled {
        if let Some(startup) = &s.startup {
            if let Some(cur) = &s.active {
                if !same_text(startup.as_str(), cur.as_str()) {
                    push_item(&mut err, "".to_owned());
                    push_item(
                        &mut err,
                        cat5(
                            "envc: note: this shell has '",
                            cur.as_str(),
                            "', new shells load '",
                            startup.as_str(),
                            "'.",
                        ),
                    );
                    push_item(
                        &mut err,
                        cat5(
                            "envc:       `envc activate ",
                            startup.as_str(),
                            "` to match, `envc enable ",
                            cur.as_str(),
                            "` to switch.",
                        ),
                    );
                }
            }
        }
    }
    assert(views(err@) =~= status_err(enabled, opt_view(s.startup), opt_view(s.active)));
    Report { out, err }
}

} // verus!
