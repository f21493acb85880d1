//! What the reports and messages say.

use vstd::prelude::*;

use crate::activation::{activation, activation_hint, activation_text, deactivation, notice};
use crate::env::Vars;
use crate::files::{env_file, env_file_fault_brief, loaded_stack};
use crate::laws::grammar::stands_at;
use crate::laws::listing::a_listing_is_complete_and_in_order;
use crate::laws::profiles::lemma_occurs;
use crate::loading::{enable_report, is_on, place_text, Place};
use crate::palette::painted;
use crate::paths::tilde_text;
use crate::report::{
    count_of, in_order, list_complaints, list_err, list_header, list_out, list_row, listed,
    name_width, padded, right_aligned, stack_report, startup_summary, state_text, status_err,
    status_line, status_out, status_startup, Listed, Status,
};
use crate::shell::{shell_name, Shell};
use crate::stack::{stack_text, Record};
use crate::text::{begins, decimal, occurs, opt_view, Text};
use crate::user_env::{user_disable_report, user_enable_report};

verus! {

/// Whether `s` ends in `t`.
pub open spec fn ends(s: Text, t: Text) -> bool {
    t.len() <= s.len() && s.skip(s.len() - t.len()) == t
}

// ---------------------------------------------------------------------------
// Columns
// ---------------------------------------------------------------------------

/// A column is as wide as it should be, or as what stands in it: that stands at
/// its left or its right, and the rest is spaces.
pub proof fn a_column_is_filled_with_spaces(s: Text, width: nat)
    ensures
        padded(s, width).len() == if s.len() > width {
            s.len()
        } else {
            width
        },
        begins(padded(s, width), s),
        forall|i: int| s.len() <= i < padded(s, width).len() ==> padded(s, width)[i] == ' ',
        right_aligned(s, width).len() == if s.len() > width {
            s.len()
        } else {
            width
        },
        ends(right_aligned(s, width), s),
        forall|i: int|
            0 <= i < right_aligned(s, width).len() - s.len() ==> right_aligned(s, width)[i] == ' ',
{
    assert(padded(s, width).take(s.len() as int) =~= s);
    let r = right_aligned(s, width);
    assert(r.skip(r.len() - s.len()) =~= s);
}

/// Color stands around a text and does not change it; without color there is
/// nothing around it.
pub proof fn color_stands_around(code: Text, s: Text)
    ensures
        painted(false, code, s) == s,
        painted(true, code, s).len() == code.len() + s.len() + 7,
        stands_at(painted(true, code, s), 2, code),
        stands_at(painted(true, code, s), 3 + code.len() as int, s),
        painted(true, code, s)[0] == '\x1b' && painted(true, code, s)[1] == '[',
        painted(true, code, s)[2 + code.len() as int] == 'm',
        ends(painted(true, code, s), "\x1b[0m"@),
{
    reveal_strlit("\x1b[");
    reveal_strlit("m");
    reveal_strlit("\x1b[0m");
    let p = painted(true, code, s);
    assert(p.skip(p.len() - 4) =~= "\x1b[0m"@);
}

/// A path in the home directory is shown under `~`, and any other as it is.
pub proof fn paths_are_shown_under_the_home_directory(path: Text, rest: Text)
    ensures
        tilde_text(path, None) == path,
        tilde_text(path, Some(rest))[0] == '~',
        rest.len() == 0 ==> tilde_text(path, Some(rest)).len() == 1,
        rest.len() > 0 ==> tilde_text(path, Some(rest)).len() == rest.len() + 2 && tilde_text(
            path,
            Some(rest),
        )[1] == '/' && ends(tilde_text(path, Some(rest)), rest),
{
    reveal_strlit("~");
    reveal_strlit("~/");
    let t = tilde_text(path, Some(rest));
    if rest.len() > 0 {
        assert(t.skip(t.len() - rest.len()) =~= rest);
    }
}

// ---------------------------------------------------------------------------
// List
// ---------------------------------------------------------------------------

/// The column of names is as wide as the longest name, and as its heading.
pub proof fn the_column_fits_every_name(ps: Seq<Listed>)
    ensures
        name_width(ps) >= 7,
        forall|i: int| 0 <= i < ps.len() ==> (#[trigger] ps[i]).name.len() <= name_width(ps),
        name_width(ps) == 7 || exists|i: int|
            0 <= i < ps.len() && (#[trigger] ps[i]).name.len() == name_width(ps),
    decreases ps.len(),
{
    reveal_strlit("PROFILE");
    if ps.len() > 0 {
        let shorter = ps.drop_last();
        let n: int = ps.len() - 1;
        the_column_fits_every_name(shorter);
        assert forall|i: int| 0 <= i < ps.len() implies (#[trigger] ps[i]).name.len() <= name_width(
            ps,
        ) by {
            if i < n {
                assert(shorter[i].name.len() <= name_width(shorter));
            }
        }
        if name_width(ps) == ps[n].name.len() {
        } else if name_width(shorter) != 7 {
            let i = choose|i: int|
                0 <= i < shorter.len() && (#[trigger] shorter[i]).name.len() == name_width(shorter);
            assert(ps[i].name.len() == name_width(ps));
        }
    }
}

/// How many variables a profile sets, as it is shown.
pub open spec fn shown_count(p: Listed, env: Vars) -> Text {
    match env_file(p.read, env) {
        Ok(made) => decimal(made.len()),
        Err(_) => seq!['!'],
    }
}

/// A row without color says which profile it is about, whether new shells load it,
/// how many variables it sets, and where it is, all at the same places in every
/// row.
pub proof fn a_row_says_what_it_is_about(
    p: Listed,
    env: Vars,
    startup: Option<Text>,
    width: nat,
)
    requires
        p.name.len() <= width,
    ensures
        ({
            let row = list_row(false, p, env, startup, width);
            let count = right_aligned(shown_count(p, env), 4);
            &&& row[0] == (if startup == Some(p.name) {
                '*'
            } else {
                ' '
            })
            &&& row[1] == ' '
            &&& stands_at(row, 2, p.name)
            &&& forall|i: int| 2 + p.name.len() <= i < 4 + width ==> row[i] == ' '
            &&& stands_at(row, 4 + width as int, count)
            &&& row.len() == 6 + width + count.len() + p.file.len()
            &&& ends(row, p.file)
        }),
{
    reveal_strlit("*");
    reveal_strlit(" ");
    reveal_strlit("  ");
    reveal_strlit("!");
    let row = list_row(false, p, env, startup, width);
    let count = right_aligned(shown_count(p, env), 4);
    assert("!"@ =~= seq!['!']);
    let label = padded(p.name, width);
    a_column_is_filled_with_spaces(p.name, width);
    assert(label.len() == width);
    let mark = if startup == Some(p.name) {
        "*"@
    } else {
        " "@
    };
    assert(row == mark + " "@ + label + "  "@ + count + "  "@ + p.file);
    assert forall|j: int| 0 <= j < p.name.len() implies row[2 + j] == #[trigger] p.name[j] by {
        assert(row[2 + j] == label[j]);
    }
    assert forall|j: int| 0 <= j < count.len() implies row[4 + width + j] == #[trigger] count[j] by {}
    assert(row.skip(row.len() - p.file.len()) =~= p.file);
}

/// In color, the marker of the profile that new shells load is green and its name
/// bold; a file that cannot be read is red, and any other dim.
pub proof fn colors_mark_what_matters(
    p: Listed,
    env: Vars,
    startup: Option<Text>,
    width: nat,
)
    ensures
        ({
            let row = list_row(true, p, env, startup, width);
            &&& startup == Some(p.name) ==> begins(
                row,
                "\x1b[32m*\x1b[0m \x1b[1m"@ + p.name,
            )
            &&& startup != Some(p.name) ==> begins(row, "  "@ + p.name)
            &&& env_file(p.read, env) is Ok ==> ends(row, "\x1b[2m"@ + p.file + "\x1b[0m"@)
            &&& env_file(p.read, env) is Err ==> ends(row, "\x1b[31m"@ + p.file + "\x1b[0m"@)
        }),
{
    reveal_strlit("\x1b[");
    reveal_strlit("m");
    reveal_strlit("\x1b[0m");
    reveal_strlit("1");
    reveal_strlit("2");
    reveal_strlit("31");
    reveal_strlit("32");
    reveal_strlit("*");
    reveal_strlit(" ");
    reveal_strlit("  ");
    reveal_strlit("\x1b[32m*\x1b[0m \x1b[1m");
    reveal_strlit("\x1b[2m");
    reveal_strlit("\x1b[31m");
    let row = list_row(true, p, env, startup, width);
    let label = padded(p.name, width);
    a_column_is_filled_with_spaces(p.name, width);
    let front = if startup == Some(p.name) {
        "\x1b[32m*\x1b[0m \x1b[1m"@ + p.name
    } else {
        "  "@ + p.name
    };
    assert(label.take(p.name.len() as int) == p.name);
    assert forall|j: int| 0 <= j < p.name.len() implies label[j] == p.name[j] by {
        assert(label.take(p.name.len() as int)[j] == p.name[j]);
    }
    assert(row.take(front.len() as int) =~= front);
    let back = if env_file(p.read, env) is Ok {
        "\x1b[2m"@ + p.file + "\x1b[0m"@
    } else {
        "\x1b[31m"@ + p.file + "\x1b[0m"@
    };
    assert(row.skip(row.len() - back.len()) =~= back);
}

/// In color a row holds the same as without, with color around the marker, the name
/// and the file.
pub proof fn colors_change_nothing_else(p: Listed, env: Vars, startup: Option<Text>, width: nat)
    requires
        p.name.len() <= width,
    ensures
        ({
            let row = list_row(false, p, env, startup, width);
            let label = row.subrange(2, 2 + width as int);
            let middle = row.subrange(2 + width as int, row.len() - p.file.len());
            let is_startup = startup == Some(p.name);
            list_row(true, p, env, startup, width) == (if is_startup {
                painted(true, "32"@, seq!['*']) + seq![' '] + painted(true, "1"@, label)
            } else {
                seq![' ', ' '] + label
            }) + middle + painted(
                true,
                if env_file(p.read, env) is Err {
                    "31"@
                } else {
                    "2"@
                },
                p.file,
            )
        }),
{
    reveal_strlit("*");
    reveal_strlit(" ");
    reveal_strlit("  ");
    let row = list_row(false, p, env, startup, width);
    let label = padded(p.name, width);
    a_column_is_filled_with_spaces(p.name, width);
    let number = match count_of(env_file(p.read, env)) {
        Some(n) => decimal(n),
        None => "!"@,
    };
    let count = right_aligned(number, 4);
    let mark = if startup == Some(p.name) {
        "*"@
    } else {
        " "@
    };
    assert(row == mark + " "@ + label + "  "@ + count + "  "@ + p.file);
    assert("*"@ =~= seq!['*']);
    assert(" "@ =~= seq![' ']);
    assert(row.subrange(2, 2 + width as int) =~= label);
    assert(row.subrange(2 + width as int, row.len() - p.file.len()) =~= "  "@ + count + "  "@);
    assert(seq![' ', ' '] =~= " "@ + " "@);
    let front = if startup == Some(p.name) {
        painted(true, "32"@, "*"@) + " "@ + painted(true, "1"@, label)
    } else {
        " "@ + " "@ + label
    };
    let back = painted(
        true,
        if env_file(p.read, env) is Err {
            "31"@
        } else {
            "2"@
        },
        p.file,
    );
    assert(front + "  "@ + count + "  "@ + back =~= front + ("  "@ + count + "  "@) + back);
}

/// In color the headings are bold.
pub proof fn headings_are_bold(width: nat)
    ensures
        begins(list_header(true, width), "  "@ + painted(true, "1"@, "PROFILE"@)),
        ends(list_header(true, width), "VARS  "@ + painted(true, "1"@, "ENV FILE"@)),
{
    reveal_strlit("  ");
    reveal_strlit("VARS");
    reveal_strlit("VARS  ");
    let name = painted(true, "1"@, "PROFILE"@);
    let file = painted(true, "1"@, "ENV FILE"@);
    let h = list_header(true, width);
    let label = padded(name, width);
    a_column_is_filled_with_spaces(name, width);
    a_column_is_filled_with_spaces("VARS"@, 4);
    let vars = right_aligned("VARS"@, 4);
    assert(vars.skip(0) =~= vars);
    assert(vars == "VARS"@);
    assert(h == "  "@ + label + "  "@ + vars + "  "@ + file);
    let front = "  "@ + name;
    assert forall|j: int| 0 <= j < name.len() implies label[j] == name[j] by {
        assert(label.take(name.len() as int)[j] == name[j]);
    }
    assert(h.take(front.len() as int) =~= front);
    let back = "VARS  "@ + file;
    assert("VARS  "@ =~= "VARS"@ + "  "@);
    assert(h.skip(h.len() - back.len()) =~= back);
}

/// A listing has a heading, a row for each profile in the order of the names, and
/// an empty line; where there are no profiles it says so.
pub proof fn a_listing_has_a_row_for_each_profile(
    on: bool,
    ps: Seq<Listed>,
    env: Vars,
    startup: Option<Text>,
)
    ensures
        ps.len() == 0 ==> list_out(on, ps, env, startup).len() == 3,
        list_out(on, ps, env, startup).last().len() == 0,
        ps.len() > 0 ==> {
            let out = list_out(on, ps, env, startup);
            &&& out.len() == ps.len() + 2
            &&& in_order(ps).len() == ps.len()
            &&& in_order(ps).to_multiset() == ps.to_multiset()
            &&& forall|k: int|
                0 <= k < ps.len() ==> #[trigger] out[k + 1] == list_row(
                    on,
                    in_order(ps)[k],
                    env,
                    startup,
                    name_width(ps),
                )
            &&& !on ==> ends(out[0], "ENV FILE"@) && begins(out[0], "  PROFILE"@) && out[0].len()
                == name_width(ps) + 18
        },
{
    reveal_strlit("");
    a_listing_is_complete_and_in_order(ps);
    ps.to_multiset_ensures();
    in_order(ps).to_multiset_ensures();
    if ps.len() > 0 && !on {
        reveal_strlit("  ");
        reveal_strlit("PROFILE");
        reveal_strlit("VARS");
        reveal_strlit("ENV FILE");
        reveal_strlit("  PROFILE");
        let h = list_header(false, name_width(ps));
        the_column_fits_every_name(ps);
        a_column_is_filled_with_spaces("PROFILE"@, name_width(ps));
        a_column_is_filled_with_spaces("VARS"@, 4);
        let label = padded("PROFILE"@, name_width(ps));
        assert forall|j: int| 0 <= j < 7 implies label[j] == "PROFILE"@[j] by {
            assert(label.take(7)[j] == "PROFILE"@[j]);
        }
        assert(h.take(9) =~= "  PROFILE"@);
        assert(h.skip(h.len() - 8) =~= "ENV FILE"@);
    }
}

/// Every profile that cannot be read is complained of by name, and so is a startup
/// profile that is not there; nothing else is.
pub proof fn complaints_are_about_what_is_wrong(
    ps: Seq<Listed>,
    env: Vars,
    startup: Option<Text>,
    dir: Text,
)
    requires
        ps.len() > 0,
    ensures
        ({
            let err = list_err(ps, env, startup, dir);
            let missing = startup matches Some(name) && !listed(ps, name);
            &&& forall|k: int|
                0 <= k < ps.len() && env_file((#[trigger] in_order(ps)[k]).read, env) is Err
                    ==> exists|i: int|
                    0 <= i < err.len() && occurs(#[trigger] err[i], in_order(ps)[k].name) && occurs(
                        err[i],
                        env_file_fault_brief(
                            in_order(ps)[k].file,
                            env_file(in_order(ps)[k].read, env)->Err_0,
                        ),
                    )
            &&& err.len() == broken(in_order(ps), env) + (if missing {
                1nat
            } else {
                0
            })
            &&& missing ==> occurs(err.last(), startup->0) && occurs(err.last(), dir)
        }),
{
    let err = list_err(ps, env, startup, dir);
    let sorted = in_order(ps);
    a_listing_is_complete_and_in_order(ps);
    ps.to_multiset_ensures();
    sorted.to_multiset_ensures();
    lemma_complaints(sorted, env);
    let first = list_complaints(sorted, env);
    assert forall|k: int| 0 <= k < ps.len() && env_file((#[trigger] sorted[k]).read, env) is Err
        implies exists|i: int|
        0 <= i < err.len() && occurs(#[trigger] err[i], sorted[k].name) && occurs(
            err[i],
            env_file_fault_brief(sorted[k].file, env_file(sorted[k].read, env)->Err_0),
        ) by {
        let i = choose|i: int|
            0 <= i < first.len() && occurs(#[trigger] first[i], sorted[k].name) && occurs(
                first[i],
                env_file_fault_brief(sorted[k].file, env_file(sorted[k].read, env)->Err_0),
            );
        assert(err[i] == first[i]);
    }
    if let Some(name) = startup {
        let a = "envc: startup profile '"@;
        let b = "' has no directory under "@;
        lemma_occurs(a, name, b + dir);
        assert(a + name + (b + dir) =~= a + name + b + dir);
        lemma_occurs(a + name + b, dir, Seq::empty());
        assert(a + name + b + dir + Seq::<char>::empty() =~= a + name + b + dir);
    }
}

/// Where there are no profiles there is nothing to complain of.
pub proof fn no_profiles_no_complaints(env: Vars, startup: Option<Text>, dir: Text)
    ensures
        list_err(Seq::empty(), env, startup, dir).len() == 0,
{
}

/// How many of the profiles cannot be read.
pub open spec fn broken(ps: Seq<Listed>, env: Vars) -> nat
    decreases ps.len(),
{
    if ps.len() == 0 {
        0
    } else {
        broken(ps.drop_last(), env) + (if env_file(ps.last().read, env) is Err {
            1nat
        } else {
            0
        })
    }
}

proof fn lemma_complaints(ps: Seq<Listed>, env: Vars)
    ensures
        list_complaints(ps, env).len() == broken(ps, env),
        forall|k: int|
            0 <= k < ps.len() && env_file((#[trigger] ps[k]).read, env) is Err ==> exists|i: int|
                0 <= i < list_complaints(ps, env).len() && occurs(
                    #[trigger] list_complaints(ps, env)[i],
                    ps[k].name,
                ) && occurs(
                    list_complaints(ps, env)[i],
                    env_file_fault_brief(ps[k].file, env_file(ps[k].read, env)->Err_0),
                ),
    decreases ps.len(),
{
    if ps.len() > 0 {
        let shorter = ps.drop_last();
        let before = list_complaints(shorter, env);
        let all = list_complaints(ps, env);
        lemma_complaints(shorter, env);
        let p = ps.last();
        assert forall|k: int| 0 <= k < ps.len() && env_file((#[trigger] ps[k]).read, env) is Err
            implies exists|i: int|
            0 <= i < all.len() && occurs(#[trigger] all[i], ps[k].name) && occurs(
                all[i],
                env_file_fault_brief(ps[k].file, env_file(ps[k].read, env)->Err_0),
            ) by {
            if k < shorter.len() {
                assert(shorter[k] == ps[k]);
                let i = choose|i: int|
                    0 <= i < before.len() && occurs(#[trigger] before[i], ps[k].name) && occurs(
                        before[i],
                        env_file_fault_brief(ps[k].file, env_file(ps[k].read, env)->Err_0),
                    );
                assert(all[i] == before[i]);
            } else {
                let e = env_file_fault_brief(p.file, env_file(p.read, env)->Err_0);
                let a = "envc: profile '"@;
                let b = "' could not be parsed: "@;
                lemma_occurs(a, p.name, b + e);
                assert(a + p.name + (b + e) =~= a + p.name + b + e);
                lemma_occurs(a + p.name + b, e, Seq::empty());
                assert(a + p.name + b + e + Seq::<char>::empty() =~= a + p.name + b + e);
                assert(all[before.len() as int] == a + p.name + b + e);
            }
        }
    }
}

// ---------------------------------------------------------------------------
// The state of startup loading
// ---------------------------------------------------------------------------

/// What is said of startup loading: whether it is on, where only if it is, which
/// profile, and this shell's own profile exactly where that is not the one that
/// new shells load.
pub proof fn the_state_of_startup_loading_is_told(
    on: bool,
    startup: Option<Text>,
    place: Place,
    current: Option<Text>,
)
    ensures
        ({
            let told = startup_summary(on, startup, place, current);
            let agrees = is_on(place) && startup == current;
            &&& told.len() == (if current is Some && !agrees {
                3int
            } else {
                2
            })
            &&& is_on(place) ==> occurs(told[0], "enabled"@) && occurs(told[0], place_text(place))
            &&& !is_on(place) ==> ends(told[0], state_text(on, false)) && occurs(
                told[0],
                "disabled"@,
            )
            &&& startup matches Some(name) ==> occurs(told[1], name)
            &&& startup is Some && !is_on(place) ==> occurs(told[1], "(remembered, loading off)"@)
            &&& startup is Some && is_on(place) ==> ends(
                told[1],
                painted(on, "1"@, startup->0),
            )
            &&& startup is None ==> told[1] == (if is_on(place) {
                "startup profile: (none -- `envc enable <name>`)"@
            } else {
                "startup profile: (none)"@
            })
            &&& told.len() == 3 ==> ends(told[2], current->0)
        }),
{
    let told = startup_summary(on, startup, place, current);
    let a = "startup loading: "@;
    let where_ = place_text(place);
    if is_on(place) {
        lemma_painted(on, "32"@, "enabled"@, a, " ("@ + where_ + ")"@);
        assert(a + painted(on, "32"@, "enabled"@) + (" ("@ + where_ + ")"@) =~= told[0]);
        lemma_occurs(a + painted(on, "32"@, "enabled"@) + " ("@, where_, ")"@);
        assert(a + painted(on, "32"@, "enabled"@) + " ("@ + where_ + ")"@ =~= told[0]);
    } else {
        reveal_strlit("");
        lemma_painted(on, "33"@, "disabled"@, a, Seq::empty());
        assert(""@ =~= Seq::<char>::empty());
        assert(told[0] =~= a + painted(on, "33"@, "disabled"@));
        assert(a + painted(on, "33"@, "disabled"@) + Seq::<char>::empty() =~= told[0]);
        lemma_ends(a, painted(on, "33"@, "disabled"@));
    }
    if let Some(name) = startup {
        let b = "startup profile: "@;
        if is_on(place) {
            lemma_painted(on, "1"@, name, b, Seq::empty());
            assert(b + painted(on, "1"@, name) + Seq::<char>::empty() =~= told[1]);
            lemma_ends(b, painted(on, "1"@, name));
        } else {
            let off = "(remembered, loading off)"@;
            let c = painted(on, "2"@, off);
            lemma_painted(on, "1"@, name, b, " "@ + c);
            assert(b + painted(on, "1"@, name) + (" "@ + c) =~= told[1]);
            lemma_painted(on, "2"@, off, b + painted(on, "1"@, name) + " "@, Seq::empty());
            assert(b + painted(on, "1"@, name) + " "@ + c + Seq::<char>::empty() =~= told[1]);
        }
    }
    if let Some(cur) = current {
        lemma_ends("this shell:      "@, cur);
    }
}

/// A text occurs where it is painted.
proof fn lemma_painted(on: bool, code: Text, s: Text, before: Text, after: Text)
    ensures
        occurs(before + painted(on, code, s) + after, s),
{
    if on {
        let front = before + ("\x1b["@ + code + "m"@);
        let back = "\x1b[0m"@ + after;
        lemma_occurs(front, s, back);
        assert(front + s + back =~= before + painted(on, code, s) + after);
    } else {
        lemma_occurs(before, s, after);
    }
}

proof fn lemma_ends(a: Text, t: Text)
    ensures
        ends(a + t, t),
{
    let s = a + t;
    assert(s.skip(s.len() - t.len()) =~= t);
}

// ---------------------------------------------------------------------------
// Stack and status
// ---------------------------------------------------------------------------

/// The report on the restore stack ends in the file itself, and names the profile,
/// the number of its variables and the file in front of it; without a stack it
/// says where there is none.
pub proof fn the_stack_is_shown_as_it_is(on: bool, stack: Option<Record>, path: Text)
    ensures
        stack matches Some(s) ==> {
            let told = stack_report(on, stack, path);
            &&& ends(told, stack_text(s))
            &&& occurs(told, s.profile)
            &&& occurs(told, decimal(s.entries.len()))
            &&& occurs(told, path)
        },
        stack is None ==> occurs(stack_report(on, stack, path), path),
{
    match stack {
        Some(s) => {
            let a = painted(on, "1"@, "envc:"@) + " '"@;
            let name = painted(on, "1"@, s.profile);
            let b = "' active, "@;
            let n = decimal(s.entries.len());
            let c = " in the stack\n"@;
            let d = "\n\n"@;
            let t = stack_text(s);
            let told = stack_report(on, stack, path);
            assert(told == a + name + b + n + c + path + d + t);
            lemma_ends(a + name + b + n + c + path + d, t);
            let tail1 = b + n + c + path + d + t;
            lemma_painted(on, "1"@, s.profile, a, tail1);
            assert(a + name + tail1 =~= told);
            let tail2 = c + path + d + t;
            lemma_occurs(a + name + b, n, tail2);
            assert(a + name + b + n + tail2 =~= told);
            let tail3 = d + t;
            lemma_occurs(a + name + b + n + c, path, tail3);
            assert(a + name + b + n + c + path + tail3 =~= told);
        },
        None => {
            lemma_occurs("no profile active; "@, path, " is absent\n"@);
        },
    }
}

/// A line of the status has its label and what it is about in columns.
pub proof fn a_status_line_has_two_columns(label: Text, value: Text)
    requires
        label.len() <= 17,
    ensures
        ({
            let line = status_line(label, value);
            &&& line.len() == 19 + value.len()
            &&& stands_at(line, 2, label)
            &&& stands_at(line, 19, value)
            &&& forall|i: int| 2 + label.len() <= i < 19 ==> line[i] == ' '
        }),
{
    reveal_strlit("  ");
    let line = status_line(label, value);
    let col = padded(label, 17);
    a_column_is_filled_with_spaces(label, 17);
    assert(line == "  "@ + col + value);
    assert forall|j: int| 0 <= j < label.len() implies line[2 + j] == #[trigger] label[j] by {
        assert(col.take(label.len() as int)[j] == col[j]);
        assert(line[2 + j] == col[j]);
    }
    assert forall|j: int| 0 <= j < value.len() implies line[19 + j] == #[trigger] value[j] by {}
}

/// The status tells the version, the directory, the shell, whether and where
/// startup loading is on, the profiles of new shells and of this one, how much is
/// on the stack and where, and how many profiles there are and where.
pub proof fn the_status_tells_everything(on: bool, s: Status)
    ensures
        ({
            let out = status_out(on, s);
            &&& out.len() == 8
            &&& ends(out[0], s.version@)
            &&& begins(out[0], painted(on, "1"@, "envc"@))
            &&& ends(out[1], s.home@)
            &&& ends(out[2], shell_name(s.shell))
            &&& ends(out[3], (if is_on(s.place@) {
                painted(on, "32"@, "enabled"@)
            } else {
                painted(on, "33"@, "disabled"@)
            }) + " ("@ + place_text(s.place@) + ")"@)
            &&& ends(out[4], match (opt_view(s.startup), is_on(s.place@)) {
                (Some(name), true) => painted(on, "1"@, name),
                (Some(name), false) => painted(on, "1"@, name) + " "@ + painted(
                    on,
                    "2"@,
                    "(remembered, loading off)"@,
                ),
                (None, true) => painted(on, "2"@, "(none -- `envc enable <name>`)"@),
                (None, false) => painted(on, "2"@, "(none)"@),
            })
            &&& ends(out[5], match opt_view(s.active) {
                Some(name) => painted(on, "1"@, name),
                None => painted(on, "2"@, "(none)"@),
            })
            &&& ends(out[6], match opt_view(s.stack) {
                Some(r) => decimal(r.entries.len()) + " vars ("@ + s.stack_path@ + ")"@,
                None => painted(on, "2"@, "(empty)"@),
            })
            &&& ends(out[7], decimal(s.profile_count as nat) + " in "@ + s.profiles@)
        }),
{
    let out = status_out(on, s);
    let title = painted(on, "1"@, "envc"@);
    lemma_ends(title + " "@, s.version@);
    assert(out[0].take(title.len() as int) =~= title);
    lemma_status_ends("home"@, s.home@);
    lemma_status_ends("shell"@, shell_name(s.shell));
    lemma_status_ends(
        "startup loading"@,
        state_text(on, is_on(s.place@)) + " ("@ + place_text(s.place@) + ")"@,
    );
    lemma_status_ends(
        "startup profile"@,
        status_startup(on, is_on(s.place@), opt_view(s.startup)),
    );
    lemma_status_ends(
        "this shell"@,
        match opt_view(s.active) {
            Some(name) => painted(on, "1"@, name),
            None => painted(on, "2"@, "(none)"@),
        },
    );
    lemma_status_ends(
        "restore stack"@,
        match opt_view(s.stack) {
            Some(r) => decimal(r.entries.len()) + " vars ("@ + s.stack_path@ + ")"@,
            None => painted(on, "2"@, "(empty)"@),
        },
    );
    lemma_status_ends("profiles"@, decimal(s.profile_count as nat) + " in "@ + s.profiles@);
}

/// Each line of the status stands under its label.
pub proof fn the_status_is_labelled(on: bool, s: Status)
    ensures
        ({
            let out = status_out(on, s);
            &&& begins(out[1], "  home             "@)
            &&& begins(out[2], "  shell            "@)
            &&& begins(out[3], "  startup loading  "@)
            &&& begins(out[4], "  startup profile  "@)
            &&& begins(out[5], "  this shell       "@)
            &&& begins(out[6], "  restore stack    "@)
            &&& begins(out[7], "  profiles         "@)
        }),
{
    let out = status_out(on, s);
    reveal_strlit("home");
    reveal_strlit("shell");
    reveal_strlit("startup loading");
    reveal_strlit("startup profile");
    reveal_strlit("this shell");
    reveal_strlit("restore stack");
    reveal_strlit("profiles");
    reveal_strlit("  home             ");
    reveal_strlit("  shell            ");
    reveal_strlit("  startup loading  ");
    reveal_strlit("  startup profile  ");
    reveal_strlit("  this shell       ");
    reveal_strlit("  restore stack    ");
    reveal_strlit("  profiles         ");
    reveal_strlit("  ");
    assert("  "@ + padded("home"@, 17) =~= "  home             "@);
    assert("  "@ + padded("shell"@, 17) =~= "  shell            "@);
    assert("  "@ + padded("startup loading"@, 17) =~= "  startup loading  "@);
    assert("  "@ + padded("startup profile"@, 17) =~= "  startup profile  "@);
    assert("  "@ + padded("this shell"@, 17) =~= "  this shell       "@);
    assert("  "@ + padded("restore stack"@, 17) =~= "  restore stack    "@);
    assert("  "@ + padded("profiles"@, 17) =~= "  profiles         "@);
    assert(out[1].take(19) =~= "  home             "@);
    assert(out[2].take(19) =~= "  shell            "@);
    assert(out[3].take(19) =~= "  startup loading  "@);
    assert(out[4].take(19) =~= "  startup profile  "@);
    assert(out[5].take(19) =~= "  this shell       "@);
    assert(out[6].take(19) =~= "  restore stack    "@);
    assert(out[7].take(19) =~= "  profiles         "@);
}

proof fn lemma_status_ends(label: Text, value: Text)
    ensures
        ends(status_line(label, value), value),
{
    lemma_ends("  "@ + padded(label, 17), value);
}

/// That this shell and new shells differ is told exactly where both have a profile,
/// the two are not the same, and new shells load theirs; and both are named.
pub proof fn a_disagreement_is_told(enabled: bool, startup: Option<Text>, active: Option<Text>)
    ensures
        ({
            let err = status_err(enabled, startup, active);
            let differ = enabled && startup is Some && active is Some && startup != active;
            &&& err.len() == (if differ {
                3int
            } else {
                0
            })
            &&& differ ==> occurs(err[1], active->0) && occurs(err[1], startup->0) && occurs(
                err[2],
                active->0,
            ) && occurs(err[2], startup->0)
        }),
{
    if enabled && startup is Some && active is Some && startup != active {
        let s = startup->0;
        let cur = active->0;
        let a = "envc: note: this shell has '"@;
        let b = "', new shells load '"@;
        let c = "'."@;
        let tail = b + s + c;
        lemma_occurs(a, cur, tail);
        assert(a + cur + tail =~= a + cur + b + s + c);
        lemma_occurs(a + cur + b, s, c);
        let d = "envc:       `envc activate "@;
        let e = "` to match, `envc enable "@;
        let f = "` to switch."@;
        let tail2 = e + cur + f;
        lemma_occurs(d, s, tail2);
        assert(d + s + tail2 =~= d + s + e + cur + f);
        lemma_occurs(d + s + e, cur, f);
    }
}

// ---------------------------------------------------------------------------
// Messages
// ---------------------------------------------------------------------------

/// What is said of an activation tells which it was, the first, the same again or
/// another, and names the profile, the one before it and the number of variables.
pub proof fn an_activation_is_told(name: Text, count: nat, previous: Option<Record>)
    ensures
        ({
            let told = activation_text(name, count, previous);
            &&& previous is None ==> begins(told, "activated '"@ + name + "'"@)
            &&& previous is Some && previous->0.profile == name ==> begins(
                told,
                "reloaded '"@ + name + "'"@,
            )
            &&& previous is Some && previous->0.profile != name ==> begins(
                told,
                "switched '"@ + previous->0.profile + "' -> '"@ + name + "'"@,
            )
            &&& ends(told, " ("@ + decimal(count) + " vars)"@)
        }),
{
    let told = activation_text(name, count, previous);
    let what = match previous {
        None => "activated '"@ + name + "'"@,
        Some(old) => if old.profile == name {
            "reloaded '"@ + name + "'"@
        } else {
            "switched '"@ + old.profile + "' -> '"@ + name + "'"@
        },
    };
    let tail = " ("@ + decimal(count) + " vars)"@;
    assert(told =~= what + tail);
    assert(told.take(what.len() as int) =~= what);
    lemma_ends(what, tail);
}

/// Where messages are not wanted there are none, and a message is said as it is
/// where they are.
pub proof fn quiet_is_quiet(
    msg: Text,
    command: Text,
    shell: Shell,
    wanted: bool,
    stack: Option<Record>,
    active: bool,
)
    ensures
        notice(true, msg).len() == 0,
        notice(false, msg).len() == 1 && ends(notice(false, msg)[0], msg),
        activation_hint(true, command, shell, wanted).len() == 0,
        deactivation(true, shell, stack, active, wanted).messages.len() == 0,
        deactivation(false, shell, stack, active, wanted).messages.len() > 0,
{
    lemma_ends("envc: "@, msg);
}

/// How to evaluate the code is told where nothing is going to, except in cmd,
/// which has a batch file to call.
pub proof fn the_hint_tells_what_to_evaluate(command: Text, shell: Shell, wanted: bool)
    ensures
        activation_hint(false, command, shell, wanted).len() > 0 <==> wanted && shell != Shell::Cmd,
        wanted && shell != Shell::Cmd ==> ends(
            activation_hint(false, command, shell, wanted)[2],
            "$("@ + command + ")\""@,
        ),
{
    if wanted && shell != Shell::Cmd {
        reveal_strlit("envc:     eval \"$(");
        reveal_strlit("envc:     eval \"");
        reveal_strlit("$(");
        let front = "envc:     eval \""@;
        assert("envc:     eval \"$("@ =~= front + "$("@);
        let code = "$("@ + command + ")\""@;
        lemma_ends(front, code);
        assert(front + code =~= activation_hint(false, command, shell, wanted)[2]);
    }
}

/// What is said of a deactivation names the profile and the number of variables
/// that were put back.
pub proof fn a_deactivation_is_told(stack: Record, shell: Shell, wanted: bool, active: bool)
    ensures
        ({
            let told = deactivation(false, shell, Some(stack), active, wanted).messages[0];
            &&& occurs(told, stack.profile)
            &&& ends(told, "("@ + decimal(stack.entries.len()) + " vars restored)"@)
        }),
{
    reveal_strlit("' (");
    reveal_strlit("'");
    reveal_strlit(" (");
    reveal_strlit("(");
    let a = "envc: "@;
    let b = "deactivated '"@;
    let c = "' ("@;
    let n = decimal(stack.entries.len());
    let d = " vars restored)"@;
    let msg = b + stack.profile + c + n + d;
    let line = a + msg;
    assert(notice(false, msg)[0] == line);
    let front = a + b;
    let tail = c + n + d;
    lemma_occurs(front, stack.profile, tail);
    assert(front + stack.profile + tail =~= line);
    let end = "("@ + n + d;
    let start = a + b + stack.profile + "' "@;
    reveal_strlit("' ");
    assert(c =~= "' "@ + "("@);
    lemma_ends(start, end);
    assert(start + end =~= line);
}

/// An activation that is not quiet says what it came to first, with the number of
/// variables that the profile sets, and then how to evaluate the code where nothing
/// is going to; a quiet one says nothing.
pub proof fn an_activation_says_what_it_came_to(
    name: Text,
    shell: Shell,
    file: Option<Result<Text, Text>>,
    env: Vars,
    stack: Option<Result<Text, Text>>,
    hint: bool,
)
    ensures
        activation(name, true, shell, file, env, stack, hint) matches Ok(plan) ==> plan.messages.len()
            == 0,
        activation(name, false, shell, file, env, stack, hint) matches Ok(plan) ==> {
            &&& plan.messages.len() == (if hint && shell != Shell::Cmd {
                5int
            } else {
                1
            })
            &&& begins(plan.messages[0], "envc: "@)
            &&& ends(
                plan.messages[0],
                activation_text(name, plan.stack.entries.len(), loaded_stack(stack)->Ok_0),
            )
            &&& hint && shell != Shell::Cmd ==> ends(
                plan.messages[3],
                "$("@ + ("envc activate "@ + name) + ")\""@,
            )
        },
{
    if let Ok(plan) = activation(name, false, shell, file, env, stack, hint) {
        let text = activation_text(name, plan.stack.entries.len(), loaded_stack(stack)->Ok_0);
        let first = "envc: "@ + text;
        let hints = activation_hint(false, "envc activate "@ + name, shell, hint);
        assert(plan.messages =~= seq![first] + hints);
        lemma_ends("envc: "@, text);
        assert(first.take("envc: "@.len() as int) =~= "envc: "@);
        the_hint_tells_what_to_evaluate("envc activate "@ + name, shell, hint);
        if hint && shell != Shell::Cmd {
            assert(plan.messages[3] == hints[2]);
        }
    }
}

/// What is said of enabling names the profile, the file, and whether the hook is
/// new there.
pub proof fn an_enabling_is_told(profile: Text, rc: Text, refreshed: bool)
    ensures
        ({
            let told = enable_report(profile, rc, refreshed);
            &&& told.len() == 3
            &&& ends(told[0], profile)
            &&& told[1] == (if refreshed {
                "  refreshed the hook in "@ + rc
            } else {
                "  installed the hook into "@ + rc
            })
            &&& occurs(told[2], profile)
        }),
{
    let told = enable_report(profile, rc, refreshed);
    lemma_ends("startup loading enabled: "@, profile);
    reveal_strlit("  ");
    reveal_strlit(" ");
    reveal_strlit("refreshed the hook in");
    reveal_strlit("installed the hook into");
    reveal_strlit("  refreshed the hook in ");
    reveal_strlit("  installed the hook into ");
    assert("  "@ + "refreshed the hook in"@ + " "@ =~= "  refreshed the hook in "@);
    assert("  "@ + "installed the hook into"@ + " "@ =~= "  installed the hook into "@);
    lemma_occurs("  new shells load it; `envc activate "@, profile, "` for this one"@);
}

/// What is said of making variables permanent and of putting them back tells how
/// many there are.
pub proof fn the_number_of_user_variables_is_told(profile: Text, count: nat)
    ensures
        user_enable_report(profile, count).len() == 4,
        ends(user_enable_report(profile, count)[0], profile),
        occurs(user_enable_report(profile, count)[1], decimal(count)),
        user_disable_report(count).len() == 2,
        occurs(user_disable_report(count)[1], decimal(count)),
{
    lemma_ends("startup loading enabled: "@, profile);
    lemma_occurs("  wrote "@, decimal(count), " variables to your user environment"@);
    lemma_occurs("  restored "@, decimal(count), " user variables"@);
}

} // verus!
