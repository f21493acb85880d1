//! Values survive the shells that read them.

use vstd::prelude::*;

use crate::activation::{emission, Emission};
use crate::env::Vars;
use crate::shell::{
    apply_change, apply_changes, assign_line, batch_text, change_line, change_lines, cmd_call,
    cmd_run, cmd_step, command_end, commands_from, identifier, literal_part, name_char, posix_eval,
    posix_run, posix_step, powershell_eval, powershell_literal, powershell_run, powershell_step,
    quoted, quoted_powershell, safe_unquoted, shell_word, unset_line, Change, Shell,
};
use crate::text::{
    begins, crlf_lines, lemma_find_is, lemma_lines_crlf, lemma_lines_unlines, lemma_unlines_join,
    neat, replace, replace_from, unlines, Text,
};

verus! {

/// A POSIX shell that evaluates a quoted value gets exactly that value, whatever
/// characters it holds.
pub proof fn posix_quoting_round_trips(value: Text)
    ensures
        shell_word(quoted(value), false) == Some(value),
{
    reveal_strlit("''");
    reveal_strlit("'");
    reveal_strlit("'\\''");
    if value.len() == 0 {
        assert("''"@ =~= seq!['\'', '\'']);
        reveal_with_fuel(shell_word, 3);
        assert(seq!['\'', '\''].drop_first() =~= seq!['\'']);
        assert(seq!['\''].drop_first() =~= Seq::<char>::empty());
        assert(value =~= Seq::empty());
    } else if forall|i: int| 0 <= i < value.len() ==> safe_unquoted(#[trigger] value[i]) {
        lemma_safe_word(value);
    } else {
        let dance = "'\\''"@;
        assert(dance =~= seq!['\'', '\\', '\'', '\'']);
        let body = replace(value, '\'', dance) + "'"@;
        let word = "'"@ + replace(value, '\'', dance) + "'"@;
        assert("'"@ =~= seq!['\'']);
        assert(word.drop_first() =~= body);
        lemma_danced(value, 0);
        assert(value.skip(0) =~= value);
    }
}

proof fn lemma_safe_word(s: Text)
    requires
        forall|i: int| 0 <= i < s.len() ==> safe_unquoted(#[trigger] s[i]),
    ensures
        shell_word(s, false) == Some(s),
    decreases s.len(),
{
    if s.len() > 0 {
        assert forall|i: int| 0 <= i < s.drop_first().len() implies safe_unquoted(
            #[trigger] s.drop_first()[i],
        ) by {
            assert(safe_unquoted(s[i + 1]));
        }
        lemma_safe_word(s.drop_first());
        assert(safe_unquoted(s[0]));
        assert(seq![s[0]] + s.drop_first() =~= s);
    } else {
        assert(s =~= Seq::empty());
    }
}

proof fn lemma_danced(value: Text, i: int)
    requires
        0 <= i <= value.len(),
    ensures
        shell_word(
            replace_from(value, i, '\'', seq!['\'', '\\', '\'', '\'']) + seq!['\''],
            true,
        ) == Some(value.skip(i)),
    decreases value.len() - i,
{
    let dance = seq!['\'', '\\', '\'', '\''];
    let all = replace_from(value, i, '\'', dance) + seq!['\''];
    if i == value.len() {
        assert(all =~= seq!['\'']);
        assert(all.drop_first() =~= Seq::<char>::empty());
        assert(shell_word(all.drop_first(), false) == Some(Seq::<char>::empty()));
        assert(value.skip(i) =~= Seq::empty());
    } else {
        let rest = replace_from(value, i + 1, '\'', dance) + seq!['\''];
        lemma_danced(value, i + 1);
        assert(seq![value[i]] + value.skip(i + 1) =~= value.skip(i));
        if value[i] == '\'' {
            assert(all =~= dance + rest);
            let a = all.drop_first();
            let b = a.skip(2);
            assert(a[0] == '\\' && a[1] == '\'' && b[0] == '\'');
            assert(b.drop_first() =~= rest);
            assert(shell_word(b, false) == shell_word(rest, true));
            assert(shell_word(a, false) == Some(seq!['\''] + value.skip(i + 1)));
        } else {
            assert(all.drop_first() =~= rest);
        }
    }
}

/// A PowerShell literal gives back the value it was made of.
pub proof fn powershell_quoting_round_trips(value: Text)
    ensures
        quoted_powershell(value)[0] == '\'',
        powershell_literal(quoted_powershell(value).drop_first()) == Some(value),
{
    a_literal_ends_where_it_should(value, Seq::empty());
    let literal = quoted_powershell(value);
    assert((literal + Seq::<char>::empty()).drop_first() =~= literal.drop_first());
}

/// A PowerShell literal gives back the value it was made of also where something
/// other than a quote stands behind it, which it leaves alone.
pub proof fn a_literal_ends_where_it_should(value: Text, tail: Text)
    requires
        tail.len() > 0 ==> tail[0] != '\'',
    ensures
        quoted_powershell(value)[0] == '\'',
        literal_part((quoted_powershell(value) + tail).drop_first()) == Some((value, tail)),
{
    reveal_strlit("''");
    reveal_strlit("'");
    assert("''"@ =~= seq!['\'', '\'']);
    assert("'"@ =~= seq!['\'']);
    assert((quoted_powershell(value) + tail).drop_first() =~= replace(value, '\'', "''"@) + seq![
        '\'',
    ] + tail);
    lemma_doubled(value, 0, tail);
    assert(value.skip(0) =~= value);
}

proof fn lemma_doubled(value: Text, i: int, tail: Text)
    requires
        0 <= i <= value.len(),
        tail.len() > 0 ==> tail[0] != '\'',
    ensures
        literal_part(
            replace_from(value, i, '\'', seq!['\'', '\'']) + seq!['\''] + tail,
        ) == Some((value.skip(i), tail)),
    decreases value.len() - i,
{
    let two = seq!['\'', '\''];
    let all = replace_from(value, i, '\'', two) + seq!['\''] + tail;
    if i == value.len() {
        assert(all =~= seq!['\''] + tail);
        assert(all.drop_first() =~= tail);
        assert(value.skip(i) =~= Seq::empty());
    } else {
        let rest = replace_from(value, i + 1, '\'', two) + seq!['\''] + tail;
        lemma_doubled(value, i + 1, tail);
        assert(seq![value[i]] + value.skip(i + 1) =~= value.skip(i));
        if value[i] == '\'' {
            assert(all =~= two + rest);
            assert(all.skip(2) =~= rest);
        } else {
            assert(all.drop_first() =~= rest);
        }
    }
}

/// A batch file reads the value that `set "KEY=VALUE"` was written with: no
/// percent sign in it is taken for a variable reference.
pub proof fn batch_percents_round_trip(value: Text)
    ensures
        batch_text(replace(value, '%', "%%"@)) == Some(value),
{
    reveal_strlit("%%");
    assert("%%"@ =~= seq!['%', '%']);
    lemma_percents(value, 0);
    assert(value.skip(0) =~= value);
}

proof fn lemma_percents(value: Text, i: int)
    requires
        0 <= i <= value.len(),
    ensures
        batch_text(replace_from(value, i, '%', seq!['%', '%'])) == Some(value.skip(i)),
    decreases value.len() - i,
{
    let two = seq!['%', '%'];
    let all = replace_from(value, i, '%', two);
    if i == value.len() {
        assert(value.skip(i) =~= Seq::empty());
    } else {
        let rest = replace_from(value, i + 1, '%', two);
        lemma_percents(value, i + 1);
        assert(seq![value[i]] + value.skip(i + 1) =~= value.skip(i));
        if value[i] == '%' {
            assert(all.skip(2) =~= rest);
        } else {
            assert(all.drop_first() =~= rest);
        }
    }
}

/// Evaluating the printed code in a POSIX shell carries out the changes it was
/// printed for, and no others, whatever the values hold.
pub proof fn posix_code_carries_out_changes(env: Vars, changes: Seq<Change>)
    requires
        forall|i: int| 0 <= i < changes.len() ==> identifier(#[trigger] changes[i].key),
    ensures
        posix_eval(env, unlines(change_lines(Shell::Posix, changes))) == Some(
            apply_changes(env, changes),
        ),
{
    let code = change_lines(Shell::Posix, changes);
    assert(code.take(0) =~= Seq::<Text>::empty());
    assert(code.skip(0) =~= code);
    lemma_commands(changes, 0);
    lemma_posix_run(env, changes);
}

/// The printed code falls apart into the commands it was made of.
proof fn lemma_commands(changes: Seq<Change>, k: int)
    requires
        forall|i: int| 0 <= i < changes.len() ==> identifier(#[trigger] changes[i].key),
        0 <= k <= changes.len(),
    ensures
        ({
            let code = change_lines(Shell::Posix, changes);
            commands_from(unlines(code), unlines(code.take(k)).len() as int) == code.skip(k)
        }),
    decreases changes.len() - k,
{
    let code = change_lines(Shell::Posix, changes);
    let s = unlines(code);
    let i: int = unlines(code.take(k)).len() as int;
    if k == changes.len() {
        assert(code.take(k) =~= code);
        assert(code.skip(k) =~= Seq::empty());
    } else {
        lemma_commands(changes, k + 1);
        let line = code[k];
        let upto = code.take(k + 1);
        assert(upto.drop_last() =~= code.take(k));
        assert(upto.last() == line);
        lemma_unlines_join(upto, code.skip(k + 1));
        assert(upto + code.skip(k + 1) =~= code);
        let n: int = i + line.len();
        assert(s.subrange(i, n) =~= line);
        assert(s[n] == '\n');
        assert(identifier(changes[k].key));
        lemma_one_command(s, i, n, changes[k]);
        assert(seq![line] + code.skip(k + 1) =~= code.skip(k));
    }
}

/// A printed change ends at the line feed behind it, not at one inside it.
proof fn lemma_one_command(s: Text, i: int, n: int, change: Change)
    requires
        0 <= i <= n < s.len(),
        s[n] == '\n',
        identifier(change.key),
        s.subrange(i, n) == change_line(Shell::Posix, change),
    ensures
        command_end(s, i, false) == n,
{
    reveal_strlit("export ");
    reveal_strlit("unset ");
    reveal_strlit("=");
    let line = s.subrange(i, n);
    let key = change.key;
    assert forall|j: int| 0 <= j < key.len() implies ordinary(#[trigger] key[j]) by {
        assert(name_char(key[j]));
    }
    match change.value {
        Some(v) => {
            let at: int = i + 7 + key.len() + 1;
            assert(line == "export "@ + key + "="@ + quoted(v));
            assert(at <= n);
            assert forall|j: int| i <= j < at implies ordinary(#[trigger] s[j]) by {
                assert(s[j] == line[j - i]);
                if 7 <= j - i < 7 + key.len() {
                    assert(line[j - i] == key[j - i - 7]);
                }
            }
            lemma_ordinary_run(s, i, at);
            assert(s.subrange(at, n) =~= quoted(v)) by {
                assert(line.subrange(at - i, n - i) =~= quoted(v));
            }
            posix_quoting_round_trips(v);
            lemma_word_end(s, at, n, false);
        },
        None => {
            assert(line == "unset "@ + key);
            assert forall|j: int| i <= j < n implies ordinary(#[trigger] s[j]) by {
                assert(s[j] == line[j - i]);
                if 6 <= j - i {
                    assert(line[j - i] == key[j - i - 6]);
                }
            }
            lemma_ordinary_run(s, i, n);
        },
    }
}

/// A character that neither quotes nor ends anything.
spec fn ordinary(c: char) -> bool {
    c != '\'' && c != '\\' && c != '\n'
}

proof fn lemma_ordinary_run(s: Text, i: int, j: int)
    requires
        0 <= i <= j <= s.len(),
        forall|k: int| i <= k < j ==> ordinary(#[trigger] s[k]),
    ensures
        command_end(s, i, false) == command_end(s, j, false),
    decreases j - i,
{
    if i < j {
        assert(ordinary(s[i]));
        lemma_ordinary_run(s, i + 1, j);
    }
}

/// A command does not end inside a word.
proof fn lemma_word_end(s: Text, i: int, n: int, inside: bool)
    requires
        0 <= i <= n < s.len(),
        s[n] == '\n',
        shell_word(s.subrange(i, n), inside) is Some,
    ensures
        command_end(s, i, inside) == n,
    decreases n - i,
{
    let word = s.subrange(i, n);
    if i < n {
        assert(word[0] == s[i]);
        assert(word.drop_first() =~= s.subrange(i + 1, n));
        if inside {
            lemma_word_end(s, i + 1, n, s[i] != '\'');
        } else if s[i] == '\\' {
            assert(word.skip(2) =~= s.subrange(i + 2, n));
            lemma_word_end(s, i + 2, n, false);
        } else {
            lemma_word_end(s, i + 1, n, s[i] == '\'');
        }
    }
}

proof fn lemma_posix_run(env: Vars, changes: Seq<Change>)
    requires
        forall|i: int| 0 <= i < changes.len() ==> identifier(#[trigger] changes[i].key),
    ensures
        posix_run(env, change_lines(Shell::Posix, changes)) == Some(apply_changes(env, changes)),
    decreases changes.len(),
{
    let code = change_lines(Shell::Posix, changes);
    if changes.len() > 0 {
        let shorter = changes.drop_last();
        assert forall|i: int| 0 <= i < shorter.len() implies identifier(#[trigger] shorter[i].key) by {
            assert(identifier(changes[i].key));
        }
        lemma_posix_run(env, shorter);
        assert(code.drop_last() =~= change_lines(Shell::Posix, shorter));
        assert(identifier(changes[changes.len() - 1].key));
        lemma_posix_line(apply_changes(env, shorter), changes.last());
    }
}

proof fn lemma_posix_line(env: Vars, change: Change)
    requires
        identifier(change.key),
    ensures
        posix_step(env, change_line(Shell::Posix, change)) == Some(apply_change(env, change)),
{
    reveal_strlit("export ");
    reveal_strlit("unset ");
    reveal_strlit("=");
    let key = change.key;
    match change.value {
        Some(v) => {
            let line = assign_line(Shell::Posix, key, v);
            let body = line.skip(7);
            assert(begins(line, "export "@)) by {
                assert(line.take(7) =~= "export "@);
            }
            assert(body =~= key + "="@ + quoted(v));
            assert forall|j: int| 0 <= j < key.len() implies body[j] != '=' by {
                assert(name_char(key[j]));
            }
            lemma_find_is(body, '=', 0, key.len() as int);
            assert(body.take(key.len() as int) =~= key);
            assert(body.skip(key.len() as int + 1) =~= quoted(v));
            posix_quoting_round_trips(v);
        },
        None => {
            let line = unset_line(Shell::Posix, key);
            assert(line[0] == 'u');
            assert(!begins(line, "export "@)) by {
                assert("export "@[0] == 'e');
                if begins(line, "export "@) {
                    assert(line.take(7)[0] == line[0]);
                }
            }
            assert(begins(line, "unset "@)) by {
                assert(line.take(6) =~= "unset "@);
            }
            assert(line.skip(6) =~= key);
        },
    }
}

// ---------------------------------------------------------------------------
// Windows
// ---------------------------------------------------------------------------

/// A change that Windows shells can tell apart from any other: to a variable
/// with a proper name, and to a value on one line that is not empty.
pub open spec fn plain_change(change: Change) -> bool {
    &&& identifier(change.key)
    &&& change.value matches Some(v) ==> v.len() > 0 && !v.contains('\n')
}

/// Evaluating the printed code in PowerShell, line by line, carries out the
/// changes it was printed for.
pub proof fn powershell_code_carries_out_changes(env: Vars, changes: Seq<Change>)
    requires
        forall|i: int| 0 <= i < changes.len() ==> plain_change(#[trigger] changes[i]),
    ensures
        emission(Shell::PowerShell, change_lines(Shell::PowerShell, changes)) matches Emission::Printed(
            code,
        ) && powershell_eval(env, code) == Some(apply_changes(env, changes)),
{
    let code = change_lines(Shell::PowerShell, changes);
    assert forall|i: int| 0 <= i < code.len() implies neat(#[trigger] code[i]) by {
        assert(plain_change(changes[i]));
        lemma_powershell_line(env, changes[i]);
    }
    lemma_lines_unlines(code);
    lemma_powershell_run(env, changes);
}

proof fn lemma_powershell_run(env: Vars, changes: Seq<Change>)
    requires
        forall|i: int| 0 <= i < changes.len() ==> plain_change(#[trigger] changes[i]),
    ensures
        powershell_run(env, change_lines(Shell::PowerShell, changes)) == Some(
            apply_changes(env, changes),
        ),
    decreases changes.len(),
{
    let code = change_lines(Shell::PowerShell, changes);
    if changes.len() > 0 {
        let shorter = changes.drop_last();
        assert forall|i: int| 0 <= i < shorter.len() implies plain_change(#[trigger] shorter[i]) by {
            assert(plain_change(changes[i]));
        }
        lemma_powershell_run(env, shorter);
        assert(code.drop_last() =~= change_lines(Shell::PowerShell, shorter));
        assert(plain_change(changes[changes.len() - 1]));
        lemma_powershell_line(apply_changes(env, shorter), changes.last());
    }
}

proof fn lemma_powershell_line(env: Vars, change: Change)
    requires
        plain_change(change),
    ensures
        powershell_step(env, change_line(Shell::PowerShell, change)) == Some(
            apply_change(env, change),
        ),
        neat(change_line(Shell::PowerShell, change)),
{
    reveal_strlit("$env:");
    reveal_strlit("=");
    reveal_strlit("Remove-Item Env:");
    reveal_strlit(" -ErrorAction SilentlyContinue");
    let key = change.key;
    let line = change_line(Shell::PowerShell, change);
    assert forall|j: int| 0 <= j < key.len() implies #[trigger] key[j] != '=' && key[j] != ' '
        && key[j] != '\n' by {
        assert(name_char(key[j]));
    }
    match change.value {
        Some(v) => {
            let literal = quoted_powershell(v);
            let body = line.skip(5);
            powershell_quoting_round_trips(v);
            lemma_quoted_one_line(v);
            assert(line.take(5) =~= "$env:"@);
            assert(body =~= key + "="@ + literal);
            lemma_find_is(body, '=', 0, key.len() as int);
            assert(body.take(key.len() as int) =~= key);
            assert(body[key.len() as int + 1] == literal[0]);
            assert(body.skip(key.len() as int + 2) =~= literal.drop_first());
            assert forall|j: int| 0 <= j < line.len() implies line[j] != '\n' by {
                if 5 <= j < 5 + key.len() {
                    assert(line[j] == key[j - 5]);
                } else if j > 5 + key.len() {
                    assert(line[j] == literal[j - 6 - key.len()]);
                    assert(literal.contains(literal[j - 6 - key.len()]));
                }
            }
            assert(line.last() == literal.last());
        },
        None => {
            let body = line.skip(16);
            let tail = " -ErrorAction SilentlyContinue"@;
            assert(line[0] == 'R');
            assert(line.take(5)[0] == 'R' && "$env:"@[0] == '$');
            assert(line.take(16) =~= "Remove-Item Env:"@);
            assert(body =~= key + tail);
            lemma_find_is(body, ' ', 0, key.len() as int);
            assert(body.take(key.len() as int) =~= key);
            assert(body.skip(key.len() as int) =~= tail);
            assert forall|j: int| 0 <= j < line.len() implies line[j] != '\n' by {
                if 16 <= j < 16 + key.len() {
                    assert(line[j] == key[j - 16]);
                }
            }
        },
    }
}

/// A literal holds no line feed that the value does not hold, and ends in a
/// quote.
proof fn lemma_quoted_one_line(v: Text)
    requires
        !v.contains('\n'),
    ensures
        !quoted_powershell(v).contains('\n'),
        quoted_powershell(v).len() > 0,
        quoted_powershell(v).last() == '\'',
{
    reveal_strlit("''");
    reveal_strlit("'");
    lemma_replaced_one_line(v, 0, '\'', "''"@);
    let inner = replace(v, '\'', "''"@);
    let all = quoted_powershell(v);
    assert forall|j: int| 0 <= j < all.len() implies all[j] != '\n' by {
        if 1 <= j <= inner.len() {
            assert(all[j] == inner[j - 1]);
            assert(inner.contains(inner[j - 1]));
        }
    }
}

proof fn lemma_replaced_one_line(v: Text, i: int, c: char, with: Text)
    requires
        !v.contains('\n'),
        !with.contains('\n'),
        0 <= i <= v.len(),
    ensures
        !replace_from(v, i, c, with).contains('\n'),
    decreases v.len() - i,
{
    if i < v.len() {
        lemma_replaced_one_line(v, i + 1, c, with);
        let rest = replace_from(v, i + 1, c, with);
        let all = replace_from(v, i, c, with);
        let head = if v[i] == c {
            with
        } else {
            seq![v[i]]
        };
        assert(v.contains(v[i]));
        assert forall|j: int| 0 <= j < all.len() implies all[j] != '\n' by {
            if j < head.len() {
                assert(head[j] == all[j]);
                assert(head.contains(head[j]));
            } else {
                assert(all[j] == rest[j - head.len()]);
                assert(rest.contains(rest[j - head.len()]));
            }
        }
    }
}

/// Calling the batch file in cmd carries out the changes it was written for.
pub proof fn batch_file_carries_out_changes(env: Vars, changes: Seq<Change>)
    requires
        forall|i: int| 0 <= i < changes.len() ==> plain_change(#[trigger] changes[i]),
    ensures
        emission(Shell::Cmd, change_lines(Shell::Cmd, changes)) matches Emission::Batch(body)
            && cmd_call(env, body) == Some(apply_changes(env, changes)),
{
    reveal_strlit("@echo off");
    reveal_strlit("@echo off\r\n");
    reveal_strlit("\r\n");
    let code = change_lines(Shell::Cmd, changes);
    let head = seq!["@echo off"@];
    let all = head + code;
    lemma_crlf_join(head, code);
    assert(head.drop_last() =~= Seq::<Text>::empty());
    assert(crlf_lines(Seq::<Text>::empty()) =~= Seq::<char>::empty());
    assert(crlf_lines(head) =~= "@echo off\r\n"@);
    assert forall|i: int| 0 <= i < all.len() implies !(#[trigger] all[i]).contains('\n') by {
        if i > 0 {
            assert(all[i] == code[i - 1]);
            assert(plain_change(changes[i - 1]));
            lemma_cmd_line(env, changes[i - 1]);
        }
    }
    lemma_lines_crlf(all);
    lemma_cmd_run(env, changes);
}

pub proof fn lemma_crlf_join(a: Seq<Text>, b: Seq<Text>)
    ensures
        crlf_lines(a + b) == crlf_lines(a) + crlf_lines(b),
    decreases b.len(),
{
    if b.len() == 0 {
        assert(a + b =~= a);
        assert(crlf_lines(a) + crlf_lines(b) =~= crlf_lines(a));
    } else {
        lemma_crlf_join(a, b.drop_last());
        assert((a + b).drop_last() =~= a + b.drop_last());
        assert(crlf_lines(a + b) =~= crlf_lines(a) + crlf_lines(b));
    }
}

proof fn lemma_cmd_run(env: Vars, changes: Seq<Change>)
    requires
        forall|i: int| 0 <= i < changes.len() ==> plain_change(#[trigger] changes[i]),
    ensures
        cmd_run(env, seq!["@echo off"@] + change_lines(Shell::Cmd, changes)) == Some(
            apply_changes(env, changes),
        ),
    decreases changes.len(),
{
    let head = seq!["@echo off"@];
    let code = head + change_lines(Shell::Cmd, changes);
    if changes.len() == 0 {
        assert(code =~= head);
        assert(code.drop_last() =~= Seq::<Text>::empty());
        assert(cmd_run(env, code.drop_last()) == Some(env));
    } else {
        let shorter = changes.drop_last();
        assert forall|i: int| 0 <= i < shorter.len() implies plain_change(#[trigger] shorter[i]) by {
            assert(plain_change(changes[i]));
        }
        lemma_cmd_run(env, shorter);
        assert(code.drop_last() =~= head + change_lines(Shell::Cmd, shorter));
        assert(plain_change(changes[changes.len() - 1]));
        lemma_cmd_line(apply_changes(env, shorter), changes.last());
    }
}

proof fn lemma_cmd_line(env: Vars, change: Change)
    requires
        plain_change(change),
    ensures
        cmd_step(env, change_line(Shell::Cmd, change)) == Some(apply_change(env, change)),
        !change_line(Shell::Cmd, change).contains('\n'),
{
    reveal_strlit("set \"");
    reveal_strlit("=");
    reveal_strlit("\"");
    reveal_strlit("");
    reveal_strlit("%%");
    reveal_strlit("@echo off");
    let key = change.key;
    let line = change_line(Shell::Cmd, change);
    let value = match change.value {
        Some(v) => v,
        None => ""@,
    };
    let written = replace(value, '%', "%%"@);
    assert(!value.contains('\n'));
    lemma_replaced_one_line(value, 0, '%', "%%"@);
    batch_percents_round_trip(value);
    assert(line == "set \""@ + key + "="@ + written + "\""@);
    assert(line[0] == 's' && "@echo off"@[0] == '@');
    assert(line.take(5) =~= "set \""@);
    assert(line.last() == '"');
    let body = line.subrange(5, line.len() - 1);
    assert(body =~= key + "="@ + written);
    assert forall|j: int| 0 <= j < key.len() implies #[trigger] key[j] != '=' && key[j] != '\n' by {
        assert(name_char(key[j]));
    }
    lemma_find_is(body, '=', 0, key.len() as int);
    assert(body.take(key.len() as int) =~= key);
    assert(body.skip(key.len() as int + 1) =~= written);
    assert forall|j: int| 0 <= j < line.len() implies line[j] != '\n' by {
        if 5 <= j < 5 + key.len() {
            assert(line[j] == key[j - 5]);
        } else if 5 + key.len() < j < line.len() - 1 {
            assert(line[j] == written[j - 6 - key.len()]);
            assert(written.contains(written[j - 6 - key.len()]));
        }
    }
}

} // verus!
