//! The hook goes into the startup file and comes out of it again.

use vstd::prelude::*;

use crate::loading::{disabling, enabling, EnableTarget, Place};
use crate::rc::{
    before_block, has_block, hook_lines, hooked, removal, with_hook, without_block, Removal,
    BEGIN_MARKER, END_MARKER,
};
use crate::text::{
    begins, chomp, ended, lemma_last_solid, lemma_raw_lines, lemma_raw_unlines, lemma_unlines_join,
    lemma_unlines_whole, neat, occurs, raw_lines, trim_end, unlines, white, whole_lines, Text,
};

verus! {

/// A line that is no marker.
pub open spec fn plain(line: Text) -> bool {
    trim_end(line) != BEGIN_MARKER@ && trim_end(line) != END_MARKER@
}

/// Switching the hook on and off again leaves the startup file as it was, byte
/// for byte, whatever it holds, so long as no line of it is a marker. It had no
/// block before, so switching the hook off once more changes nothing.
pub proof fn disable_undoes_enable(content: Text)
    requires
        forall|i: int| 0 <= i < raw_lines(content).len() ==> plain(#[trigger] raw_lines(content)[i]),
    ensures
        !has_block(content),
        with_hook(content) == hooked(content),
        has_block(with_hook(content)),
        without_block(with_hook(content)) == content,
{
    lemma_hooked(content);
}

/// Switching the hook on where it is on already changes nothing.
pub proof fn enabling_again_changes_nothing(content: Text)
    ensures
        with_hook(with_hook(content)) == with_hook(content),
{
    lemma_left(content);
    lemma_hooked(without_block(content));
}

/// Once the hook has been switched on, it is on.
pub proof fn enabled_after_enable(content: Text)
    ensures
        occurs(with_hook(content), BEGIN_MARKER@),
        has_block(with_hook(content)),
{
    let left = without_block(content);
    lemma_left(content);
    lemma_hooked(left);
    // The marker stands behind the empty line.
    let h = hook_lines();
    lemma_hook_front(h);
    let after = seq!['\n'] + unlines(h.skip(2));
    let before = ended(left) + unlines(h.take(1));
    assert(h[1] == BEGIN_MARKER@);
    if whole_lines(left) {
        assert(hooked(left) =~= before + h[1] + after);
        lemma_occurs_at(before, h[1], after);
    } else {
        assert(hooked(left) =~= before + h[1] + after.drop_last());
        lemma_occurs_at(before, h[1], after.drop_last());
    }
}

/// The second of some lines, and what stands around it.
proof fn lemma_hook_front(h: Seq<Text>)
    requires
        h.len() >= 2,
    ensures
        unlines(h) == unlines(h.take(1)) + h[1] + (seq!['\n'] + unlines(h.skip(2))),
{
    let two = h.take(2);
    let rest = h.skip(2);
    assert(h =~= two + rest);
    lemma_unlines_join(two, rest);
    assert(two.drop_last() =~= h.take(1));
    assert(two.last() == h[1]);
    assert(unlines(h.take(1)) + h[1] + seq!['\n'] + unlines(rest) =~= unlines(h.take(1)) + h[1] + (
    seq!['\n'] + unlines(rest)));
}

proof fn lemma_occurs_at(before: Text, p: Text, after: Text)
    ensures
        occurs(before + p + after, p),
{
    let s = before + p + after;
    let at: int = before.len() as int;
    assert(s.skip(at).take(p.len() as int) =~= p);
    assert(begins(s.skip(at), p));
}

/// Once the hook has been switched off, it is off. What asks whether it is on
/// looks for the begin marker anywhere in the file, so none may stand in a line
/// that stays.
pub proof fn disabled_after_disable(content: Text)
    ensures
        !has_block(without_block(content)),
        (forall|i: int|
            0 <= i < removal(raw_lines(content)).kept.len() ==> !occurs(
                #[trigger] removal(raw_lines(content)).kept[i],
                BEGIN_MARKER@,
            )) ==> !occurs(without_block(content), BEGIN_MARKER@),
{
    let k = removal(raw_lines(content)).kept;
    let left = without_block(content);
    lemma_left(content);
    lemma_plain_stays(raw_lines(left));
    if forall|i: int| 0 <= i < k.len() ==> !occurs(#[trigger] k[i], BEGIN_MARKER@) {
        reveal_strlit("# >>> envc initialize >>>");
        if occurs(left, BEGIN_MARKER@) {
            lemma_occurs_longer(left, unlines(k), BEGIN_MARKER@);
            lemma_occurs_in_line(k, BEGIN_MARKER@);
        }
    }
}

/// What is left of the file is made of plain lines.
proof fn lemma_left(content: Text)
    ensures
        ({
            let left = raw_lines(without_block(content));
            forall|i: int| 0 <= i < left.len() ==> plain(#[trigger] left[i])
        }),
{
    let kept = removal(raw_lines(content)).kept;
    let text = unlines(kept);
    let left = without_block(content);
    lemma_kept(raw_lines(content));
    lemma_raw_lines(content, 0);
    assert forall|i: int| 0 <= i < kept.len() implies !(#[trigger] kept[i]).contains('\n') by {
        assert(plain(kept[i]));
        let j = choose|j: int|
            0 <= j < raw_lines(content).len() && raw_lines(content)[j] == kept[i];
    }
    assert(kept.take(0) =~= Seq::<Text>::empty());
    assert(kept.skip(0) =~= kept);
    lemma_raw_unlines(kept, 0);
    if left != text && kept.last().len() == 0 {
        let shorter = kept.drop_last();
        assert(left =~= unlines(shorter));
        assert forall|i: int| 0 <= i < shorter.len() implies plain(#[trigger] shorter[i])
            && !shorter[i].contains('\n') by {
            assert(plain(kept[i]));
        }
        assert(shorter.take(0) =~= Seq::<Text>::empty());
        assert(shorter.skip(0) =~= shorter);
        lemma_raw_unlines(shorter, 0);
    }
}

/// A file of plain lines, with and without the hook.
proof fn lemma_hooked(s: Text)
    requires
        forall|i: int| 0 <= i < raw_lines(s).len() ==> plain(#[trigger] raw_lines(s)[i]),
    ensures
        !has_block(s),
        without_block(s) == s,
        has_block(hooked(s)),
        without_block(hooked(s)) == s,
{
    let k = raw_lines(s);
    let h = hook_lines();
    let ls = k + h;
    lemma_raw_lines(s, 0);
    assert(ended(s).skip(0) =~= ended(s));
    assert(unlines(k) =~= ended(s));
    lemma_plain_stays(k);
    if !whole_lines(s) {
        assert(s.push('\n').drop_last() =~= s);
    }
    lemma_hook_lines();
    lemma_unlines_join(k, h);
    assert(unlines(h).len() > 0);
    assert(hooked(s) =~= if whole_lines(s) {
        unlines(ls)
    } else {
        unlines(ls).drop_last()
    });
    assert forall|j: int| 0 <= j < ls.len() implies !(#[trigger] ls[j]).contains('\n') by {
        if j >= k.len() {
            assert(ls[j] == h[j - k.len()]);
            assert(neat(h[j - k.len()]));
        } else {
            assert(ls[j] == k[j]);
        }
    }
    assert(ls.take(0) =~= Seq::<Text>::empty());
    assert(ls.skip(0) =~= ls);
    assert(unlines(Seq::<Text>::empty()) =~= Seq::<char>::empty());
    lemma_raw_unlines(ls, 0);
    assert(ls.last() == h[17]);
    assert(raw_lines(hooked(s)) == ls);
    lemma_hook_part(k, 18);
    assert(h.take(18) =~= h);
    assert(k.push(h[0]).drop_last() =~= k);
    lemma_unlines_whole(ls);
    if !whole_lines(s) {
        let all = unlines(ls);
        assert(all =~= unlines(ls.drop_last()) + h[17] + seq!['\n']);
        assert(hooked(s).last() == h[17].last());
        assert(h[17].contains(h[17].last()));
    }
}

/// Lines that are no markers all stay.
proof fn lemma_plain_stays(ls: Seq<Text>)
    requires
        forall|i: int| 0 <= i < ls.len() ==> plain(#[trigger] ls[i]),
    ensures
        removal(ls) == (Removal { kept: ls, inside: false, found: false }),
    decreases ls.len(),
{
    if ls.len() == 0 {
        assert(ls =~= Seq::empty());
    } else {
        let shorter = ls.drop_last();
        assert forall|i: int| 0 <= i < shorter.len() implies plain(#[trigger] shorter[i]) by {
            assert(plain(ls[i]));
        }
        lemma_plain_stays(shorter);
        assert(plain(ls[ls.len() - 1]));
        assert(shorter.push(ls.last()) =~= ls);
    }
}

/// The lines that stay are plain, and were there before.
proof fn lemma_kept(ls: Seq<Text>)
    ensures
        forall|i: int| 0 <= i < removal(ls).kept.len() ==> plain(#[trigger] removal(ls).kept[i]),
        forall|i: int|
            0 <= i < removal(ls).kept.len() ==> exists|j: int|
                0 <= j < ls.len() && ls[j] == #[trigger] removal(ls).kept[i],
    decreases ls.len(),
{
    if ls.len() > 0 {
        let shorter = ls.drop_last();
        lemma_kept(shorter);
        let old_kept = removal(shorter).kept;
        let kept = removal(ls).kept;
        assert forall|i: int| 0 <= i < kept.len() implies plain(#[trigger] kept[i]) && exists|j: int|
            0 <= j < ls.len() && ls[j] == kept[i] by {
            if i < old_kept.len() {
                assert(kept[i] == old_kept[i]);
                let j = choose|j: int| 0 <= j < shorter.len() && shorter[j] == old_kept[i];
                assert(ls[j] == kept[i]);
            } else {
                assert(kept[i] == ls[ls.len() - 1]);
            }
        }
    }
}

/// A block is found where there is a begin marker.
proof fn lemma_found(ls: Seq<Text>)
    ensures
        removal(ls).found <==> exists|i: int|
            0 <= i < ls.len() && trim_end(#[trigger] ls[i]) == BEGIN_MARKER@,
    decreases ls.len(),
{
    if ls.len() > 0 {
        let shorter = ls.drop_last();
        lemma_found(shorter);
        assert(forall|i: int| 0 <= i < shorter.len() ==> shorter[i] == ls[i]);
        if removal(shorter).found {
            let i = choose|i: int|
                0 <= i < shorter.len() && trim_end(#[trigger] shorter[i]) == BEGIN_MARKER@;
            assert(trim_end(ls[i]) == BEGIN_MARKER@);
        }
        if trim_end(ls.last()) == BEGIN_MARKER@ {
            assert(trim_end(ls[ls.len() - 1]) == BEGIN_MARKER@);
        }
        if exists|i: int| 0 <= i < ls.len() && trim_end(#[trigger] ls[i]) == BEGIN_MARKER@ {
            let i = choose|i: int| 0 <= i < ls.len() && trim_end(#[trigger] ls[i]) == BEGIN_MARKER@;
            if i < shorter.len() {
                assert(trim_end(shorter[i]) == BEGIN_MARKER@);
            }
        }
    }
}

/// What the lines of the block are.
proof fn lemma_hook_lines()
    ensures
        hook_lines().len() == 18,
        hook_lines()[0].len() == 0,
        trim_end(hook_lines()[1]) == BEGIN_MARKER@,
        trim_end(hook_lines()[17]) == END_MARKER@,
        BEGIN_MARKER@ != END_MARKER@,
        hook_lines()[17].len() > 0,
        plain(hook_lines()[0]),
        forall|i: int| 2 <= i < 17 ==> plain(#[trigger] hook_lines()[i]),
        forall|i: int| 0 <= i < 18 ==> neat(#[trigger] hook_lines()[i]),
{
    reveal_strlit("");
    reveal_strlit("# >>> envc initialize >>>");
    reveal_strlit("# <<< envc initialize <<<");
    reveal_strlit("# envc -- managed; do not edit.");
    reveal_strlit("if command -v envc >/dev/null 2>&1; then");
    reveal_strlit("    envc() {");
    reveal_strlit("        case \"${1:-}\" in");
    reveal_strlit("            activate|use|deactivate|de|unuse)");
    reveal_strlit("                # ENVC_WRAPPED: output is eval'd, not printed.");
    reveal_strlit("                eval \"$(ENVC_WRAPPED=1 command envc \"$@\")\"");
    reveal_strlit("                ;;");
    reveal_strlit("            *)");
    reveal_strlit("                command envc \"$@\"");
    reveal_strlit("        esac");
    reveal_strlit("    }");
    reveal_strlit("    eval \"$(command envc autoload)\"");
    reveal_strlit("fi");
    let h = hook_lines();
    assert(BEGIN_MARKER@[2] == '>' && END_MARKER@[2] == '<');
    assert forall|i: int| 1 <= i < 18 implies trim_end(#[trigger] h[i]) == h[i] by {
        assert(h[i].len() > 0 && !white(h[i].last()));
        assert(h[i].take(h[i].len() as int) =~= h[i]);
    }
    assert(trim_end(h[0]).len() == 0);
    assert(h[2][2] == 'e');
    assert forall|i: int| 3 <= i < 17 implies plain(#[trigger] h[i]) by {
        assert(h[i][0] != '#');
        assert(BEGIN_MARKER@[0] == '#' && END_MARKER@[0] == '#');
    }
    assert(plain(h[2]));
}

/// What taking the block out of plain lines with the first `n` lines of the
/// block behind them comes to.
proof fn lemma_hook_part(k: Seq<Text>, n: int)
    requires
        forall|i: int| 0 <= i < k.len() ==> plain(#[trigger] k[i]),
        0 <= n <= 18,
    ensures
        n == 1 ==> removal(k + hook_lines().take(n)) == (Removal {
            kept: k.push(hook_lines()[0]),
            inside: false,
            found: false,
        }),
        n >= 2 ==> removal(k + hook_lines().take(n)) == (Removal {
            kept: before_block(k.push(hook_lines()[0])),
            inside: n < 18,
            found: true,
        }),
        n == 0 ==> removal(k + hook_lines().take(n)) == (Removal {
            kept: k,
            inside: false,
            found: false,
        }),
    decreases n,
{
    let h = hook_lines();
    lemma_hook_lines();
    if n == 0 {
        assert(k + h.take(0) =~= k);
        lemma_plain_stays(k);
    } else {
        lemma_hook_part(k, n - 1);
        let ls = k + h.take(n);
        assert(ls.drop_last() =~= k + h.take(n - 1));
        assert(ls.last() == h[n - 1]);
        if n >= 3 && n < 18 {
            assert(plain(h[n - 1]));
        }
    }
}

/// What occurs in the beginning of a text occurs in the text.
proof fn lemma_occurs_longer(a: Text, b: Text, p: Text)
    requires
        occurs(a, p),
        a == b || (b.len() > 0 && a == b.drop_last()),
    ensures
        occurs(b, p),
{
    let i = choose|i: int| 0 <= i <= a.len() && begins(#[trigger] a.skip(i), p);
    assert(b.skip(i).take(p.len() as int) =~= a.skip(i).take(p.len() as int));
    assert(begins(b.skip(i), p));
}

/// Text without a line feed that occurs in lines occurs in one of them.
proof fn lemma_occurs_in_line(k: Seq<Text>, p: Text)
    requires
        occurs(unlines(k), p),
        p.len() > 0,
        !p.contains('\n'),
    ensures
        exists|i: int| 0 <= i < k.len() && occurs(#[trigger] k[i], p),
    decreases k.len(),
{
    let s = unlines(k);
    let at = choose|i: int| 0 <= i <= s.len() && begins(#[trigger] s.skip(i), p);
    assert(forall|j: int| 0 <= j < p.len() ==> s.skip(at).take(p.len() as int)[j] == s[at + j]);
    if k.len() > 0 {
        let shorter = k.drop_last();
        let t = unlines(shorter);
        let last = k.last();
        lemma_unlines_whole(shorter);
        if at >= t.len() {
            let i: int = at - t.len();
            if i + p.len() > last.len() {
                // The line feed would be part of it.
                let j: int = last.len() - i;
                assert(s[at + j] == '\n');
                assert(p[j] == '\n');
                assert(p.contains(p[j]));
            }
            assert(last.skip(i).take(p.len() as int) =~= p);
            assert(begins(last.skip(i), p));
            assert(occurs(k[k.len() - 1], p));
        } else {
            if at + p.len() > t.len() {
                let j: int = t.len() - 1 - at;
                assert(s[at + j] == t[t.len() - 1]);
                assert(p[j] == '\n');
                assert(p.contains(p[j]));
            }
            assert(t.skip(at).take(p.len() as int) =~= p);
            assert(begins(t.skip(at), p));
            lemma_occurs_in_line(shorter, p);
            let i = choose|i: int| 0 <= i < shorter.len() && occurs(#[trigger] shorter[i], p);
            assert(occurs(k[i], p));
        }
    }
}

// ---------------------------------------------------------------------------
// Blocks anywhere in the file
// ---------------------------------------------------------------------------

/// A block as it may stand in a file: perhaps an empty line, a begin marker, lines
/// that are no markers, and an end marker. White space behind a marker and a
/// carriage return do not matter.
pub struct Block {
    pub separator: Option<Text>,
    pub begin: Text,
    pub inner: Seq<Text>,
    pub end: Text,
}

/// The lines of a block up to its begin marker.
pub open spec fn block_front(b: Block) -> Seq<Text> {
    match b.separator {
        Some(line) => seq![line, b.begin],
        None => seq![b.begin],
    }
}

pub open spec fn block_lines(b: Block) -> Seq<Text> {
    block_front(b) + b.inner + seq![b.end]
}

pub open spec fn is_block(b: Block) -> bool {
    &&& b.separator matches Some(line) ==> line.len() == 0 || line == seq!['\r']
    &&& trim_end(b.begin) == BEGIN_MARKER@
    &&& trim_end(b.end) == END_MARKER@
    &&& all_plain(b.inner)
}

/// Lines of which none is a marker.
pub open spec fn all_plain(ls: Seq<Text>) -> bool {
    forall|i: int| 0 <= i < ls.len() ==> plain(#[trigger] ls[i])
}

/// The user's lines with blocks behind some of them.
pub open spec fn with_blocks(chunks: Seq<(Seq<Text>, Block)>) -> Seq<Text>
    decreases chunks.len(),
{
    if chunks.len() == 0 {
        Seq::empty()
    } else {
        with_blocks(chunks.drop_last()) + chunks.last().0 + block_lines(chunks.last().1)
    }
}

/// The user's lines alone.
pub open spec fn users_lines(chunks: Seq<(Seq<Text>, Block)>) -> Seq<Text>
    decreases chunks.len(),
{
    if chunks.len() == 0 {
        Seq::empty()
    } else {
        users_lines(chunks.drop_last()) + chunks.last().0
    }
}

/// Whether a block may stand behind the user's lines: where it has no separator of
/// its own, the line in front of it is not an empty one.
pub open spec fn fits(ls: Seq<Text>, b: Block) -> bool {
    b.separator is Some || (ls.len() > 0 && chomp(ls.last()).len() > 0)
}

pub open spec fn are_blocks(chunks: Seq<(Seq<Text>, Block)>) -> bool {
    forall|i: int|
        0 <= i < chunks.len() ==> all_plain((#[trigger] chunks[i]).0) && is_block(chunks[i].1)
            && fits(chunks[i].0, chunks[i].1)
}

/// However many blocks there are and wherever they stand, taking them out leaves
/// all the user's lines, in front of the blocks, between them and behind them.
pub proof fn only_the_blocks_go(chunks: Seq<(Seq<Text>, Block)>, rest: Seq<Text>)
    requires
        are_blocks(chunks),
        all_plain(rest),
    ensures
        removal(with_blocks(chunks) + rest) == (Removal {
            kept: users_lines(chunks) + rest,
            inside: false,
            found: chunks.len() > 0,
        }),
{
    lemma_blocks_go(chunks);
    lemma_keeps_on(with_blocks(chunks), rest);
}

/// The same of the file itself, whether or not its last line is ended: switching
/// the hook off leaves the user's lines, and switching it on puts it behind them.
pub proof fn the_users_lines_stay(
    chunks: Seq<(Seq<Text>, Block)>,
    rest: Seq<Text>,
    path: Text,
    startup: Option<Text>,
    profile: Text,
    quiet: bool,
)
    requires
        chunks.len() > 0,
        are_blocks(chunks),
        all_plain(rest),
        forall|i: int|
            0 <= i < (with_blocks(chunks) + rest).len() ==> !(#[trigger] (with_blocks(chunks)
                + rest)[i]).contains('\n'),
    ensures
        ({
            let file = unlines(with_blocks(chunks) + rest);
            let users = unlines(users_lines(chunks) + rest);
            &&& has_block(file)
            &&& without_block(file) == users
            &&& with_hook(file) == users + unlines(hook_lines())
            &&& disabling(quiet, Place::Rc { path, content: file }, startup).rc == Some(users)
            &&& enabling(profile, EnableTarget::Rc { path, content: file }) matches Ok(plan)
                && plan.rc == Some(users + unlines(hook_lines()))
            &&& (with_blocks(chunks) + rest).last().len() > 0 && users.len() > 0 ==> without_block(
                file.drop_last(),
            ) == users.drop_last()
        }),
{
    let ls = with_blocks(chunks) + rest;
    let file = unlines(ls);
    only_the_blocks_go(chunks, rest);
    lemma_unlines_whole(ls);
    lemma_unlines_whole(users_lines(chunks) + rest);
    assert(ls.take(0) =~= Seq::<Text>::empty());
    assert(unlines(Seq::<Text>::empty()) =~= Seq::<char>::empty());
    assert(ls.skip(0) =~= ls);
    lemma_raw_unlines(ls, 0);
    assert(raw_lines(file) == ls);
    if ls.last().len() > 0 {
        assert(ls.len() > 0) by {
            lemma_some_lines(chunks);
        }
        assert(raw_lines(file.drop_last()) == ls);
        let last = ls.last();
        assert(file =~= unlines(ls.drop_last()) + last + seq!['\n']);
        assert(file.drop_last().last() == last.last());
        assert(!ls[ls.len() - 1].contains('\n'));
        assert(last.contains(last.last()));
    }
}

/// A block that is never closed goes to the end of the file.
pub proof fn an_open_block_goes_to_the_end(
    chunks: Seq<(Seq<Text>, Block)>,
    lines: Seq<Text>,
    open: Block,
)
    requires
        are_blocks(chunks),
        all_plain(lines),
        is_block(open),
        fits(lines, open),
    ensures
        removal(
            with_blocks(chunks) + lines + (block_front(open) + open.inner),
        ).kept == users_lines(chunks) + lines,
{
    lemma_blocks_go(chunks);
    let a = with_blocks(chunks);
    lemma_keeps_on(a, lines);
    if open.separator is None {
        assert(removal(a + lines).kept.last() == lines.last());
    }
    lemma_into_block(a + lines, open, open.inner.len() as int);
    assert(open.inner.take(open.inner.len() as int) =~= open.inner);
}

/// A block at the very start of the file needs no separator, and an end marker
/// with no block in front of it goes by itself.
pub proof fn markers_go_wherever_they_stand(b: Block, ls: Seq<Text>, end: Text, rest: Seq<Text>)
    requires
        is_block(b),
        all_plain(ls),
        all_plain(rest),
        trim_end(end) == END_MARKER@,
    ensures
        removal(seq![b.begin] + b.inner + seq![b.end] + rest).kept == rest,
        removal(ls + seq![end] + rest).kept == ls + rest,
        !removal(ls + seq![end] + rest).found,
{
    lemma_hook_lines();
    lemma_at_the_start(b, b.inner.len() as int);
    assert(b.inner.take(b.inner.len() as int) =~= b.inner);
    let whole = seq![b.begin] + b.inner + seq![b.end];
    assert(whole.drop_last() =~= seq![b.begin] + b.inner);
    assert(whole.last() == b.end);
    lemma_keeps_on(whole, rest);
    assert(Seq::<Text>::empty() + rest =~= rest);
    lemma_plain_stays(ls);
    let some = ls + seq![end];
    assert(some.drop_last() =~= ls);
    assert(some.last() == end);
    lemma_keeps_on(some, rest);
}

proof fn lemma_at_the_start(b: Block, n: int)
    requires
        is_block(b),
        0 <= n <= b.inner.len(),
    ensures
        removal(seq![b.begin] + b.inner.take(n)) == (Removal {
            kept: Seq::empty(),
            inside: true,
            found: true,
        }),
    decreases n,
{
    let ls = seq![b.begin] + b.inner.take(n);
    if n == 0 {
        assert(ls =~= seq![b.begin]);
        assert(ls.drop_last() =~= Seq::<Text>::empty());
        assert(ls.last() == b.begin);
        let none = removal(ls.drop_last());
        assert(none.kept.len() == 0);
        assert(before_block(none.kept) =~= Seq::<Text>::empty());
    } else {
        lemma_at_the_start(b, n - 1);
        assert(ls.drop_last() =~= seq![b.begin] + b.inner.take(n - 1));
        assert(ls.last() == b.inner[n - 1]);
        assert(plain(b.inner[n - 1]));
    }
}

proof fn lemma_some_lines(chunks: Seq<(Seq<Text>, Block)>)
    requires
        chunks.len() > 0,
    ensures
        with_blocks(chunks).len() > 0,
{
    assert(block_lines(chunks.last().1).len() >= 2);
}

/// Plain lines outside a block stay.
proof fn lemma_keeps_on(a: Seq<Text>, b: Seq<Text>)
    requires
        all_plain(b),
        !removal(a).inside,
    ensures
        removal(a + b) == (Removal {
            kept: removal(a).kept + b,
            inside: false,
            found: removal(a).found,
        }),
    decreases b.len(),
{
    if b.len() == 0 {
        assert(a + b =~= a);
        assert(removal(a).kept + b =~= removal(a).kept);
    } else {
        let shorter = b.drop_last();
        assert forall|i: int| 0 <= i < shorter.len() implies plain(#[trigger] shorter[i]) by {
            assert(plain(b[i]));
        }
        lemma_keeps_on(a, shorter);
        assert((a + b).drop_last() =~= a + shorter);
        assert(plain(b[b.len() - 1]));
        assert((removal(a).kept + shorter).push(b.last()) =~= removal(a).kept + b);
    }
}

/// The beginning of a block, with the first `n` of the lines inside it.
proof fn lemma_into_block(a: Seq<Text>, b: Block, n: int)
    requires
        is_block(b),
        !removal(a).inside,
        0 <= n <= b.inner.len(),
        b.separator is Some || (removal(a).kept.len() > 0 && chomp(removal(a).kept.last()).len() > 0),
    ensures
        removal(a + (block_front(b) + b.inner.take(n))) == (Removal {
            kept: removal(a).kept,
            inside: true,
            found: true,
        }),
    decreases n,
{
    let ls = a + (block_front(b) + b.inner.take(n));
    if n == 0 {
        lemma_hook_lines();
        assert(ls.last() == b.begin);
        match b.separator {
            Some(line) => {
                lemma_separator_is_plain(line);
                let one = a + seq![line];
                assert(one.drop_last() =~= a);
                assert(removal(one).kept == removal(a).kept.push(line));
                assert(ls.drop_last() =~= one);
                assert(chomp(line).len() == 0);
                assert(removal(one).kept.drop_last() =~= removal(a).kept);
            },
            None => {
                assert(ls.drop_last() =~= a);
            },
        }
    } else {
        lemma_into_block(a, b, n - 1);
        assert(ls.drop_last() =~= a + (block_front(b) + b.inner.take(n - 1)));
        assert(ls.last() == b.inner[n - 1]);
        assert(plain(b.inner[n - 1]));
    }
}

/// An empty line is no marker.
proof fn lemma_separator_is_plain(line: Text)
    requires
        line.len() == 0 || line == seq!['\r'],
    ensures
        plain(line),
{
    reveal_strlit("# >>> envc initialize >>>");
    reveal_strlit("# <<< envc initialize <<<");
    lemma_last_solid(line, line.len() as int);
    assert(trim_end(line).len() <= 1);
}

/// Blocks go, and the lines around them stay.
proof fn lemma_blocks_go(chunks: Seq<(Seq<Text>, Block)>)
    requires
        are_blocks(chunks),
    ensures
        removal(with_blocks(chunks)) == (Removal {
            kept: users_lines(chunks),
            inside: false,
            found: chunks.len() > 0,
        }),
    decreases chunks.len(),
{
    if chunks.len() > 0 {
        let shorter = chunks.drop_last();
        let (ls, b) = chunks.last();
        assert forall|i: int| 0 <= i < shorter.len() implies all_plain((#[trigger] shorter[i]).0)
            && is_block(shorter[i].1) && fits(shorter[i].0, shorter[i].1) by {
            assert(all_plain(chunks[i].0));
        }
        assert(all_plain(chunks[chunks.len() - 1].0));
        lemma_blocks_go(shorter);
        let a = with_blocks(shorter);
        lemma_keeps_on(a, ls);
        if b.separator is None {
            assert(removal(a + ls).kept.last() == ls.last());
        }
        lemma_into_block(a + ls, b, b.inner.len() as int);
        assert(b.inner.take(b.inner.len() as int) =~= b.inner);
        let all = with_blocks(chunks);
        assert(all =~= a + ls + block_lines(b));
        assert(all.drop_last() =~= a + ls + (block_front(b) + b.inner));
        assert(all.last() == b.end);
        lemma_hook_lines();
    }
}

} // verus!
