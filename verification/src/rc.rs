//! The hook in the shell's startup file.

use vstd::prelude::*;
use vstd::slice::slice_subrange;

use crate::text::{
    cat2, chars_of, chomp, has_part, joined_lines, occurs, push_item, raw_lines, same,
    split_raw_lines, text_of, trim_end, trimmed_end, unlines, views, whole_lines, Text,
};

verus! {

/// The line in front of envc's block.
pub const BEGIN_MARKER: &'static str = "# >>> envc initialize >>>";

/// The line behind envc's block.
pub const END_MARKER: &'static str = "# <<< envc initialize <<<";

/// The lines of the block: an empty one that sets it off, and everything from
/// one marker to the other.
pub open spec fn hook_lines() -> Seq<Text> {
    seq![
        ""@,
        BEGIN_MARKER@,
        "# envc -- managed; do not edit."@,
        "if command -v envc >/dev/null 2>&1; then"@,
        "    envc() {"@,
        "        case \"${1:-}\" in"@,
        "            activate|use|deactivate|de|unuse)"@,
        "                # ENVC_WRAPPED: output is eval'd, not printed."@,
        "                eval \"$(ENVC_WRAPPED=1 command envc \"$@\")\""@,
        "                ;;"@,
        "            *)"@,
        "                command envc \"$@\""@,
        "                ;;"@,
        "        esac"@,
        "    }"@,
        "    eval \"$(command envc autoload)\""@,
        "fi"@,
        END_MARKER@,
    ]
}

/// The block that goes into the startup file. It defines an `envc` shell
/// function that evals the output of activate/deactivate, and re-applies the
/// selected profile via `envc autoload`.
pub fn hook_block() -> (r: String)
    ensures
        r@ == unlines(hook_lines()),
{
    let mut ls: Vec<String> = Vec::new();
    push_item(&mut ls, "".to_owned());
    push_item(&mut ls, BEGIN_MARKER.to_owned());
    push_item(&mut ls, "# envc -- managed; do not edit.".to_owned());
    push_item(&mut ls, "if command -v envc >/dev/null 2>&1; then".to_owned());
    push_item(&mut ls, "    envc() {".to_owned());
    push_item(&mut ls, "        case \"${1:-}\" in".to_owned());
    push_item(&mut ls, "            activate|use|deactivate|de|unuse)".to_owned());
    push_item(
        &mut ls,
        "                # ENVC_WRAPPED: output is eval'd, not printed.".to_owned(),
    );
    push_item(
        &mut ls,
        "                eval \"$(ENVC_WRAPPED=1 command envc \"$@\")\"".to_owned(),
    );
    push_item(&mut ls, "                ;;".to_owned());
    push_item(&mut ls, "            *)".to_owned());
    push_item(&mut ls, "                command envc \"$@\"".to_owned());
    push_item(&mut ls, "                ;;".to_owned());
    push_item(&mut ls, "        esac".to_owned());
    push_item(&mut ls, "    }".to_owned());
    push_item(&mut ls, "    eval \"$(command envc autoload)\"".to_owned());
    push_item(&mut ls, "fi".to_owned());
    push_item(&mut ls, END_MARKER.to_owned());
    assert(views(ls@) =~= hook_lines());
    joined_lines(&ls)
}

/// Whether the startup file holds the hook.
pub fn rc_is_enabled(content: &str) -> (r: bool)
    ensures
        r == occurs(content@, BEGIN_MARKER@),
{
    has_part(&chars_of(content), &chars_of(BEGIN_MARKER))
}

// ---------------------------------------------------------------------------
// Taking the block out
// ---------------------------------------------------------------------------

/// How far the removal of the block has come.
pub struct Removal {
    /// The lines that stay.
    pub kept: Seq<Text>,
    /// Whether the last line was inside the block.
    pub inside: bool,
    /// Whether a block has begun anywhere.
    pub found: bool,
}

/// The lines in front of a block, without the empty one that sets it off.
pub open spec fn before_block(kept: Seq<Text>) -> Seq<Text> {
    if kept.len() > 0 && chomp(kept.last()).len() == 0 {
        kept.drop_last()
    } else {
        kept
    }
}

/// What one more line makes of it. White space behind a marker does not matter.
pub open spec fn remove_line(r: Removal, line: Text) -> Removal {
    if trim_end(line) == BEGIN_MARKER@ {
        Removal { kept: before_block(r.kept), inside: true, found: true }
    } else if trim_end(line) == END_MARKER@ {
        Removal { inside: false, ..r }
    } else if r.inside {
        r
    } else {
        Removal { kept: r.kept.push(line), ..r }
    }
}

/// What is left of the lines without the block.
pub open spec fn removal(ls: Seq<Text>) -> Removal
    decreases ls.len(),
{
    if ls.len() == 0 {
        Removal { kept: Seq::empty(), inside: false, found: false }
    } else {
        remove_line(removal(ls.drop_last()), ls.last())
    }
}

/// `content` without the block. The lines that stay keep their ends, and where
/// `content` does not end in a line feed, neither does what is left of it.
pub open spec fn without_block(content: Text) -> Text {
    let text = unlines(removal(raw_lines(content)).kept);
    if !whole_lines(content) && text.len() > 0 {
        text.drop_last()
    } else {
        text
    }
}

/// Whether `content` has a block.
pub open spec fn has_block(content: Text) -> bool {
    removal(raw_lines(content)).found
}

/// Remove everything from the begin marker to the end marker inclusive, plus
/// the blank separator line in front of it; and whether there was a block.
pub fn strip_block(content: &str) -> (r: (String, bool))
    ensures
        r.0@ == without_block(content@),
        r.1 == has_block(content@),
{
    let chars: Vec<char> = chars_of(content);
    let ls: Vec<Vec<char>> = split_raw_lines(&chars);
    let begin: Vec<char> = chars_of(BEGIN_MARKER);
    let end: Vec<char> = chars_of(END_MARKER);
    let mut kept: Vec<String> = Vec::new();
    let mut inside: bool = false;
    let mut found: bool = false;
    let ghost all = views(ls@);
    let mut i: usize = 0;
    assert(views(kept@) =~= Seq::<Text>::empty());
    assert(all.take(0) =~= Seq::<Text>::empty());
    while i < ls.len()
        invariant
            i <= ls@.len(),
            all == views(ls@),
            begin@ == BEGIN_MARKER@,
            end@ == END_MARKER@,
            removal(all.take(i as int)) == (Removal { kept: views(kept@), inside, found }),
        decreases ls@.len() - i,
    {
        let line: &[char] = &ls[i];
        let ghost before = views(kept@);
        assert(all.take(i + 1).drop_last() =~= all.take(i as int));
        assert(all.take(i + 1).last() == line@);
        let marker: &[char] = trimmed_end(line);
        if same(marker, &begin) {
            inside = true;
            found = true;
            let n: usize = kept.len();
            if n > 0 {
                let last: Vec<char> = chars_of(kept[n - 1].as_str());
                if last.len() == 0 || (last.len() == 1 && last[0] == '\r') {
                    let _ = kept.pop();
                    assert(views(kept@) =~= before.drop_last());
                }
            }
        } else if same(marker, &end) {
            inside = false;
        } else if !inside {
            push_item(&mut kept, text_of(line));
        }
        i += 1;
    }
    assert(all.take(i as int) =~= all);
    let text: String = joined_lines(&kept);
    if chars.len() > 0 && chars[chars.len() - 1] != '\n' {
        let shorter: Vec<char> = chars_of(text.as_str());
        if shorter.len() > 0 {
            let part: &[char] = slice_subrange(&shorter, 0, shorter.len() - 1);
            assert(part@ =~= text@.drop_last());
            return (text_of(part), found);
        }
    }
    (text, found)
}

// ---------------------------------------------------------------------------
// Switching the hook on and off
// ---------------------------------------------------------------------------

/// What putting the hook in came to.
#[derive(Debug, Clone, Copy, PartialEq, Eq, Structural)]
pub enum EnableOutcome {
    /// The hook was appended for the first time.
    Installed,
    /// An existing hook was replaced (e.g. after upgrading envc).
    Refreshed,
}

/// `s` with the hook behind it. Where the last line of `s` is not ended, neither
/// is that of the hook, so that `s` can be told from it again.
pub open spec fn hooked(s: Text) -> Text {
    if whole_lines(s) {
        s + unlines(hook_lines())
    } else {
        s.push('\n') + unlines(hook_lines()).drop_last()
    }
}

/// The startup file with the hook at its end.
pub open spec fn with_hook(content: Text) -> Text {
    hooked(without_block(content))
}

/// The startup file with the hook at its end, in place of one that it had. A
/// last line that is not ended stays one that is not, now at the end of the hook.
pub fn rc_enable(content: &str) -> (r: (String, EnableOutcome))
    ensures
        r.0@ == with_hook(content@),
        r.1 == if has_block(content@) {
            EnableOutcome::Refreshed
        } else {
            EnableOutcome::Installed
        },
{
    let (stripped, had_block): (String, bool) = strip_block(content);
    let mut updated: String = stripped;
    let chars: Vec<char> = chars_of(updated.as_str());
    let mut hook: String = hook_block();
    if chars.len() > 0 && chars[chars.len() - 1] != '\n' {
        updated.push('\n');
        let block: Vec<char> = chars_of(hook.as_str());
        proof {
            let ls = hook_lines();
            assert(unlines(ls) == unlines(ls.drop_last()) + ls.last() + seq!['\n']);
        }
        let part: &[char] = slice_subrange(&block, 0, block.len() - 1);
        assert(part@ =~= hook@.drop_last());
        hook = text_of(part);
    }
    let outcome: EnableOutcome = if had_block {
        EnableOutcome::Refreshed
    } else {
        EnableOutcome::Installed
    };
    (cat2(updated.as_str(), hook.as_str()), outcome)
}

/// The startup file without the hook, where it has one: else it stays as it is.
pub fn rc_disable(content: &str) -> (r: Option<String>)
    ensures
        match r {
            Some(text) => has_block(content@) && text@ == without_block(content@),
            None => !has_block(content@),
        },
{
    let (stripped, had_block): (String, bool) = strip_block(content);
    if had_block {
        Some(stripped)
    } else {
        None
    }
}

} // verus!
