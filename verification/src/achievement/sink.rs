//! How achievements are written out.
use vstd::prelude::*;

use crate::achievement::achievement::Achievement;
use crate::git::hex_of;
use crate::utils::text::{chars_of, push_all, string_from_chars};

verus! {

/// The line that marks where the summary of a check begins, behind the
/// achievements.
pub const SUMMARY_MARKER: &'static str = "## Summary";

/// A text with a backslash before each of its double quotes and backslashes.
pub open spec fn escaped(text: Seq<char>) -> Seq<char>
    decreases text.len(),
{
    if text.len() == 0 {
        Seq::empty()
    } else if text.last() == '"' || text.last() == '\\' {
        escaped(text.drop_last()).push('\\').push(text.last())
    } else {
        escaped(text.drop_last()).push(text.last())
    }
}

/// The line that is written for an achievement: its name in double quotes,
/// and its commit as 40 hexadecimal digits, in the form
/// `Achievement { name: "Whitespace Warrior", commit: Sha1(37f5c446...) }`.
pub open spec fn rendered(achievement: Achievement) -> Seq<char> {
    "Achievement { name: \""@ + escaped(achievement.name@) + "\", commit: Sha1("@ + hex_of(
        achievement.commit.bytes@,
    ) + ") }"@
}

/// Appends `text` to `out`, with a backslash before each double quote and
/// backslash.
fn push_escaped(out: &mut Vec<char>, text: &Vec<char>)
    ensures
        final(out)@ == old(out)@ + escaped(text@),
{
    let mut i: usize = 0;
    assert(old(out)@ + escaped(text@.take(0)) =~= old(out)@);
    while i < text.len()
        invariant
            i <= text@.len(),
            out@ == old(out)@ + escaped(text@.take(i as int)),
        decreases text@.len() - i,
    {
        let c = text[i];
        let ghost before = out@;
        assert(text@.take(i + 1).drop_last() =~= text@.take(i as int));
        if c == '"' || c == '\\' {
            out.push('\\');
        }
        out.push(c);
        assert(out@ =~= old(out)@ + escaped(text@.take(i + 1)));
        i += 1;
    }
    assert(text@.take(text@.len() as int) =~= text@);
}

/// The line that is written for an achievement.
pub fn render(achievement: &Achievement) -> (line: String)
    ensures
        line@ == rendered(*achievement),
{
    let mut out: Vec<char> = Vec::new();
    push_all(&mut out, &chars_of("Achievement { name: \""));
    push_escaped(&mut out, &chars_of(achievement.name));
    push_all(&mut out, &chars_of("\", commit: Sha1("));
    let hex = achievement.commit.to_hex();
    push_all(&mut out, &chars_of(hex.as_str()));
    push_all(&mut out, &chars_of(") }"));
    assert(out@ =~= rendered(*achievement));
    string_from_chars(&out)
}

} // verus!
