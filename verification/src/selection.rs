use vstd::prelude::*;
use vstd::string::*;

use crate::errors::TrashError;

verus! {

/// The position of the first occurrence of `c` in `s`, or `-1` where `c`
/// does not occur.
pub open spec fn first_index_of(s: Seq<char>, c: char) -> int
    decreases s.len(),
{
    if s.len() == 0 {
        -1
    } else if s[0] == c {
        0
    } else if first_index_of(s.drop_first(), c) < 0 {
        -1
    } else {
        first_index_of(s.drop_first(), c) + 1
    }
}

/// `first_index_of` names exactly the position it claims: where the first
/// `i` characters avoid `c` and the character at `i` (if any) is `c`, the
/// first occurrence is at `i` (or nowhere, where `i` is the length).
proof fn lemma_first_index_at(s: Seq<char>, c: char, i: int)
    requires
        0 <= i <= s.len(),
        forall|j: int| 0 <= j < i ==> #[trigger] s[j] != c,
        i < s.len() ==> s[i] == c,
    ensures
        i == s.len() ==> first_index_of(s, c) == -1,
        i < s.len() ==> first_index_of(s, c) == i,
    decreases s.len(),
{
    if s.len() == 0 {
    } else if i == 0 {
    } else {
        let t = s.drop_first();
        assert(forall|j: int| 0 <= j < i - 1 ==> #[trigger] t[j] != c);
        lemma_first_index_at(t, c, i - 1);
    }
}

/// Where the first occurrence exists it lies inside the text, holds `c`,
/// and nothing before it does; where none exists the result is `-1` and
/// `c` occurs nowhere.
pub proof fn lemma_first_index_props(s: Seq<char>, c: char)
    ensures
        -1 <= first_index_of(s, c) < s.len(),
        first_index_of(s, c) >= 0 ==> s[first_index_of(s, c)] == c,
        first_index_of(s, c) >= 0 ==> forall|j: int|
            0 <= j < first_index_of(s, c) ==> #[trigger] s[j] != c,
        first_index_of(s, c) == -1 ==> forall|j: int| 0 <= j < s.len() ==> #[trigger] s[j] != c,
    decreases s.len(),
{
    if s.len() == 0 {
    } else if s[0] == c {
    } else {
        let t = s.drop_first();
        lemma_first_index_props(t, c);
        if first_index_of(s, c) == -1 {
            assert forall|j: int| 0 <= j < s.len() implies #[trigger] s[j] != c by {
                if j > 0 {
                    assert(t[j - 1] != c);
                    assert(t[j - 1] == s[j]);
                }
            }
        } else {
            let i = first_index_of(s, c);
            assert(i == first_index_of(t, c) + 1);
            assert(s[i] == t[i - 1]);
            assert forall|j: int| 0 <= j < i implies #[trigger] s[j] != c by {
                if j > 0 {
                    assert(t[j - 1] != c);
                    assert(t[j - 1] == s[j]);
                }
            }
        }
    }
}

/// In `a + [c] + b` with `c` nowhere in `a`, the first occurrence of `c`
/// stands right after `a`.
pub proof fn lemma_first_index_append(a: Seq<char>, c: char, b: Seq<char>)
    requires
        !a.contains(c),
    ensures
        first_index_of(a + seq![c] + b, c) == a.len(),
{
    let s = a + seq![c] + b;
    assert forall|j: int| 0 <= j < a.len() implies #[trigger] s[j] != c by {
        assert(s[j] == a[j]);
        if a[j] == c {
            assert(a.contains(c));
        }
    }
    assert(s[a.len() as int] == c);
    lemma_first_index_at(s, c, a.len() as int);
}

/// The text before and the text after the first occurrence of `c`, or
/// `None` where `c` does not occur.
pub open spec fn spec_split_once(s: Seq<char>, c: char) -> Option<(Seq<char>, Seq<char>)> {
    let i = first_index_of(s, c);
    if i < 0 {
        None
    } else {
        Some((s.subrange(0, i), s.subrange(i + 1, s.len() as int)))
    }
}

fn find_first(s: &str, c: char) -> (r: Option<usize>)
    ensures
        r matches Some(i) ==> first_index_of(s@, c) == i,
        r is None ==> first_index_of(s@, c) == -1,
{
    let n = s.unicode_len();
    let mut i: usize = 0;
    while i < n
        invariant
            n == s@.len(),
            i <= n,
            forall|j: int| 0 <= j < i ==> #[trigger] s@[j] != c,
        decreases n - i,
    {
        if s.get_char(i) == c {
            proof {
                lemma_first_index_at(s@, c, i as int);
            }
            return Some(i);
        }
        i = i + 1;
    }
    proof {
        lemma_first_index_at(s@, c, n as int);
    }
    None
}

/// What a menu selection means: the part after the first tab, itself cut
/// after its first space — the original path of the chosen display line,
/// with the leading icon and its separating space stripped off.
pub open spec fn spec_extract_path(sel: Seq<char>) -> Option<Seq<char>> {
    match spec_split_once(sel, '\t') {
        None => None,
        Some(p1) => match spec_split_once(p1.1, ' ') {
            None => None,
            Some(p2) => Some(p2.1),
        },
    }
}

/// Recover the original path from a selected display line.
pub fn extract_path(sel: &str) -> (r: Option<String>)
    ensures
        (r is Some) == (spec_extract_path(sel@) is Some),
        r matches Some(p) ==> spec_extract_path(sel@) == Some(p@),
{
    proof {
        lemma_first_index_props(sel@, '\t');
    }
    match find_first(sel, '\t') {
        None => None,
        Some(i) => {
            let n = sel.unicode_len();
            let rest = sel.substring_char(i + 1, n);
            proof {
                lemma_first_index_props(rest@, ' ');
            }
            match find_first(rest, ' ') {
                None => None,
                Some(k) => {
                    let m = rest.unicode_len();
                    Some(rest.substring_char(k + 1, m).to_owned())
                },
            }
        },
    }
}

/// What the menu's answer calls for: an empty selection is a cancel and
/// asks for nothing; a selection that is no display line is an error; any
/// other selection names the path whose restore must first be confirmed.
pub fn on_selection(sel: &str) -> (r: Result<Option<String>, TrashError>)
    ensures
        sel@.len() == 0 ==> (r matches Ok(o) && o is None),
        sel@.len() > 0 && spec_extract_path(sel@) is Some ==> (r matches Ok(o) && o matches Some(
            p,
        ) && spec_extract_path(sel@) == Some(p@)),
        sel@.len() > 0 && spec_extract_path(sel@) is None ==> (r matches Err(e) && e
            == TrashError::MalformedSelection),
{
    if sel.unicode_len() == 0 {
        Ok(None)
    } else {
        match extract_path(sel) {
            Some(p) => Ok(Some(p)),
            None => Err(TrashError::MalformedSelection),
        }
    }
}

/// The confirmation dialog's prompt for restoring `path`.
pub fn confirm_prompt(path: &str) -> (r: String)
    ensures
        r@ == "Voulez-vous vraiment restaurer <b>"@ + path@ + "</b> ?"@,
{
    let mut s = "Voulez-vous vraiment restaurer <b>".to_owned();
    s.append(path);
    s.append("</b> ?");
    s
}

/// Whether a confirmation dialog's exit code means "yes": exactly exit
/// code zero does; any other code is a decline.
pub fn is_affirmative(exit_code: i32) -> (r: bool)
    ensures
        r == (exit_code == 0),
{
    exit_code == 0
}

/// The one restore invocation a confirmed selection calls for: the
/// original path as the tool's sole argument, and the literal text `0`
/// fed to its standard input to pre-answer any prompt of its own.
pub struct RestoreCommand {
    /// The path handed to the restore tool as its argument.
    pub path: String,
    /// The text fed to the restore tool's standard input.
    pub stdin_input: String,
}

/// Decide whether the restore tool may be launched: only a confirmed
/// selection yields a command, and the command carries the path unchanged
/// together with the fixed input byte.
pub fn decide_restore(confirmed: bool, path: String) -> (r: Option<RestoreCommand>)
    ensures
        confirmed ==> (r matches Some(c) && c.path@ == path@ && c.stdin_input@ == "0"@),
        !confirmed ==> r is None,
{
    if confirmed {
        Some(RestoreCommand { path, stdin_input: "0".to_owned() })
    } else {
        None
    }
}

} // verus!
