use vstd::prelude::*;
use vstd::string::*;

use crate::datetime::parse_datetime;
use crate::datetime::parsed_epoch;
use crate::errors::TrashError;
use crate::index::DeletionIndex;
use crate::index::map_of;

verus! {

/// The lines of a listing, each read as its character sequence.
pub open spec fn line_views(lines: Seq<String>) -> Seq<Seq<char>> {
    lines.map_values(|l: String| l@)
}

/// The characters that count as whitespace between a listing line's
/// timestamp and its path.
pub open spec fn is_space(c: char) -> bool {
    c == ' ' || c == '\t' || c == '\n' || c == '\r'
}

/// `s` with its leading whitespace removed.
pub open spec fn spec_trim_start(s: Seq<char>) -> Seq<char>
    decreases s.len(),
{
    if s.len() == 0 {
        s
    } else if is_space(s[0]) {
        spec_trim_start(s.drop_first())
    } else {
        s
    }
}

/// Trimming removes exactly the longest whitespace prefix: where the
/// first `i` characters are whitespace and the one after them (if any) is
/// not, what remains is the suffix from `i` on.
proof fn lemma_trim_start_at(s: Seq<char>, i: int)
    requires
        0 <= i <= s.len(),
        forall|j: int| 0 <= j < i ==> is_space(#[trigger] s[j]),
        i < s.len() ==> !is_space(s[i]),
    ensures
        spec_trim_start(s) == s.subrange(i, s.len() as int),
    decreases s.len(),
{
    if s.len() == 0 {
        assert(spec_trim_start(s) =~= s.subrange(0, 0));
    } else if i == 0 {
        assert(spec_trim_start(s) =~= s.subrange(0, s.len() as int));
    } else {
        assert(is_space(s[0]));
        let t = s.drop_first();
        assert(forall|j: int| 0 <= j < i - 1 ==> is_space(#[trigger] t[j]));
        lemma_trim_start_at(t, i - 1);
        assert(t.subrange(i - 1, t.len() as int) =~= s.subrange(i, s.len() as int));
    }
}

fn is_space_char(c: char) -> (r: bool)
    ensures
        r == is_space(c),
{
    c == ' ' || c == '\t' || c == '\n' || c == '\r'
}

/// The text with its leading whitespace removed.
pub fn trim_start(s: &str) -> (r: String)
    ensures
        r@ == spec_trim_start(s@),
{
    let n = s.unicode_len();
    let mut i: usize = 0;
    while i < n && is_space_char(s.get_char(i))
        invariant
            n == s@.len(),
            i <= n,
            forall|j: int| 0 <= j < i ==> is_space(#[trigger] s@[j]),
        decreases n - i,
    {
        i = i + 1;
    }
    proof {
        lemma_trim_start_at(s@, i as int);
    }
    s.substring_char(i, n).to_owned()
}

/// What one listing line means: its first 19 characters read as a
/// timestamp, the rest (leading whitespace stripped) as the original
/// path.  A line too short for a timestamp, or whose first 19 characters
/// are not a valid date and time, is an error.
pub open spec fn spec_parse_line(line: Seq<char>) -> Result<(i64, Seq<char>), TrashError> {
    if line.len() < 19 {
        Err(TrashError::ShortLine)
    } else {
        match parsed_epoch(line.subrange(0, 19)) {
            Some(ts) => Ok((ts, spec_trim_start(line.subrange(19, line.len() as int)))),
            None => Err(TrashError::BadTimestamp),
        }
    }
}

/// Parse one line of the listing tool's output.
pub fn parse_line(line: &str) -> (r: Result<(i64, String), TrashError>)
    ensures
        (r is Ok) == (spec_parse_line(line@) is Ok),
        r matches Ok(p) ==> spec_parse_line(line@) == Ok::<(i64, Seq<char>), TrashError>(
            (p.0, p.1@),
        ),
        r matches Err(e) ==> spec_parse_line(line@) == Err::<(i64, Seq<char>), TrashError>(e),
{
    let n = line.unicode_len();
    if n < 19 {
        return Err(TrashError::ShortLine);
    }
    let stamp = line.substring_char(0, 19);
    let rest = line.substring_char(19, n);
    match parse_datetime(stamp) {
        Some(ts) => Ok((ts, trim_start(rest))),
        None => Err(TrashError::BadTimestamp),
    }
}

/// Whether every line of the listing parses.
pub open spec fn all_lines_parse(lines: Seq<Seq<char>>) -> bool {
    forall|i: int| 0 <= i < lines.len() ==> (#[trigger] spec_parse_line(lines[i])) is Ok
}

/// The (timestamp, path) pairs of a listing whose lines all parse, in
/// the listing's own order.
pub open spec fn parsed_pairs(lines: Seq<Seq<char>>) -> Seq<(i64, Seq<char>)> {
    Seq::new(lines.len(), |i: int| spec_parse_line(lines[i])->Ok_0)
}

/// Parse the whole listing-tool output and build the deletion index from
/// it, entering the pairs in the listing's order.  The first line that
/// does not parse decides the error.
pub fn parse_listing(lines: &Vec<String>) -> (r: Result<DeletionIndex, TrashError>)
    ensures
        (r is Ok) == all_lines_parse(line_views(lines@)),
        r matches Ok(idx) ==> idx.wf() && idx.as_map() == map_of(parsed_pairs(line_views(lines@))),
        r matches Err(e) ==> exists|i: int|
            0 <= i < lines@.len() && (forall|j: int|
                0 <= j < i ==> (#[trigger] spec_parse_line(line_views(lines@)[j])) is Ok)
                && spec_parse_line(line_views(lines@)[i]) == Err::<(i64, Seq<char>), TrashError>(e),
{
    let ghost lv = line_views(lines@);
    let mut idx = DeletionIndex::new();
    let mut i: usize = 0;
    while i < lines.len()
        invariant
            i <= lines@.len(),
            lv == line_views(lines@),
            forall|j: int| 0 <= j < i ==> (#[trigger] spec_parse_line(lv[j])) is Ok,
            idx.wf(),
            idx.as_map() == map_of(parsed_pairs(lv).take(i as int)),
        decreases lines@.len() - i,
    {
        match parse_line(lines[i].as_str()) {
            Ok(p) => {
                idx.insert(p.0, p.1);
                proof {
                    assert(parsed_pairs(lv).take(i + 1).drop_last() =~= parsed_pairs(lv).take(
                        i as int,
                    ));
                    assert(parsed_pairs(lv).take(i + 1).last() == parsed_pairs(lv)[i as int]);
                }
            },
            Err(e) => {
                proof {
                    assert(spec_parse_line(lv[i as int]) == Err::<(i64, Seq<char>), TrashError>(e));
                }
                return Err(e);
            },
        }
        i = i + 1;
    }
    proof {
        assert(parsed_pairs(lv).take(lines@.len() as int) =~= parsed_pairs(lv));
    }
    Ok(idx)
}

} // verus!
