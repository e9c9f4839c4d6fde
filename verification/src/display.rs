use vstd::prelude::*;
use vstd::string::*;

use crate::datetime::render_datetime;
use crate::datetime::rendered_datetime;
use crate::errors::TrashError;
use crate::index::DeletionIndex;
use crate::listing::line_views;
use crate::selection::lemma_first_index_append;
use crate::selection::spec_extract_path;
use crate::selection::spec_split_once;

verus! {

/// The icon glyph a display line carries: a folder for a directory, a
/// document for anything else.
pub open spec fn spec_icon(is_dir: bool) -> Seq<char> {
    if is_dir {
        seq!['\u{f07b}']
    } else {
        seq!['\u{f15b}']
    }
}

/// One display line: the rendered deletion date, a tab, the icon, a
/// space, and the original path.  The tab is the delimiter that later
/// recovers the path from a selection.
pub open spec fn spec_display_line(dt: Seq<char>, is_dir: bool, path: Seq<char>) -> Seq<char> {
    dt + seq!['\t'] + spec_icon(is_dir) + seq![' '] + path
}

/// The final component of a path: the segment after the last `/`, or the
/// whole path where no `/` occurs.
pub open spec fn last_slash_index(p: Seq<char>) -> int
    decreases p.len(),
{
    if p.len() == 0 {
        -1
    } else if p.last() == '/' {
        p.len() - 1
    } else {
        last_slash_index(p.drop_last())
    }
}

pub open spec fn spec_final_component(p: Seq<char>) -> Seq<char> {
    p.subrange(last_slash_index(p) + 1, p.len() as int)
}

/// `last_slash_index` names exactly the position it claims: where every
/// character from `i` on avoids `/` and the one before `i` (if any) is
/// `/`, the last slash stands at `i - 1`.
proof fn lemma_last_slash_at(p: Seq<char>, i: int)
    requires
        0 <= i <= p.len(),
        forall|j: int| i <= j < p.len() ==> #[trigger] p[j] != '/',
        i > 0 ==> p[i - 1] == '/',
    ensures
        last_slash_index(p) == i - 1,
    decreases p.len(),
{
    if p.len() == 0 {
    } else if i == p.len() {
    } else {
        let t = p.drop_last();
        assert(p.last() != '/');
        lemma_last_slash_at(t, i);
    }
}

/// The final component of `path`.
pub fn final_component(path: &str) -> (r: String)
    ensures
        r@ == spec_final_component(path@),
{
    let n = path.unicode_len();
    let mut i: usize = n;
    while i > 0 && !(path.get_char(i - 1) == '/')
        invariant
            n == path@.len(),
            i <= n,
            forall|j: int| i <= j < n ==> #[trigger] path@[j] != '/',
        decreases i,
    {
        i = i - 1;
    }
    proof {
        lemma_last_slash_at(path@, i as int);
    }
    path.substring_char(i, n).to_owned()
}

/// The filesystem location whose metadata classifies an entry: the file
/// named like the path's final component, under the trash directory's
/// `files/` subfolder.
pub fn probe_path(trash_dir: &str, path: &str) -> (r: String)
    ensures
        r@ == trash_dir@ + "/files/"@ + spec_final_component(path@),
{
    let mut s = trash_dir.to_owned();
    s.append("/files/");
    let fc = final_component(path);
    s.append(fc.as_str());
    s
}

/// The probe locations of all entries, in the index's ascending order.
pub fn probe_paths(index: &DeletionIndex, trash_dir: &str) -> (r: Vec<String>)
    ensures
        r@.len() == index@.len(),
        forall|i: int|
            0 <= i < index@.len() ==> (#[trigger] r@[i])@ == trash_dir@ + "/files/"@
                + spec_final_component(index@[i].1),
{
    let n = index.len();
    let mut r: Vec<String> = Vec::new();
    let mut i: usize = 0;
    while i < n
        invariant
            n == index@.len(),
            i <= n,
            r@.len() == i,
            forall|j: int|
                0 <= j < i ==> (#[trigger] r@[j])@ == trash_dir@ + "/files/"@
                    + spec_final_component(index@[j].1),
        decreases n - i,
    {
        let entry = index.entry_at(i);
        let p = probe_path(trash_dir, entry.1.as_str());
        r.push(p);
        i = i + 1;
    }
    r
}

/// Render one entry as its display line.
pub fn format_entry(ts: i64, path: &str, is_dir: bool) -> (r: Result<String, TrashError>)
    ensures
        (r is Ok) == (rendered_datetime(ts) is Some),
        r matches Ok(line) ==> (rendered_datetime(ts) matches Some(dt) && line@
            == spec_display_line(dt, is_dir, path@) && !dt.contains('\t')),
        r matches Err(e) ==> e == TrashError::TimestampOutOfRange,
{
    match render_datetime(ts) {
        None => Err(TrashError::TimestampOutOfRange),
        Some(rendered) => {
            let icon: &str = if is_dir {
                "\u{f07b}"
            } else {
                "\u{f15b}"
            };
            let mut line = rendered;
            line.append("\t");
            line.append(icon);
            line.append(" ");
            line.append(path);
            proof {
                reveal_strlit("\t");
                reveal_strlit(" ");
                reveal_strlit("\u{f07b}");
                reveal_strlit("\u{f15b}");
                assert(line@ =~= spec_display_line(
                    rendered_datetime(ts)->Some_0,
                    is_dir,
                    path@,
                ));
            }
            Ok(line)
        },
    }
}

/// Whether every entry's timestamp has a calendar rendering.
pub open spec fn all_renderable(entries: Seq<(i64, Seq<char>)>) -> bool {
    forall|i: int|
        0 <= i < entries.len() ==> (#[trigger] rendered_datetime(entries[i].0)) is Some
}

/// The display lines of a listing, in ascending-timestamp order.
pub open spec fn spec_lines_of(entries: Seq<(i64, Seq<char>)>, dirs: Seq<bool>) -> Seq<Seq<char>> {
    Seq::new(
        entries.len(),
        |i: int| spec_display_line(rendered_datetime(entries[i].0)->Some_0, dirs[i], entries[i].1),
    )
}

/// Render every entry of the index, pairing each with its directory
/// classification.
pub fn format_listing(index: &DeletionIndex, dirs: &Vec<bool>) -> (r: Result<Vec<String>, TrashError>)
    requires
        dirs@.len() == index@.len(),
    ensures
        (r is Ok) == all_renderable(index@),
        r matches Ok(lines) ==> (lines@.len() == index@.len() && forall|i: int|
            0 <= i < index@.len() ==> (#[trigger] lines@[i])@ == spec_lines_of(index@, dirs@)[i]),
        r matches Err(e) ==> e == TrashError::TimestampOutOfRange,
{
    let n = index.len();
    let mut lines: Vec<String> = Vec::new();
    let mut i: usize = 0;
    while i < n
        invariant
            n == index@.len(),
            dirs@.len() == index@.len(),
            i <= n,
            lines@.len() == i,
            forall|j: int|
                0 <= j < i ==> (#[trigger] rendered_datetime(index@[j].0)) is Some,
            forall|j: int|
                0 <= j < i ==> (#[trigger] lines@[j])@ == spec_lines_of(index@, dirs@)[j],
        decreases n - i,
    {
        let entry = index.entry_at(i);
        match format_entry(entry.0, entry.1.as_str(), dirs[i]) {
            Ok(line) => {
                lines.push(line);
            },
            Err(e) => {
                return Err(e);
            },
        }
        i = i + 1;
    }
    Ok(lines)
}

/// The lines joined by newlines — what the menu tool is fed when the
/// trash holds anything.
pub open spec fn spec_join_lines(lines: Seq<Seq<char>>) -> Seq<char>
    decreases lines.len(),
{
    if lines.len() == 0 {
        Seq::empty()
    } else if lines.len() == 1 {
        lines[0]
    } else {
        spec_join_lines(lines.drop_last()) + seq!['\n'] + lines.last()
    }
}

/// What the menu tool is fed: the fixed placeholder where the trash is
/// empty — never an empty invocation — and the newline-joined display
/// lines otherwise.
pub fn menu_text(lines: &Vec<String>) -> (r: String)
    ensures
        lines@.len() == 0 ==> r@ == "La poubelle est vide"@,
        lines@.len() > 0 ==> r@ == spec_join_lines(line_views(lines@)),
{
    if lines.len() == 0 {
        return "La poubelle est vide".to_owned();
    }
    let ghost lv = line_views(lines@);
    let mut s = lines[0].clone();
    proof {
        assert(lv.take(1) =~= seq![lv[0]]);
        assert(s@ == spec_join_lines(lv.take(1)));
    }
    let mut i: usize = 1;
    while i < lines.len()
        invariant
            lv == line_views(lines@),
            1 <= i <= lv.len(),
            s@ == spec_join_lines(lv.take(i as int)),
        decreases lv.len() - i,
    {
        s.append("\n");
        s.append(lines[i].as_str());
        proof {
            reveal_strlit("\n");
            assert("\n"@ =~= seq!['\n']);
            assert(lv.take(i + 1).drop_last() =~= lv.take(i as int));
            assert(lv.take(i + 1).last() == lv[i as int]);
            assert(s@ =~= spec_join_lines(lv.take(i + 1)));
        }
        i = i + 1;
    }
    proof {
        assert(lv.take(lv.len() as int) =~= lv);
    }
    s
}

/// Splitting a display line at its first tab, then the remainder at its
/// first space, recovers the original path exactly — whatever characters
/// the path holds — provided the rendered date holds no tab.
pub proof fn lemma_display_line_round_trip(dt: Seq<char>, is_dir: bool, path: Seq<char>)
    requires
        !dt.contains('\t'),
    ensures
        spec_extract_path(spec_display_line(dt, is_dir, path)) == Some(path),
{
    let icon = spec_icon(is_dir);
    let line = spec_display_line(dt, is_dir, path);
    let tail = icon + seq![' '] + path;
    assert(line =~= dt + seq!['\t'] + tail);
    lemma_first_index_append(dt, '\t', tail);
    let rest = line.subrange(dt.len() as int + 1, line.len() as int);
    assert(spec_split_once(line, '\t') == Some((line.subrange(0, dt.len() as int), rest)));
    assert(rest =~= tail);
    assert(!icon.contains(' ')) by {
        assert(icon.len() == 1 && icon[0] != ' ');
    }
    lemma_first_index_append(icon, ' ', path);
    let rest2 = tail.subrange(icon.len() as int + 1, tail.len() as int);
    assert(spec_split_once(tail, ' ') == Some((tail.subrange(0, icon.len() as int), rest2)));
    assert(rest2 =~= path);
}

/// The listing→formatting pipeline is a function of the listing's pairs
/// and of the directory classification alone: the calendar rendering of a
/// timestamp is fixed, every formatting function's contract pins its
/// result to the spec functions below, and so two runs over the same
/// listing and an unchanged filesystem yield byte-identical display text.
pub proof fn lemma_format_idempotent(
    entries: Seq<(i64, Seq<char>)>,
    dirs: Seq<bool>,
    first: Seq<Seq<char>>,
    second: Seq<Seq<char>>,
)
    requires
        first == spec_lines_of(entries, dirs),
        second == spec_lines_of(entries, dirs),
    ensures
        first == second,
        spec_join_lines(first) == spec_join_lines(second),
{
}

} // verus!
