//! The property areas that are mapped into the process, as `/proc/self/maps` lists them.

use vstd::prelude::*;

use crate::number::{self, read_number, NumberError};
use crate::split::{self, cut_once, lines_of, words_of};
use crate::text;
use crate::text_laws::law_cut_once;

verus! {

/// A mapping of a property area, in the mathematical model.
#[verifier::ext_equal]
pub ghost struct Mapping {
    pub start: usize,
    pub end: usize,
    pub path: Seq<char>,
    pub offset: u64,
}

/// A mapping of a property area.
#[derive(Debug)]
pub struct PropAreaMapping {
    /// The first address.
    pub start: usize,
    /// The address behind the last one.
    pub end: usize,
    /// The file that is mapped.
    pub path: String,
    /// Where in the file the mapping begins.
    pub offset: u64,
}

impl View for PropAreaMapping {
    type V = Mapping;

    open spec fn view(&self) -> Mapping {
        Mapping { start: self.start, end: self.end, path: self.path@, offset: self.offset }
    }
}

/// Some mappings, in the mathematical model.
pub open spec fn mapping_views(mappings: Seq<PropAreaMapping>) -> Seq<Mapping> {
    mappings.map_values(|m: PropAreaMapping| m@)
}

/// A range of addresses.
#[derive(Debug, Clone, Copy, PartialEq, Eq, Structural)]
pub struct PropRange {
    /// The first address.
    pub start: usize,
    /// The address behind the last one.
    pub end: usize,
}

impl PropRange {
    /// How many addresses there are.
    pub fn size(&self) -> (n: usize)
        requires
            self.start <= self.end,
        ensures
            n == self.end - self.start,
    {
        self.end - self.start
    }
}

/// The range that a text such as `7f00-8000` names, in hexadecimal.
pub open spec fn range_of(s: Seq<char>) -> Option<PropRange> {
    match cut_once(s, '-') {
        Some((start, end)) => match (
            read_number(start, 16, usize::MAX as nat),
            read_number(end, 16, usize::MAX as nat),
        ) {
            (Ok(start), Ok(end)) => Some(PropRange { start: start as usize, end: end as usize }),
            _ => None,
        },
        None => None,
    }
}

/// Reads a range of addresses.
fn parse_range(s: &str) -> (out: Option<PropRange>)
    ensures
        out == range_of(s@),
{
    match split::split_once(s, '-') {
        Some((start, end)) => {
            let start = match number::parse_number(start.as_str(), 16, usize::MAX as u64) {
                Ok(n) => n as usize,
                Err(_) => return None,
            };
            let end = match number::parse_number(end.as_str(), 16, usize::MAX as u64) {
                Ok(n) => n as usize,
                Err(_) => return None,
            };
            Some(PropRange { start, end })
        },
        None => {
            proof {
                reveal(cut_once);
            }
            None
        },
    }
}

/// The mapping of a property area that a line names: the range, the permissions, the offset, the
/// device, the inode and the path, with white space between them.
pub open spec fn mapping_of(line: Seq<char>) -> Option<Mapping> {
    let words = words_of(line);
    if words.len() < 6 || !"/dev/__properties__/"@.is_prefix_of(words[5]) {
        None
    } else {
        match (range_of(words[0]), read_number(words[2], 16, u64::MAX as nat)) {
            (Some(range), Ok(offset)) => Some(
                Mapping {
                    start: range.start,
                    end: range.end,
                    path: words[5],
                    offset: offset as u64,
                },
            ),
            _ => None,
        }
    }
}

/// The mappings that some lines name, in order.
pub open spec fn mappings_in(lines: Seq<Seq<char>>) -> Seq<Mapping>
    decreases lines.len(),
{
    if lines.len() == 0 {
        Seq::empty()
    } else {
        let before = mappings_in(lines.drop_last());
        match mapping_of(lines.last()) {
            Some(m) => before.push(m),
            None => before,
        }
    }
}

/// Reads the mapping of a property area from a line.
fn parse_mapping(line: &str) -> (out: Option<PropAreaMapping>)
    ensures
        match out {
            Some(m) => mapping_of(line@) == Some(m@),
            None => mapping_of(line@) is None,
        },
{
    let words = split::words(line);
    let ghost all = text::views(words@);
    if words.len() < 6 {
        return None;
    }
    assert(all[0] == words@[0]@ && all[2] == words@[2]@ && all[5] == words@[5]@);
    if !text::starts_with(words[5].as_str(), "/dev/__properties__/") {
        return None;
    }
    let range = match parse_range(words[0].as_str()) {
        Some(range) => range,
        None => return None,
    };
    let offset: u64 = match number::parse_number(words[2].as_str(), 16, u64::MAX) {
        Ok(n) => n,
        Err(_) => return None,
    };
    Some(
        PropAreaMapping {
            start: range.start,
            end: range.end,
            path: words[5].clone(),
            offset,
        },
    )
}

/// The mappings of property areas in the text of `/proc/self/maps`. Other lines are passed over.
pub fn collect_prop_area_mappings(maps: &str) -> (out: Vec<PropAreaMapping>)
    ensures
        mapping_views(out@) == mappings_in(lines_of(maps@)),
{
    let lines = split::lines(maps);
    let ghost all = text::views(lines@);
    let mut out: Vec<PropAreaMapping> = Vec::new();
    let mut i: usize = 0;
    assert(mapping_views(out@) =~= mappings_in(all.take(0)));
    while i < lines.len()
        invariant
            i <= lines@.len(),
            all == text::views(lines@),
            mapping_views(out@) == mappings_in(all.take(i as int)),
        decreases lines@.len() - i,
    {
        let ghost next = all.take(i + 1);
        assert(next.drop_last() =~= all.take(i as int));
        assert(next.last() == lines@[i as int]@);
        if let Some(m) = parse_mapping(lines[i].as_str()) {
            let ghost before = out@;
            out.push(m);
            assert(mapping_views(out@) =~= mapping_views(before).push(m@));
        }
        i = i + 1;
    }
    assert(all.take(i as int) =~= all);
    out
}

/// Whether one of some patterns occurs in a path.
pub open spec fn any_occurs(path: Seq<char>, patterns: Seq<Seq<char>>) -> bool {
    exists|i: int| 0 <= i < patterns.len() && text::occurs(path, #[trigger] patterns[i])
}

/// The path that a line names: what stands from its first slash on. None of the columns before the
/// path holds a slash, however many of them there are.
pub open spec fn path_in(line: Seq<char>) -> Option<Seq<char>> {
    match cut_once(line, '/') {
        Some((_, rest)) => Some("/"@ + rest),
        None => None,
    }
}

/// The range to unmap that a line names: that of a property area in whose path one of the
/// patterns occurs.
pub open spec fn unmapped_by(line: Seq<char>, patterns: Seq<Seq<char>>) -> Option<PropRange> {
    let words = words_of(line);
    match path_in(line) {
        Some(path) => if "/dev/__properties__/"@.is_prefix_of(path) && any_occurs(path, patterns)
            && words.len() > 0 {
            range_of(words[0])
        } else {
            None
        },
        None => None,
    }
}

/// The ranges to unmap that some lines name, in order.
pub open spec fn unmapped_in(lines: Seq<Seq<char>>, patterns: Seq<Seq<char>>) -> Seq<PropRange>
    decreases lines.len(),
{
    if lines.len() == 0 {
        Seq::empty()
    } else {
        let before = unmapped_in(lines.drop_last(), patterns);
        match unmapped_by(lines.last(), patterns) {
            Some(range) => before.push(range),
            None => before,
        }
    }
}

/// Whether one of some patterns occurs in a path.
fn matches_any(path: &str, patterns: &Vec<String>) -> (found: bool)
    ensures
        found == any_occurs(path@, text::views(patterns@)),
{
    let ghost all = text::views(patterns@);
    let mut i: usize = 0;
    while i < patterns.len()
        invariant
            i <= patterns@.len(),
            all == text::views(patterns@),
            forall|j: int| 0 <= j < i ==> !text::occurs(path@, #[trigger] all[j]),
        decreases patterns@.len() - i,
    {
        assert(all[i as int] == patterns@[i as int]@);
        if text::contains(path, patterns[i].as_str()) {
            return true;
        }
        i = i + 1;
    }
    false
}

/// Reads the range to unmap from a line.
fn parse_unmapped(line: &str, patterns: &Vec<String>) -> (out: Option<PropRange>)
    ensures
        out == unmapped_by(line@, text::views(patterns@)),
{
    let path = match split::split_once(line, '/') {
        Some((_, rest)) => text::joined("/", rest.as_str()),
        None => {
            proof {
                reveal(cut_once);
            }
            return None;
        },
    };
    if !text::starts_with(path.as_str(), "/dev/__properties__/") || !matches_any(
        path.as_str(),
        patterns,
    ) {
        return None;
    }
    let words = split::words(line);
    if words.len() == 0 {
        return None;
    }
    assert(text::views(words@)[0] == words@[0]@);
    parse_range(words[0].as_str())
}

/// The ranges of the property areas in the text of `/proc/self/maps` in whose paths one of the
/// patterns occurs. They are to be unmapped.
pub fn unmap_prop_areas(patterns: &Vec<String>, maps: &str) -> (out: Vec<PropRange>)
    ensures
        out@ == unmapped_in(lines_of(maps@), text::views(patterns@)),
{
    let lines = split::lines(maps);
    let ghost all = text::views(lines@);
    let mut out: Vec<PropRange> = Vec::new();
    let mut i: usize = 0;
    assert(out@ =~= unmapped_in(all.take(0), text::views(patterns@)));
    while i < lines.len()
        invariant
            i <= lines@.len(),
            all == text::views(lines@),
            out@ == unmapped_in(all.take(i as int), text::views(patterns@)),
        decreases lines@.len() - i,
    {
        let ghost next = all.take(i + 1);
        assert(next.drop_last() =~= all.take(i as int));
        assert(next.last() == lines@[i as int]@);
        if let Some(range) = parse_unmapped(lines[i].as_str(), patterns) {
            out.push(range);
        }
        i = i + 1;
    }
    assert(all.take(i as int) =~= all);
    out
}


/// A range is two hexadecimal numbers around the first `-`.
pub proof fn law_range(start: Seq<char>, end: Seq<char>)
    requires
        !start.contains('-'),
    ensures
        range_of(start) is None,
        range_of(start + seq!['-'] + end) == match (
            read_number(start, 16, usize::MAX as nat),
            read_number(end, 16, usize::MAX as nat),
        ) {
            (Ok(a), Ok(b)) => Some(PropRange { start: a as usize, end: b as usize }),
            _ => None,
        },
{
    law_cut_once(start, end, '-');
}

/// A line names the mapping of a property area by its columns: the first is the range, the third
/// the offset in hexadecimal, and the sixth the path, which lies in the directory of the property
/// areas. The other columns do not matter, nor does what follows the path.
pub proof fn law_mapping_line(
    line: Seq<char>,
    range: PropRange,
    offset: u64,
    columns: Seq<Seq<char>>,
)
    requires
        words_of(line) == columns,
    ensures
        columns.len() >= 6 && range_of(columns[0]) == Some(range) && read_number(
            columns[2],
            16,
            0xffff_ffff_ffff_ffff,
        ) == Ok::<nat, NumberError>(offset as nat) && "/dev/__properties__/"@.is_prefix_of(
            columns[5],
        ) ==> mapping_of(line) == Some(
            Mapping { start: range.start, end: range.end, path: columns[5], offset },
        ),
        columns.len() < 6 ==> mapping_of(line) is None,
        columns.len() >= 6 && !"/dev/__properties__/"@.is_prefix_of(columns[5]) ==> mapping_of(
            line,
        ) is None,
        columns.len() >= 6 && range_of(columns[0]) is None ==> mapping_of(line) is None,
        columns.len() >= 6 && read_number(columns[2], 16, 0xffff_ffff_ffff_ffff) is Err
            ==> mapping_of(line) is None,
{
}

/// The path of a line begins at its first slash. The line's range is to be unmapped exactly where
/// that path lies in the directory of the property areas and one of the patterns occurs in it.
pub proof fn law_unmapped_line(
    front: Seq<char>,
    path: Seq<char>,
    patterns: Seq<Seq<char>>,
    k: int,
)
    requires
        !front.contains('/'),
        path.len() > 0 && path[0] == '/',
    ensures
        "/dev/__properties__/"@.is_prefix_of(path) && 0 <= k < patterns.len() && text::occurs(
            path,
            patterns[k],
        ) && words_of(front + path).len() > 0 ==> unmapped_by(front + path, patterns) == range_of(
            words_of(front + path)[0],
        ),
        !"/dev/__properties__/"@.is_prefix_of(path) ==> unmapped_by(front + path, patterns) is None,
        (forall|j: int| 0 <= j < patterns.len() ==> !text::occurs(path, #[trigger] patterns[j]))
            ==> unmapped_by(front + path, patterns) is None,
        unmapped_by(front, patterns) is None,
{
    let rest = path.drop_first();
    reveal_strlit("/");
    assert(front + path =~= front + seq!['/'] + rest);
    assert("/"@ + rest =~= path);
    law_cut_once(front, rest, '/');
}

/// What some lines name comes in their order, and each line counts by itself.
pub proof fn law_lines_count_one_by_one(
    first: Seq<Seq<char>>,
    second: Seq<Seq<char>>,
    line: Seq<char>,
    patterns: Seq<Seq<char>>,
)
    ensures
        mappings_in(first + second) == mappings_in(first) + mappings_in(second),
        mappings_in(seq![line]) == match mapping_of(line) {
            Some(m) => seq![m],
            None => Seq::empty(),
        },
        unmapped_in(first + second, patterns) == unmapped_in(first, patterns) + unmapped_in(
            second,
            patterns,
        ),
        unmapped_in(seq![line], patterns) == match unmapped_by(line, patterns) {
            Some(range) => seq![range],
            None => Seq::empty(),
        },
    decreases second.len(),
{
    reveal_with_fuel(mappings_in, 2);
    reveal_with_fuel(unmapped_in, 2);
    assert(seq![line].drop_last() =~= Seq::<Seq<char>>::empty());
    assert(mappings_in(seq![line]) =~= match mapping_of(line) {
        Some(m) => seq![m],
        None => Seq::empty(),
    });
    assert(unmapped_in(seq![line], patterns) =~= match unmapped_by(line, patterns) {
        Some(range) => seq![range],
        None => Seq::empty(),
    });
    if second.len() == 0 {
        assert(first + second =~= first);
        assert(mappings_in(first + second) =~= mappings_in(first) + mappings_in(second));
        assert(unmapped_in(first + second, patterns) =~= unmapped_in(first, patterns)
            + unmapped_in(second, patterns));
    } else {
        law_lines_count_one_by_one(first, second.drop_last(), line, patterns);
        assert((first + second).drop_last() =~= first + second.drop_last());
        assert((first + second).last() == second.last());
        assert(mappings_in(first + second) =~= mappings_in(first) + mappings_in(second));
        assert(unmapped_in(first + second, patterns) =~= unmapped_in(first, patterns)
            + unmapped_in(second, patterns));
    }
}

} // verus!
