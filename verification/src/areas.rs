//! Which property area an address, a path or a property belongs to, and which areas are private
//! copies already.

use vstd::prelude::*;

use crate::maps::{mapping_of, mapping_views, mappings_in, Mapping, PropAreaMapping, PropRange};
use crate::text;

verus! {

/// The least size of an area that is looked into.
pub const MIN_AREA: usize = 128;

/// Whether a path names an area of build properties.
pub open spec fn build_path(path: Seq<char>) -> bool {
    ||| text::occurs(path, "build_prop"@)
    ||| text::occurs(path, "build_odm_prop"@)
    ||| text::occurs(path, "build_vendor_prop"@)
    ||| text::occurs(path, "default_prop"@)
}

/// Whether a path names an area of build properties.
pub fn is_build_area(path: &str) -> (yes: bool)
    ensures
        yes == build_path(path@),
{
    text::contains(path, "build_prop") || text::contains(path, "build_odm_prop") || text::contains(
        path,
        "build_vendor_prop",
    ) || text::contains(path, "default_prop")
}

impl Mapping {
    /// Whether an address lies in the mapping.
    pub open spec fn holds(self, addr: usize) -> bool {
        self.start <= addr < self.end
    }

    /// Whether the mapping is one of build properties that is large enough to be looked into.
    pub open spec fn searchable(self) -> bool {
        build_path(self.path) && self.end - self.start >= MIN_AREA
    }
}

/// Where in a list the first mapping stands that is wanted.
pub open spec fn first_such(mappings: Seq<Mapping>, wanted: spec_fn(Mapping) -> bool) -> Option<
    usize,
>
    decreases mappings.len(),
{
    if mappings.len() == 0 {
        None
    } else {
        match first_such(mappings.drop_last(), wanted) {
            Some(i) => Some(i),
            None => if wanted(mappings.last()) {
                Some((mappings.len() - 1) as usize)
            } else {
                None
            },
        }
    }
}

/// Where in a list the mappings stand that are wanted, in order.
pub open spec fn all_such(mappings: Seq<Mapping>, wanted: spec_fn(Mapping) -> bool) -> Seq<usize>
    decreases mappings.len(),
{
    if mappings.len() == 0 {
        Seq::empty()
    } else {
        let before = all_such(mappings.drop_last(), wanted);
        if wanted(mappings.last()) {
            before.push((mappings.len() - 1) as usize)
        } else {
            before
        }
    }
}

/// The first wanted mapping of a list is the first of each longer list.
proof fn lemma_first_stays(mappings: Seq<Mapping>, wanted: spec_fn(Mapping) -> bool, n: int)
    requires
        0 <= n <= mappings.len(),
        first_such(mappings.take(n), wanted) is Some,
    ensures
        first_such(mappings, wanted) == first_such(mappings.take(n), wanted),
    decreases mappings.len() - n,
{
    if n == mappings.len() {
        assert(mappings.take(n) =~= mappings);
    } else {
        assert(mappings.take(n + 1).drop_last() =~= mappings.take(n));
        lemma_first_stays(mappings, wanted, n + 1);
    }
}

/// The first wanted mapping is there, is wanted, and none before it is.
pub proof fn lemma_first_such(mappings: Seq<Mapping>, wanted: spec_fn(Mapping) -> bool)
    requires
        mappings.len() <= usize::MAX,
    ensures
        match first_such(mappings, wanted) {
            Some(i) => {
                &&& i < mappings.len()
                &&& wanted(mappings[i as int])
                &&& forall|j: int| 0 <= j < i ==> !wanted(#[trigger] mappings[j])
            },
            None => forall|j: int| 0 <= j < mappings.len() ==> !wanted(#[trigger] mappings[j]),
        },
    decreases mappings.len(),
{
    if mappings.len() > 0 {
        let front = mappings.drop_last();
        lemma_first_such(front, wanted);
        match first_such(front, wanted) {
            Some(i) => {
                assert(mappings[i as int] == front[i as int]);
                assert forall|j: int| 0 <= j < i implies !wanted(#[trigger] mappings[j]) by {
                    assert(front[j] == mappings[j]);
                }
            },
            None => {
                assert forall|j: int| 0 <= j < front.len() implies !wanted(
                    #[trigger] mappings[j],
                ) by {
                    assert(front[j] == mappings[j]);
                }
            },
        }
    }
}

/// The wanted mappings are those that are wanted.
pub proof fn lemma_all_such(mappings: Seq<Mapping>, wanted: spec_fn(Mapping) -> bool)
    requires
        mappings.len() <= usize::MAX,
    ensures
        forall|k: int|
            0 <= k < all_such(mappings, wanted).len() ==> {
                &&& (#[trigger] all_such(mappings, wanted)[k]) < mappings.len()
                &&& wanted(mappings[all_such(mappings, wanted)[k] as int])
            },
        forall|i: int|
            0 <= i < mappings.len() && wanted(#[trigger] mappings[i]) ==> all_such(
                mappings,
                wanted,
            ).contains(i as usize),
    decreases mappings.len(),
{
    if mappings.len() > 0 {
        let front = mappings.drop_last();
        let before = all_such(front, wanted);
        let all = all_such(mappings, wanted);
        lemma_all_such(front, wanted);
        assert forall|k: int| 0 <= k < all.len() implies {
            &&& (#[trigger] all[k]) < mappings.len()
            &&& wanted(mappings[all[k] as int])
        } by {
            if k < before.len() {
                assert(all[k] == before[k]);
                assert(front[before[k] as int] == mappings[before[k] as int]);
            }
        }
        assert forall|i: int|
            0 <= i < mappings.len() && wanted(#[trigger] mappings[i]) implies all.contains(
            i as usize,
        ) by {
            if i < front.len() {
                assert(front[i] == mappings[i]);
                assert(before.contains(i as usize));
                let k = choose|k: int| 0 <= k < before.len() && before[k] == i as usize;
                assert(all[k] == i as usize);
            } else {
                assert(all[before.len() as int] == i as usize);
            }
        }
    }
}

/// There are at most as many wanted mappings as mappings.
pub proof fn lemma_all_such_len(mappings: Seq<Mapping>, wanted: spec_fn(Mapping) -> bool)
    ensures
        all_such(mappings, wanted).len() <= mappings.len(),
    decreases mappings.len(),
{
    if mappings.len() > 0 {
        lemma_all_such_len(mappings.drop_last(), wanted);
    }
}

/// The mapping in which an address lies.
pub open spec fn holder(mappings: Seq<Mapping>, addr: usize) -> Option<usize> {
    first_such(mappings, |m: Mapping| m.holds(addr))
}

/// Finds the mapping in which an address lies.
pub fn mapping_holding(mappings: &Vec<PropAreaMapping>, addr: usize) -> (out: Option<usize>)
    ensures
        out == holder(mapping_views(mappings@), addr),
        out matches Some(i) ==> i < mappings@.len() && mappings@[i as int]@.holds(addr),
{
    let ghost all = mapping_views(mappings@);
    let ghost wanted = |m: Mapping| m.holds(addr);
    let mut i: usize = 0;
    while i < mappings.len()
        invariant
            i <= mappings@.len(),
            all == mapping_views(mappings@),
            wanted == |m: Mapping| m.holds(addr),
            first_such(all.take(i as int), wanted) is None,
        decreases mappings@.len() - i,
    {
        assert(all.take(i + 1).drop_last() =~= all.take(i as int));
        assert(all.take(i + 1).last() == mappings@[i as int]@);
        if mappings[i].start <= addr && addr < mappings[i].end {
            proof {
                lemma_first_stays(all, wanted, i + 1);
            }
            return Some(i);
        }
        i = i + 1;
    }
    assert(all.take(i as int) =~= all);
    None
}

/// The first mapping of a file.
pub open spec fn mapped_at(mappings: Seq<Mapping>, path: Seq<char>) -> Option<usize> {
    first_such(mappings, |m: Mapping| m.path == path)
}

/// Finds the first mapping of a file.
pub fn mapping_of_path(mappings: &Vec<PropAreaMapping>, path: &str) -> (out: Option<usize>)
    ensures
        out == mapped_at(mapping_views(mappings@), path@),
        out matches Some(i) ==> i < mappings@.len() && mappings@[i as int]@.path == path@,
{
    let ghost all = mapping_views(mappings@);
    let ghost wanted = |m: Mapping| m.path == path@;
    let mut i: usize = 0;
    while i < mappings.len()
        invariant
            i <= mappings@.len(),
            all == mapping_views(mappings@),
            wanted == |m: Mapping| m.path == path@,
            first_such(all.take(i as int), wanted) is None,
        decreases mappings@.len() - i,
    {
        assert(all.take(i + 1).drop_last() =~= all.take(i as int));
        assert(all.take(i + 1).last() == mappings@[i as int]@);
        if text::same(mappings[i].path.as_str(), path) {
            proof {
                lemma_first_stays(all, wanted, i + 1);
            }
            return Some(i);
        }
        i = i + 1;
    }
    assert(all.take(i as int) =~= all);
    None
}

/// The mapping that holds the serial number of all areas.
pub open spec fn serial_mapping(mappings: Seq<Mapping>) -> Option<usize> {
    first_such(mappings, |m: Mapping| "/properties_serial"@.is_suffix_of(m.path))
}

/// Finds the mapping that holds the serial number of all areas.
pub fn cow_serial_area(mappings: &Vec<PropAreaMapping>) -> (out: Option<usize>)
    ensures
        out == serial_mapping(mapping_views(mappings@)),
        out matches Some(i) ==> i < mappings@.len(),
{
    let ghost all = mapping_views(mappings@);
    let ghost wanted = |m: Mapping| "/properties_serial"@.is_suffix_of(m.path);
    let mut i: usize = 0;
    while i < mappings.len()
        invariant
            i <= mappings@.len(),
            all == mapping_views(mappings@),
            wanted == |m: Mapping| "/properties_serial"@.is_suffix_of(m.path),
            first_such(all.take(i as int), wanted) is None,
        decreases mappings@.len() - i,
    {
        assert(all.take(i + 1).drop_last() =~= all.take(i as int));
        assert(all.take(i + 1).last() == mappings@[i as int]@);
        if text::ends_with(mappings[i].path.as_str(), "/properties_serial") {
            proof {
                lemma_first_stays(all, wanted, i + 1);
            }
            return Some(i);
        }
        i = i + 1;
    }
    assert(all.take(i as int) =~= all);
    None
}

/// The other areas of build properties that may hold a property, besides the one with the given
/// address.
pub open spec fn cross_areas(mappings: Seq<Mapping>, addr: usize) -> Seq<usize> {
    all_such(mappings, |m: Mapping| m.searchable() && !m.holds(addr))
}

/// Finds the other areas of build properties that may hold a property.
pub fn other_areas(mappings: &Vec<PropAreaMapping>, addr: usize) -> (out: Vec<usize>)
    ensures
        out@ == cross_areas(mapping_views(mappings@), addr),
{
    let ghost all = mapping_views(mappings@);
    let ghost wanted = |m: Mapping| m.searchable() && !m.holds(addr);
    let mut out: Vec<usize> = Vec::new();
    let mut i: usize = 0;
    assert(out@ =~= all_such(all.take(0), wanted));
    while i < mappings.len()
        invariant
            i <= mappings@.len(),
            all == mapping_views(mappings@),
            wanted == |m: Mapping| m.searchable() && !m.holds(addr),
            out@ == all_such(all.take(i as int), wanted),
        decreases mappings@.len() - i,
    {
        assert(all.take(i + 1).drop_last() =~= all.take(i as int));
        assert(all.take(i + 1).last() == mappings@[i as int]@);
        assert(all[i as int] == mappings@[i as int]@);
        let m = &mappings[i];
        if is_build_area(m.path.as_str()) && !(m.start <= addr && addr < m.end) && m.start <= m.end
            && m.end - m.start >= MIN_AREA {
            out.push(i);
        }
        i = i + 1;
    }
    assert(all.take(i as int) =~= all);
    out
}

/// The areas that are searched for the siblings of a property.
pub open spec fn probed_areas(mappings: Seq<Mapping>) -> Seq<usize> {
    all_such(
        mappings,
        |m: Mapping| "/dev/__properties__/"@.is_prefix_of(m.path) && m.searchable(),
    )
}

/// Finds the areas that are searched for the siblings of a property.
pub fn areas_to_probe(mappings: &Vec<PropAreaMapping>) -> (out: Vec<usize>)
    ensures
        out@ == probed_areas(mapping_views(mappings@)),
{
    let ghost all = mapping_views(mappings@);
    let ghost wanted = |m: Mapping|
        "/dev/__properties__/"@.is_prefix_of(m.path) && m.searchable();
    let mut out: Vec<usize> = Vec::new();
    let mut i: usize = 0;
    assert(out@ =~= all_such(all.take(0), wanted));
    while i < mappings.len()
        invariant
            i <= mappings@.len(),
            all == mapping_views(mappings@),
            wanted == |m: Mapping|
                "/dev/__properties__/"@.is_prefix_of(m.path) && m.searchable(),
            out@ == all_such(all.take(i as int), wanted),
        decreases mappings@.len() - i,
    {
        assert(all.take(i + 1).drop_last() =~= all.take(i as int));
        assert(all.take(i + 1).last() == mappings@[i as int]@);
        assert(all[i as int] == mappings@[i as int]@);
        let m = &mappings[i];
        if text::starts_with(m.path.as_str(), "/dev/__properties__/") && is_build_area(
            m.path.as_str(),
        ) && m.start <= m.end && m.end - m.start >= MIN_AREA {
            out.push(i);
        }
        i = i + 1;
    }
    assert(all.take(i as int) =~= all);
    out
}

/// The area that the property contexts route a property to, if it is one of the property areas.
/// `found` is the path that was looked up, if any.
pub fn context_area_path(found: Option<String>) -> (out: Option<String>)
    ensures
        text::opt_view(out) == match found {
            Some(path) => if "/dev/__properties__/"@.is_prefix_of(path@) {
                Some(path@)
            } else {
                None
            },
            None => None,
        },
{
    match found {
        Some(path) => if text::starts_with(path.as_str(), "/dev/__properties__/") {
            Some(path)
        } else {
            None
        },
        None => None,
    }
}

/// What has to be done before an address is written to.
#[derive(Debug, Clone, Copy, PartialEq, Eq, Structural)]
pub enum PrivatePlan {
    /// The area is a private copy already.
    Already,
    /// Replace this mapping by a private copy.
    Remap(usize),
    /// No mapping holds the address.
    NotMapped,
    /// The path of the mapping cannot be opened: it holds a zero character.
    InvalidPath,
}

/// Whether an address lies in one of some ranges.
pub open spec fn covered(ranges: Seq<PropRange>, addr: usize) -> bool {
    exists|i: int|
        0 <= i < ranges.len() && (#[trigger] ranges[i]).start <= addr < ranges[i].end
}

/// What has to be done before an address is written to, where some ranges are private already.
pub open spec fn plan_for(
    ranges: Seq<PropRange>,
    mappings: Seq<Mapping>,
    addr: usize,
) -> PrivatePlan {
    if covered(ranges, addr) {
        PrivatePlan::Already
    } else {
        match holder(mappings, addr) {
            None => PrivatePlan::NotMapped,
            Some(i) => if mappings[i as int].path.contains('\0') {
                PrivatePlan::InvalidPath
            } else {
                PrivatePlan::Remap(i)
            },
        }
    }
}

/// The areas that are private copies already.
#[derive(Debug)]
pub struct CowRanges {
    ranges: Vec<PropRange>,
}

impl View for CowRanges {
    type V = Seq<PropRange>;

    closed spec fn view(&self) -> Seq<PropRange> {
        self.ranges@
    }
}

impl CowRanges {
    /// No area is private.
    pub fn new() -> (out: Self)
        ensures
            out@ == Seq::<PropRange>::empty(),
    {
        CowRanges { ranges: Vec::new() }
    }

    /// Decides what has to be done before an address is written to.
    pub fn ensure_prop_area_private(&self, addr: usize, mappings: &Vec<PropAreaMapping>) -> (out:
        PrivatePlan)
        ensures
            out == plan_for(self@, mapping_views(mappings@), addr),
            out matches PrivatePlan::Remap(i) ==> i < mappings@.len()
                && mappings@[i as int]@.holds(addr),
    {
        let mut i: usize = 0;
        while i < self.ranges.len()
            invariant
                i <= self.ranges@.len(),
                forall|j: int|
                    0 <= j < i ==> !((#[trigger] self@[j]).start <= addr < self@[j].end),
            decreases self.ranges@.len() - i,
        {
            let range = self.ranges[i];
            assert(range == self@[i as int]);
            if range.start <= addr && addr < range.end {
                return PrivatePlan::Already;
            }
            i = i + 1;
        }
        match mapping_holding(mappings, addr) {
            None => PrivatePlan::NotMapped,
            Some(i) => {
                assert(mapping_views(mappings@)[i as int] == mappings@[i as int]@);
                if text::has_char(mappings[i].path.as_str(), '\0') {
                    PrivatePlan::InvalidPath
                } else {
                    PrivatePlan::Remap(i)
                }
            },
        }
    }

    /// Notes that a mapping was replaced by a private copy.
    pub fn record(&mut self, mapping: &PropAreaMapping)
        ensures
            final(self)@ == old(self)@.push(PropRange { start: mapping.start, end: mapping.end }),
    {
        self.ranges.push(PropRange { start: mapping.start, end: mapping.end });
    }

    /// Forgets all private copies.
    pub fn clear(&mut self)
        ensures
            final(self)@ == Seq::<PropRange>::empty(),
    {
        self.ranges = Vec::new();
    }
}

/// A mapping is replaced at most once: once that is noted, each of its addresses is private, and
/// what was private stays so.
pub proof fn law_remapped_area_is_private(
    ranges: Seq<PropRange>,
    mappings: Seq<Mapping>,
    mapping: Mapping,
    addr: usize,
)
    requires
        mapping.holds(addr) || plan_for(ranges, mappings, addr) == PrivatePlan::Already,
    ensures
        plan_for(
            ranges.push(PropRange { start: mapping.start, end: mapping.end }),
            mappings,
            addr,
        ) == PrivatePlan::Already,
{
    let after = ranges.push(PropRange { start: mapping.start, end: mapping.end });
    if covered(ranges, addr) {
        let i = choose|i: int|
            0 <= i < ranges.len() && (#[trigger] ranges[i]).start <= addr < ranges[i].end;
        assert(after[i] == ranges[i]);
    } else {
        assert(after[ranges.len() as int].start <= addr < after[ranges.len() as int].end);
    }
}

/// Every mapping that is listed is that of a file among the property areas, and stands in a line
/// of its own.
pub proof fn law_listed_mappings_are_property_areas(lines: Seq<Seq<char>>)
    ensures
        forall|i: int|
            0 <= i < mappings_in(lines).len() ==> "/dev/__properties__/"@.is_prefix_of(
                (#[trigger] mappings_in(lines)[i]).path,
            ) && exists|k: int|
                0 <= k < lines.len() && mapping_of(#[trigger] lines[k]) == Some(
                    mappings_in(lines)[i],
                ),
    decreases lines.len(),
{
    if lines.len() > 0 {
        let front = lines.drop_last();
        let before = mappings_in(front);
        let all = mappings_in(lines);
        law_listed_mappings_are_property_areas(front);
        assert forall|i: int| 0 <= i < all.len() implies "/dev/__properties__/"@.is_prefix_of(
            (#[trigger] all[i]).path,
        ) && exists|k: int| 0 <= k < lines.len() && mapping_of(#[trigger] lines[k]) == Some(all[i]) by {
            if i < before.len() {
                assert(all[i] == before[i]);
                let k = choose|k: int|
                    0 <= k < front.len() && mapping_of(#[trigger] front[k]) == Some(before[i]);
                assert(lines[k] == front[k]);
            } else {
                assert(mapping_of(lines[lines.len() - 1]) == Some(all[i]));
            }
        }
    }
}

/// The wanted mappings come in the order of the list, each of them once.
proof fn lemma_all_such_ascends(mappings: Seq<Mapping>, wanted: spec_fn(Mapping) -> bool)
    requires
        mappings.len() <= usize::MAX,
    ensures
        forall|a: int, b: int|
            0 <= a < b < all_such(mappings, wanted).len() ==> (#[trigger] all_such(
                mappings,
                wanted,
            )[a]) < (#[trigger] all_such(mappings, wanted)[b]),
    decreases mappings.len(),
{
    if mappings.len() > 0 {
        let front = mappings.drop_last();
        let before = all_such(front, wanted);
        let all = all_such(mappings, wanted);
        lemma_all_such_ascends(front, wanted);
        lemma_all_such(front, wanted);
        assert forall|a: int, b: int| 0 <= a < b < all.len() implies (#[trigger] all[a]) < (
        #[trigger] all[b]) by {
            assert(all[a] == before[a]);
            if b < before.len() {
                assert(all[b] == before[b]);
            }
        }
    }
}

/// Whether a mapping is among those of a list that are wanted.
proof fn lemma_among_all_such(
    mappings: Seq<Mapping>,
    wanted: spec_fn(Mapping) -> bool,
    i: usize,
)
    requires
        mappings.len() <= usize::MAX,
    ensures
        all_such(mappings, wanted).contains(i) <==> i < mappings.len() && wanted(
            mappings[i as int],
        ),
{
    lemma_all_such(mappings, wanted);
    let all = all_such(mappings, wanted);
    if all.contains(i) {
        let k = choose|k: int| 0 <= k < all.len() && all[k] == i;
        assert(all[k] == i);
    }
}

/// A property is also looked for in each mapping of at least 128 bytes that does not hold its
/// address and whose path names `build_prop`, `build_odm_prop`, `build_vendor_prop` or
/// `default_prop`: in each of these once, from the first to the last, and in no other.
pub proof fn law_other_areas(mappings: Seq<Mapping>, addr: usize, i: usize)
    requires
        mappings.len() <= usize::MAX,
    ensures
        cross_areas(mappings, addr).contains(i) <==> {
            &&& i < mappings.len()
            &&& mappings[i as int].end - mappings[i as int].start >= 128
            &&& !(mappings[i as int].start <= addr && addr < mappings[i as int].end)
            &&& text::occurs(mappings[i as int].path, "build_prop"@) || text::occurs(
                mappings[i as int].path,
                "build_odm_prop"@,
            ) || text::occurs(mappings[i as int].path, "build_vendor_prop"@) || text::occurs(
                mappings[i as int].path,
                "default_prop"@,
            )
        },
        forall|a: int, b: int|
            0 <= a < b < cross_areas(mappings, addr).len() ==> (#[trigger] cross_areas(
                mappings,
                addr,
            )[a]) < (#[trigger] cross_areas(mappings, addr)[b]),
{
    let wanted = |m: Mapping| m.searchable() && !m.holds(addr);
    lemma_among_all_such(mappings, wanted, i);
    lemma_all_such_ascends(mappings, wanted);
}

/// The siblings of a property are looked for in each mapping of at least 128 bytes whose path
/// lies in the directory of the property areas and names `build_prop`, `build_odm_prop`,
/// `build_vendor_prop` or `default_prop`: in each of these once, from the first to the last, and
/// in no other.
pub proof fn law_areas_to_probe(mappings: Seq<Mapping>, i: usize)
    requires
        mappings.len() <= usize::MAX,
    ensures
        probed_areas(mappings).contains(i) <==> {
            &&& i < mappings.len()
            &&& mappings[i as int].end - mappings[i as int].start >= 128
            &&& "/dev/__properties__/"@.is_prefix_of(mappings[i as int].path)
            &&& text::occurs(mappings[i as int].path, "build_prop"@) || text::occurs(
                mappings[i as int].path,
                "build_odm_prop"@,
            ) || text::occurs(mappings[i as int].path, "build_vendor_prop"@) || text::occurs(
                mappings[i as int].path,
                "default_prop"@,
            )
        },
        forall|a: int, b: int|
            0 <= a < b < probed_areas(mappings).len() ==> (#[trigger] probed_areas(mappings)[a])
                < (#[trigger] probed_areas(mappings)[b]),
{
    let wanted = |m: Mapping| "/dev/__properties__/"@.is_prefix_of(m.path) && m.searchable();
    lemma_among_all_such(mappings, wanted, i);
    lemma_all_such_ascends(mappings, wanted);
}

/// The first mapping that an address lies in, the first mapping of a path and the first mapping
/// whose path ends in `/properties_serial` are found, each exactly where there is one. The end of
/// a mapping does not lie in it.
pub proof fn law_first_mapping_is_found(
    mappings: Seq<Mapping>,
    addr: usize,
    path: Seq<char>,
    i: usize,
)
    requires
        mappings.len() <= usize::MAX,
    ensures
        holder(mappings, addr) == Some(i) <==> {
            &&& i < mappings.len()
            &&& mappings[i as int].start <= addr
            &&& addr < mappings[i as int].end
            &&& forall|j: int|
                0 <= j < i ==> addr < (#[trigger] mappings[j]).start || mappings[j].end <= addr
        },
        mapped_at(mappings, path) == Some(i) <==> {
            &&& i < mappings.len()
            &&& mappings[i as int].path == path
            &&& forall|j: int| 0 <= j < i ==> (#[trigger] mappings[j]).path != path
        },
        serial_mapping(mappings) == Some(i) <==> {
            &&& i < mappings.len()
            &&& "/properties_serial"@.is_suffix_of(mappings[i as int].path)
            &&& forall|j: int|
                0 <= j < i ==> !"/properties_serial"@.is_suffix_of((#[trigger] mappings[j]).path)
        },
{
    let holding = |m: Mapping| m.holds(addr);
    let of_path = |m: Mapping| m.path == path;
    let serial = |m: Mapping| "/properties_serial"@.is_suffix_of(m.path);
    lemma_first_such(mappings, holding);
    lemma_first_such(mappings, of_path);
    lemma_first_such(mappings, serial);
}

/// An address in a range that is private already needs nothing. Any other needs the first mapping
/// that it lies in to be replaced, which cannot be done where there is none or where its path
/// holds a zero character.
pub proof fn law_private_plan(
    ranges: Seq<PropRange>,
    mappings: Seq<Mapping>,
    addr: usize,
    r: int,
    i: int,
)
    requires
        mappings.len() <= usize::MAX,
    ensures
        0 <= r < ranges.len() && ranges[r].start <= addr && addr < ranges[r].end ==> plan_for(
            ranges,
            mappings,
            addr,
        ) == PrivatePlan::Already,
        (forall|k: int|
            0 <= k < ranges.len() ==> addr < (#[trigger] ranges[k]).start || ranges[k].end <= addr)
            ==> {
            &&& 0 <= i < mappings.len() && mappings[i].start <= addr && addr < mappings[i].end && (
            forall|j: int|
                0 <= j < i ==> addr < (#[trigger] mappings[j]).start || mappings[j].end <= addr)
                ==> plan_for(ranges, mappings, addr) == if mappings[i].path.contains('\0') {
                PrivatePlan::InvalidPath
            } else {
                PrivatePlan::Remap(i as usize)
            }
            &&& (forall|j: int|
                0 <= j < mappings.len() ==> addr < (#[trigger] mappings[j]).start
                    || mappings[j].end <= addr) ==> plan_for(ranges, mappings, addr)
                == PrivatePlan::NotMapped
        },
{
    law_first_mapping_is_found(mappings, addr, Seq::empty(), i as usize);
    let holding = |m: Mapping| m.holds(addr);
    lemma_first_such(mappings, holding);
}


/// An area is one of build properties where one of these four names occurs in its path.
pub proof fn law_build_areas(path: Seq<char>)
    ensures
        build_path(path) <==> text::occurs(path, "build_prop"@) || text::occurs(
            path,
            "build_odm_prop"@,
        ) || text::occurs(path, "build_vendor_prop"@) || text::occurs(path, "default_prop"@),
{
}

} // verus!
