//! Adding a property that is not there, in private copies of the property areas.
//!
//! A property has to be added where the system will look for it. Where the system tells which area
//! that is, only that one is used. Otherwise the areas are used in which siblings of the property
//! are found.

use vstd::prelude::*;

use crate::areas::{areas_to_probe, mapped_at, mapping_of_path, probed_areas};
use crate::maps::{mapping_views, Mapping, PropAreaMapping};
use crate::patch::{AreaEvent, AreaStep};
use crate::text;

verus! {

/// The length from which on a value is kept outside of its property.
pub const PROP_VALUE_MAX: usize = 92;

/// Whether a prefix is the given one or lies below it.
pub open spec fn below(prefix: Seq<char>, top: Seq<char>) -> bool {
    prefix == top || (top + "."@).is_prefix_of(prefix)
}

/// The properties that are looked for in place of one with the given prefix.
pub open spec fn siblings_of(prefix: Seq<char>) -> Seq<Seq<char>> {
    if below(prefix, "ro.product"@) {
        seq!["ro.product.model"@, "ro.product.device"@, "ro.product.brand"@]
    } else if below(prefix, "ro.build"@) {
        seq!["ro.build.display.id"@, "ro.build.fingerprint"@]
    } else if below(prefix, "ro.vendor"@) {
        seq!["ro.vendor.build.fingerprint"@]
    } else if below(prefix, "ro.hardware"@) {
        seq!["ro.hardware"@]
    } else if below(prefix, "persist"@) {
        seq!["persist.sys.timezone"@]
    } else if below(prefix, "ro"@) {
        seq!["ro.build.id"@, "ro.product.model"@]
    } else {
        seq!["ro.product.model"@, "ro.build.id"@]
    }
}

/// Whether a prefix is the given one or lies below it.
fn is_below(prefix: &str, top: &str) -> (yes: bool)
    ensures
        yes == below(prefix@, top@),
{
    text::same(prefix, top) || text::starts_with(prefix, text::joined(top, ".").as_str())
}

/// The properties that are looked for in place of one with the given prefix.
pub fn sibling_probes(prefix: &str) -> (out: Vec<String>)
    ensures
        text::views(out@) == siblings_of(prefix@),
{
    let mut out: Vec<String> = Vec::new();
    if is_below(prefix, "ro.product") {
        out.push("ro.product.model".to_string());
        out.push("ro.product.device".to_string());
        out.push("ro.product.brand".to_string());
    } else if is_below(prefix, "ro.build") {
        out.push("ro.build.display.id".to_string());
        out.push("ro.build.fingerprint".to_string());
    } else if is_below(prefix, "ro.vendor") {
        out.push("ro.vendor.build.fingerprint".to_string());
    } else if is_below(prefix, "ro.hardware") {
        out.push("ro.hardware".to_string());
    } else if is_below(prefix, "persist") {
        out.push("persist.sys.timezone".to_string());
    } else if is_below(prefix, "ro") {
        out.push("ro.build.id".to_string());
        out.push("ro.product.model".to_string());
    } else {
        out.push("ro.product.model".to_string());
        out.push("ro.build.id".to_string());
    }
    assert(text::views(out@) =~= siblings_of(prefix@));
    out
}

/// How far the search for siblings has come.
#[derive(Debug, Clone, Copy, PartialEq, Eq, Structural)]
pub enum ProbeStage {
    Private { at: usize },
    Open { at: usize },
    Find { at: usize, sibling: usize },
    Over,
}

/// The search for siblings, in the mathematical model.
#[verifier::ext_equal]
pub ghost struct Probe {
    pub stage: ProbeStage,
    /// The areas to search.
    pub areas: Seq<usize>,
    /// How many siblings are looked for.
    pub siblings: usize,
    /// The areas in which one was found.
    pub found: Seq<usize>,
}

impl Probe {
    /// The search before anything was done.
    pub open spec fn start(mappings: Seq<Mapping>, siblings: usize) -> Probe {
        Probe {
            stage: ProbeStage::Over,
            areas: probed_areas(mappings),
            siblings,
            found: Seq::empty(),
        }.area_at(0)
    }

    /// The same search at another stage.
    pub open spec fn at(self, stage: ProbeStage) -> Probe {
        Probe { stage, ..self }
    }

    /// The search before the area with the given number, or over behind the last one.
    pub open spec fn area_at(self, at: int) -> Probe {
        self.at(
            if at < self.areas.len() {
                ProbeStage::Private { at: at as usize }
            } else {
                ProbeStage::Over
            },
        )
    }

    /// The search before the given sibling in an area, or before the next area.
    pub open spec fn sibling_at(self, at: int, sibling: int) -> Probe {
        if sibling < self.siblings {
            self.at(ProbeStage::Find { at: at as usize, sibling: sibling as usize })
        } else {
            self.area_at(at + 1)
        }
    }

    /// The next step.
    pub open spec fn step(self, mappings: Seq<Mapping>) -> AreaStep {
        match self.stage {
            ProbeStage::Private { at } => AreaStep::MakePrivate(
                mappings[self.areas[at as int] as int].start,
            ),
            ProbeStage::Open { at } => AreaStep::Open(self.areas[at as int]),
            ProbeStage::Find { sibling, .. } => AreaStep::FindSibling(sibling),
            ProbeStage::Over => AreaStep::Finished,
        }
    }

    /// The search once the next step has come out in the given way. One sibling is enough for an
    /// area; an area that fails is passed over.
    pub open spec fn after(self, event: AreaEvent) -> Probe {
        match self.stage {
            ProbeStage::Private { at } => if event == AreaEvent::Done {
                self.at(ProbeStage::Open { at })
            } else {
                self.area_at(at + 1)
            },
            ProbeStage::Open { at } => if event == AreaEvent::Done {
                self.sibling_at(at as int, 0)
            } else {
                self.area_at(at + 1)
            },
            ProbeStage::Find { at, sibling } => if event is Offset {
                Probe { found: self.found.push(self.areas[at as int]), ..self }.area_at(at + 1)
            } else {
                self.sibling_at(at as int, sibling + 1)
            },
            ProbeStage::Over => self,
        }
    }

    /// The area that is being searched.
    pub open spec fn area_number(self) -> Option<int> {
        match self.stage {
            ProbeStage::Private { at } => Some(at as int),
            ProbeStage::Open { at } => Some(at as int),
            ProbeStage::Find { at, .. } => Some(at as int),
            ProbeStage::Over => None,
        }
    }

    /// What holds of every search that was started and reported to.
    pub open spec fn wf(self, mappings: Seq<Mapping>) -> bool {
        &&& self.areas.len() <= usize::MAX
        &&& self.area_number() matches Some(at) ==> at < self.areas.len()
        &&& self.stage matches ProbeStage::Find { sibling, .. } ==> sibling < self.siblings
        &&& forall|k: int| 0 <= k < self.areas.len() ==> (#[trigger] self.areas[k]) < mappings.len()
        &&& forall|k: int| 0 <= k < self.found.len() ==> (#[trigger] self.found[k]) < mappings.len()
    }
}

impl Probe {
    /// Whether no more areas were kept than searched.
    pub open spec fn in_step(self) -> bool {
        self.found.len() <= match self.area_number() {
            Some(at) => at,
            None => self.areas.len() as int,
        }
    }

    /// How many steps are left at most in the area that is being searched.
    pub open spec fn left(self) -> int {
        match self.stage {
            ProbeStage::Private { .. } => self.siblings + 2,
            ProbeStage::Open { .. } => self.siblings + 1,
            ProbeStage::Find { sibling, .. } => self.siblings - sibling,
            ProbeStage::Over => 0,
        }
    }
}

/// Every report ends the search, or moves it to a later area, or brings it closer to the end of
/// the area.
pub proof fn law_probe_ends(probe: Probe, mappings: Seq<Mapping>, event: AreaEvent)
    requires
        probe.wf(mappings),
    ensures
        probe.after(event).wf(mappings),
        probe.stage != ProbeStage::Over ==> match probe.after(event).area_number() {
            None => true,
            Some(at) => {
                ||| at > probe.area_number()->0
                ||| at == probe.area_number()->0 && 0 <= probe.after(event).left() < probe.left()
            },
        },
{
}

/// No more areas are kept than searched.
pub proof fn lemma_probe_in_step(probe: Probe, mappings: Seq<Mapping>, event: AreaEvent)
    requires
        probe.wf(mappings),
        probe.in_step(),
    ensures
        probe.after(event).in_step(),
{
}

/// The search for siblings.
#[derive(Debug)]
pub struct AreaProbe {
    stage: ProbeStage,
    areas: Vec<usize>,
    siblings: usize,
    found: Vec<usize>,
}

impl View for AreaProbe {
    type V = Probe;

    closed spec fn view(&self) -> Probe {
        Probe {
            stage: self.stage,
            areas: self.areas@,
            siblings: self.siblings,
            found: self.found@,
        }
    }
}

impl AreaProbe {
    /// The search before anything was done.
    pub fn new(mappings: &Vec<PropAreaMapping>, siblings: usize) -> (out: Self)
        ensures
            out@ == Probe::start(mapping_views(mappings@), siblings),
            out@.wf(mapping_views(mappings@)),
    {
        let areas = areas_to_probe(mappings);
        let n: usize = areas.len();
        assert(mappings.len() <= usize::MAX);
        proof {
            crate::areas::lemma_all_such(
                mapping_views(mappings@),
                |m: Mapping| "/dev/__properties__/"@.is_prefix_of(m.path) && m.searchable(),
            );
        }
        let stage = if n > 0 {
            ProbeStage::Private { at: 0 }
        } else {
            ProbeStage::Over
        };
        AreaProbe { stage, areas, siblings, found: Vec::new() }
    }

    /// The next step.
    pub fn next_step(&self, mappings: &Vec<PropAreaMapping>) -> (out: AreaStep)
        requires
            self@.wf(mapping_views(mappings@)),
        ensures
            out == self@.step(mapping_views(mappings@)),
    {
        match self.stage {
            ProbeStage::Private { at } => {
                assert(self@.area_number() == Some(at as int));
                let area = self.areas[at];
                assert(area == self@.areas[at as int]);
                assert(mapping_views(mappings@)[area as int] == mappings@[area as int]@);
                AreaStep::MakePrivate(mappings[area].start)
            },
            ProbeStage::Open { at } => {
                assert(self@.area_number() == Some(at as int));
                AreaStep::Open(self.areas[at])
            },
            ProbeStage::Find { sibling, .. } => AreaStep::FindSibling(sibling),
            ProbeStage::Over => AreaStep::Finished,
        }
    }

    /// The stage before the area behind the given one, or behind the last one.
    fn area_behind(&self, at: usize) -> (out: ProbeStage)
        requires
            at < self@.areas.len(),
        ensures
            self@.at(out) == self@.area_at(at + 1),
    {
        let n: usize = self.areas.len();
        if at + 1 < n {
            ProbeStage::Private { at: at + 1 }
        } else {
            ProbeStage::Over
        }
    }

    /// Takes what came of the next step.
    pub fn report(&mut self, mappings: &Vec<PropAreaMapping>, event: AreaEvent)
        requires
            old(self)@.wf(mapping_views(mappings@)),
        ensures
            final(self)@ == old(self)@.after(event),
            final(self)@.wf(mapping_views(mappings@)),
    {
        let stage = match self.stage {
            ProbeStage::Private { at } => {
                assert(self@.area_number() == Some(at as int));
                if event == AreaEvent::Done {
                    ProbeStage::Open { at }
                } else {
                    self.area_behind(at)
                }
            },
            ProbeStage::Open { at } => {
                assert(self@.area_number() == Some(at as int));
                if event == AreaEvent::Done && 0 < self.siblings {
                    ProbeStage::Find { at, sibling: 0 }
                } else {
                    self.area_behind(at)
                }
            },
            ProbeStage::Find { at, sibling } => {
                assert(self@.area_number() == Some(at as int));
                if let AreaEvent::Offset(_) = event {
                    assert(self@.areas[at as int] < mapping_views(mappings@).len());
                    self.found.push(self.areas[at]);
                    self.area_behind(at)
                } else if sibling + 1 < self.siblings {
                    ProbeStage::Find { at, sibling: sibling + 1 }
                } else {
                    self.area_behind(at)
                }
            },
            ProbeStage::Over => ProbeStage::Over,
        };
        self.stage = stage;
    }

    /// Whether nothing is left to do.
    pub fn is_over(&self) -> (yes: bool)
        ensures
            yes == (self@.stage == ProbeStage::Over),
    {
        match self.stage {
            ProbeStage::Over => true,
            _ => false,
        }
    }

    /// The files of the areas in which a sibling was found.
    pub fn paths(&self, mappings: &Vec<PropAreaMapping>) -> (out: Vec<String>)
        requires
            self@.wf(mapping_views(mappings@)),
        ensures
            text::views(out@) == paths_of(mapping_views(mappings@), self@.found),
    {
        let ghost all = paths_of(mapping_views(mappings@), self@.found);
        let mut out: Vec<String> = Vec::new();
        let mut i: usize = 0;
        while i < self.found.len()
            invariant
                i <= self.found@.len(),
                self@.wf(mapping_views(mappings@)),
                all == paths_of(mapping_views(mappings@), self@.found),
                text::views(out@) == all.take(i as int),
            decreases self.found@.len() - i,
        {
            let area = self.found[i];
            assert(area == self@.found[i as int]);
            assert(mapping_views(mappings@)[area as int] == mappings@[area as int]@);
            let path = mappings[area].path.clone();
            let ghost before = out@;
            out.push(path);
            i = i + 1;
            assert(text::views(out@) =~= text::views(before).push(path@));
            assert(all.take(i as int) =~= all.take(i - 1).push(path@));
        }
        assert(all.take(i as int) =~= all);
        out
    }
}

/// The files of some mappings.
pub open spec fn paths_of(mappings: Seq<Mapping>, areas: Seq<usize>) -> Seq<Seq<char>> {
    areas.map_values(|area: usize| mappings[area as int].path)
}

/// The first mapping of each of some files, where it is mapped.
pub open spec fn areas_of(mappings: Seq<Mapping>, paths: Seq<Seq<char>>) -> Seq<usize>
    decreases paths.len(),
{
    if paths.len() == 0 {
        Seq::empty()
    } else {
        let before = areas_of(mappings, paths.drop_last());
        match mapped_at(mappings, paths.last()) {
            Some(area) => before.push(area),
            None => before,
        }
    }
}

/// Finds the first mapping of each of some files.
pub fn target_areas(mappings: &Vec<PropAreaMapping>, paths: &Vec<String>) -> (out: Vec<usize>)
    ensures
        out@ == areas_of(mapping_views(mappings@), text::views(paths@)),
        forall|k: int| 0 <= k < out@.len() ==> (#[trigger] out@[k]) < mappings@.len(),
{
    let ghost all = text::views(paths@);
    let mut out: Vec<usize> = Vec::new();
    let mut i: usize = 0;
    assert(out@ =~= areas_of(mapping_views(mappings@), all.take(0)));
    while i < paths.len()
        invariant
            i <= paths@.len(),
            all == text::views(paths@),
            out@ == areas_of(mapping_views(mappings@), all.take(i as int)),
            forall|k: int| 0 <= k < out@.len() ==> (#[trigger] out@[k]) < mappings@.len(),
        decreases paths@.len() - i,
    {
        assert(all.take(i + 1).drop_last() =~= all.take(i as int));
        assert(all.take(i + 1).last() == paths@[i as int]@);
        if let Some(area) = mapping_of_path(mappings, paths[i].as_str()) {
            out.push(area);
        }
        i = i + 1;
    }
    assert(all.take(i as int) =~= all);
    out
}

/// Whether the serial number of a new property fits its value: a value that is kept outside is a
/// long one, and the length of any other is the topmost byte.
pub open spec fn serial_fits(serial: u32, long_flag: u32, value_len: nat) -> bool {
    if serial & long_flag != 0 {
        value_len >= PROP_VALUE_MAX
    } else {
        serial >> 24u32 == value_len
    }
}

/// Whether the serial number of a new property fits the length of its value in bytes.
pub fn verify_insert(serial: u32, long_flag: u32, value_len: usize) -> (ok: bool)
    ensures
        ok == serial_fits(serial, long_flag, value_len as nat),
{
    if serial & long_flag != 0 {
        value_len >= PROP_VALUE_MAX
    } else {
        (serial >> 24u32) as usize == value_len
    }
}

/// The serial number of a value that is kept in its property carries the length in its topmost
/// byte. It fits that length and no other.
pub proof fn law_inline_serial(len: u32, low: u32, long_flag: u32, value_len: nat)
    requires
        len < 256,
        low < 0x100_0000,
        long_flag < 0x100_0000,
        low & long_flag == 0,
    ensures
        serial_fits((len << 24u32) | low, long_flag, value_len) <==> value_len == len,
{
    assert(((len << 24u32) | low) & long_flag == 0) by (bit_vector)
        requires
            len < 256,
            low < 0x100_0000,
            long_flag < 0x100_0000,
            low & long_flag == 0,
    ;
    assert(((len << 24u32) | low) >> 24u32 == len) by (bit_vector)
        requires
            len < 256,
            low < 0x100_0000,
    ;
}

/// How far the insertion of a property has come.
#[derive(Debug, Clone, Copy, PartialEq, Eq, Structural)]
pub enum InsertStage {
    Private { at: usize },
    Open { at: usize },
    Look { at: usize },
    Insert { at: usize },
    Check { at: usize },
    Serial { at: usize, offset: usize },
    Over,
}

/// The insertion of a property, in the mathematical model.
#[verifier::ext_equal]
pub ghost struct Insertion {
    pub stage: InsertStage,
    /// The areas to add the property to.
    pub areas: Seq<usize>,
    /// The bit of a serial number that marks a value that is kept outside.
    pub long_flag: u32,
    /// The length of the value in bytes.
    pub value_len: nat,
    /// Whether the property was added to one of them.
    pub inserted: bool,
}

impl Insertion {
    /// The insertion before anything was done.
    pub open spec fn start(areas: Seq<usize>, long_flag: u32, value_len: nat) -> Insertion {
        Insertion {
            stage: InsertStage::Over,
            areas,
            long_flag,
            value_len,
            inserted: false,
        }.area_at(0)
    }

    /// The same insertion at another stage.
    pub open spec fn at(self, stage: InsertStage) -> Insertion {
        Insertion { stage, ..self }
    }

    /// The insertion before the area with the given number, or over behind the last one.
    pub open spec fn area_at(self, at: int) -> Insertion {
        self.at(
            if at < self.areas.len() {
                InsertStage::Private { at: at as usize }
            } else {
                InsertStage::Over
            },
        )
    }

    /// The next step.
    pub open spec fn step(self, mappings: Seq<Mapping>) -> AreaStep {
        match self.stage {
            InsertStage::Private { at } => AreaStep::MakePrivate(
                mappings[self.areas[at as int] as int].start,
            ),
            InsertStage::Open { at } => AreaStep::Open(self.areas[at as int]),
            InsertStage::Look { .. } => AreaStep::Find,
            InsertStage::Insert { .. } => AreaStep::Insert,
            InsertStage::Check { .. } => AreaStep::Find,
            InsertStage::Serial { offset, .. } => AreaStep::ReadSerial(offset),
            InsertStage::Over => AreaStep::Finished,
        }
    }

    /// The insertion once the next step has come out in the given way. A property counts as added
    /// once it is found again with a serial number that fits. An area that fails, or that holds
    /// the property already, is passed over.
    pub open spec fn after(self, event: AreaEvent) -> Insertion {
        match self.stage {
            InsertStage::Private { at } => if event == AreaEvent::Done {
                self.at(InsertStage::Open { at })
            } else {
                self.area_at(at + 1)
            },
            InsertStage::Open { at } => if event == AreaEvent::Done {
                self.at(InsertStage::Look { at })
            } else {
                self.area_at(at + 1)
            },
            InsertStage::Look { at } => if event is Offset {
                self.area_at(at + 1)
            } else {
                self.at(InsertStage::Insert { at })
            },
            InsertStage::Insert { at } => if event == AreaEvent::Done {
                self.at(InsertStage::Check { at })
            } else {
                self.area_at(at + 1)
            },
            InsertStage::Check { at } => match event {
                AreaEvent::Offset(offset) => self.at(InsertStage::Serial { at, offset }),
                _ => self.area_at(at + 1),
            },
            InsertStage::Serial { at, .. } => match event {
                AreaEvent::Serial(serial) => Insertion {
                    inserted: self.inserted || serial_fits(serial, self.long_flag, self.value_len),
                    ..self
                }.area_at(at + 1),
                _ => self.area_at(at + 1),
            },
            InsertStage::Over => self,
        }
    }

    /// The area that is being worked on.
    pub open spec fn area_number(self) -> Option<int> {
        match self.stage {
            InsertStage::Private { at } => Some(at as int),
            InsertStage::Open { at } => Some(at as int),
            InsertStage::Look { at } => Some(at as int),
            InsertStage::Insert { at } => Some(at as int),
            InsertStage::Check { at } => Some(at as int),
            InsertStage::Serial { at, .. } => Some(at as int),
            InsertStage::Over => None,
        }
    }

    /// What holds of every insertion that was started and reported to.
    pub open spec fn wf(self, mappings: Seq<Mapping>) -> bool {
        &&& self.areas.len() <= usize::MAX
        &&& self.area_number() matches Some(at) ==> at < self.areas.len()
        &&& forall|k: int| 0 <= k < self.areas.len() ==> (#[trigger] self.areas[k]) < mappings.len()
    }
}

/// The insertion of a property.
#[derive(Debug)]
pub struct TrieInsert {
    stage: InsertStage,
    areas: Vec<usize>,
    long_flag: u32,
    value_len: usize,
    inserted: bool,
}

impl View for TrieInsert {
    type V = Insertion;

    closed spec fn view(&self) -> Insertion {
        Insertion {
            stage: self.stage,
            areas: self.areas@,
            long_flag: self.long_flag,
            value_len: self.value_len as nat,
            inserted: self.inserted,
        }
    }
}

impl TrieInsert {
    /// The insertion before anything was done.
    pub fn new(areas: Vec<usize>, long_flag: u32, value_len: usize) -> (out: Self)
        ensures
            out@ == Insertion::start(areas@, long_flag, value_len as nat),
    {
        let stage = if areas.len() > 0 {
            InsertStage::Private { at: 0 }
        } else {
            InsertStage::Over
        };
        TrieInsert { stage, areas, long_flag, value_len, inserted: false }
    }

    /// The next step.
    pub fn next_step(&self, mappings: &Vec<PropAreaMapping>) -> (out: AreaStep)
        requires
            self@.wf(mapping_views(mappings@)),
        ensures
            out == self@.step(mapping_views(mappings@)),
    {
        match self.stage {
            InsertStage::Private { at } => {
                assert(self@.area_number() == Some(at as int));
                let area = self.areas[at];
                assert(area == self@.areas[at as int]);
                assert(mapping_views(mappings@)[area as int] == mappings@[area as int]@);
                AreaStep::MakePrivate(mappings[area].start)
            },
            InsertStage::Open { at } => {
                assert(self@.area_number() == Some(at as int));
                AreaStep::Open(self.areas[at])
            },
            InsertStage::Look { .. } => AreaStep::Find,
            InsertStage::Insert { .. } => AreaStep::Insert,
            InsertStage::Check { .. } => AreaStep::Find,
            InsertStage::Serial { offset, .. } => AreaStep::ReadSerial(offset),
            InsertStage::Over => AreaStep::Finished,
        }
    }

    /// The stage before the area behind the given one, or behind the last one.
    fn area_behind(&self, at: usize) -> (out: InsertStage)
        requires
            at < self@.areas.len(),
        ensures
            self@.at(out) == self@.area_at(at + 1),
    {
        let n: usize = self.areas.len();
        if at + 1 < n {
            InsertStage::Private { at: at + 1 }
        } else {
            InsertStage::Over
        }
    }

    /// Takes what came of the next step.
    pub fn report(&mut self, mappings: &Vec<PropAreaMapping>, event: AreaEvent)
        requires
            old(self)@.wf(mapping_views(mappings@)),
        ensures
            final(self)@ == old(self)@.after(event),
            final(self)@.wf(mapping_views(mappings@)),
    {
        assert(self@.areas.len() <= usize::MAX);
        let stage = match self.stage {
            InsertStage::Private { at } => {
                assert(self@.area_number() == Some(at as int));
                if event == AreaEvent::Done {
                    InsertStage::Open { at }
                } else {
                    self.area_behind(at)
                }
            },
            InsertStage::Open { at } => {
                assert(self@.area_number() == Some(at as int));
                if event == AreaEvent::Done {
                    InsertStage::Look { at }
                } else {
                    self.area_behind(at)
                }
            },
            InsertStage::Look { at } => {
                assert(self@.area_number() == Some(at as int));
                if let AreaEvent::Offset(_) = event {
                    self.area_behind(at)
                } else {
                    InsertStage::Insert { at }
                }
            },
            InsertStage::Insert { at } => {
                assert(self@.area_number() == Some(at as int));
                if event == AreaEvent::Done {
                    InsertStage::Check { at }
                } else {
                    self.area_behind(at)
                }
            },
            InsertStage::Check { at } => {
                assert(self@.area_number() == Some(at as int));
                if let AreaEvent::Offset(offset) = event {
                    InsertStage::Serial { at, offset }
                } else {
                    self.area_behind(at)
                }
            },
            InsertStage::Serial { at, .. } => {
                assert(self@.area_number() == Some(at as int));
                if let AreaEvent::Serial(serial) = event {
                    if verify_insert(serial, self.long_flag, self.value_len) {
                        self.inserted = true;
                    }
                }
                self.area_behind(at)
            },
            InsertStage::Over => InsertStage::Over,
        };
        self.stage = stage;
    }

    /// Whether the property was added, once nothing is left to do.
    pub fn cow_patch_new(&self) -> (out: Option<bool>)
        ensures
            out == if self@.stage == InsertStage::Over {
                Some(self@.inserted)
            } else {
                None
            },
    {
        match self.stage {
            InsertStage::Over => Some(self.inserted),
            _ => None,
        }
    }
}

impl Insertion {
    /// How many steps are left at most in the area that is being worked on.
    pub open spec fn left(self) -> int {
        match self.stage {
            InsertStage::Private { .. } => 6,
            InsertStage::Open { .. } => 5,
            InsertStage::Look { .. } => 4,
            InsertStage::Insert { .. } => 3,
            InsertStage::Check { .. } => 2,
            InsertStage::Serial { .. } => 1,
            InsertStage::Over => 0,
        }
    }
}

/// Every report ends the insertion, or moves it to a later area, or brings it closer to the end of
/// the area.
pub proof fn law_insertion_ends(insertion: Insertion, mappings: Seq<Mapping>, event: AreaEvent)
    requires
        insertion.wf(mappings),
    ensures
        insertion.after(event).wf(mappings),
        insertion.stage != InsertStage::Over ==> match insertion.after(event).area_number() {
            None => true,
            Some(at) => {
                ||| at > insertion.area_number()->0
                ||| at == insertion.area_number()->0 && 0 <= insertion.after(event).left()
                    < insertion.left()
            },
        },
{
}

/// A property counts as added only once it was found again with a serial number that fits its
/// value, and then for good.
pub proof fn law_added_when_it_fits(insertion: Insertion, event: AreaEvent)
    ensures
        insertion.after(event).inserted <==> {
            ||| insertion.inserted
            ||| insertion.stage is Serial && (event matches AreaEvent::Serial(serial)
                && serial_fits(serial, insertion.long_flag, insertion.value_len))
        },
{
}


/// The siblings of a property by the beginning of its prefix: `ro.product`, `ro.build`,
/// `ro.vendor`, `ro.hardware` and `persist` each have their own, for themselves and for all that
/// lies below them. Other prefixes below `ro` share two, and all others the same two in the other
/// order.
pub proof fn law_siblings(rest: Seq<char>, prefix: Seq<char>)
    ensures
        siblings_of("ro.product"@) == seq!["ro.product.model"@, "ro.product.device"@, "ro.product.brand"@],
        siblings_of("ro.product."@ + rest) == seq!["ro.product.model"@, "ro.product.device"@, "ro.product.brand"@],
        siblings_of("ro.build"@) == seq!["ro.build.display.id"@, "ro.build.fingerprint"@],
        siblings_of("ro.build."@ + rest) == seq!["ro.build.display.id"@, "ro.build.fingerprint"@],
        siblings_of("ro.vendor"@) == seq!["ro.vendor.build.fingerprint"@],
        siblings_of("ro.vendor."@ + rest) == seq!["ro.vendor.build.fingerprint"@],
        siblings_of("ro.hardware"@) == seq!["ro.hardware"@],
        siblings_of("ro.hardware."@ + rest) == seq!["ro.hardware"@],
        siblings_of("persist"@) == seq!["persist.sys.timezone"@],
        siblings_of("persist."@ + rest) == seq!["persist.sys.timezone"@],
        siblings_of("ro"@) == seq!["ro.build.id"@, "ro.product.model"@],
        "ro."@.is_prefix_of(prefix) && prefix != "ro.product"@ && !"ro.product."@.is_prefix_of(
            prefix,
        ) && prefix != "ro.build"@ && !"ro.build."@.is_prefix_of(prefix) && prefix != "ro.vendor"@
            && !"ro.vendor."@.is_prefix_of(prefix) && prefix != "ro.hardware"@
            && !"ro.hardware."@.is_prefix_of(prefix) ==> siblings_of(prefix) == seq![
            "ro.build.id"@,
            "ro.product.model"@,
        ],
        prefix != "ro"@ && !"ro."@.is_prefix_of(prefix) && prefix != "persist"@
            && !"persist."@.is_prefix_of(prefix) ==> siblings_of(prefix) == seq![
            "ro.product.model"@,
            "ro.build.id"@,
        ],
{
    lemma_tops();
    lemma_below("ro.product"@, "ro.product."@, rest);
    lemma_below("ro.product"@, "ro.product."@, prefix);
    lemma_below("ro.build"@, "ro.build."@, rest);
    lemma_below("ro.build"@, "ro.build."@, prefix);
    lemma_below("ro.vendor"@, "ro.vendor."@, rest);
    lemma_below("ro.vendor"@, "ro.vendor."@, prefix);
    lemma_below("ro.hardware"@, "ro.hardware."@, rest);
    lemma_below("ro.hardware"@, "ro.hardware."@, prefix);
    lemma_below("persist"@, "persist."@, rest);
    lemma_below("persist"@, "persist."@, prefix);
    lemma_below("ro"@, "ro."@, rest);
    lemma_below("ro"@, "ro."@, prefix);
    lemma_apart(rest);
    lemma_in_ro(prefix);
}

/// A prefix lies below another where a dot follows that.
proof fn lemma_below(top: Seq<char>, dotted: Seq<char>, rest: Seq<char>)
    requires
        dotted == top + "."@,
    ensures
        below(top, top),
        below(dotted + rest, top),
        below(rest, top) <==> rest == top || dotted.is_prefix_of(rest),
{
    assert((dotted + rest).subrange(0, dotted.len() as int) =~= dotted);
}

/// The prefixes with their dots.
proof fn lemma_tops()
    ensures
        "ro.product."@ == "ro.product"@ + "."@,
        "ro.build."@ == "ro.build"@ + "."@,
        "ro.vendor."@ == "ro.vendor"@ + "."@,
        "ro.hardware."@ == "ro.hardware"@ + "."@,
        "persist."@ == "persist"@ + "."@,
        "ro."@ == "ro"@ + "."@,
{
    reveal_strlit(".");
    reveal_strlit("ro.product");
    reveal_strlit("ro.product.");
    assert("ro.product."@ =~= "ro.product"@ + "."@);
    reveal_strlit("ro.build");
    reveal_strlit("ro.build.");
    assert("ro.build."@ =~= "ro.build"@ + "."@);
    reveal_strlit("ro.vendor");
    reveal_strlit("ro.vendor.");
    assert("ro.vendor."@ =~= "ro.vendor"@ + "."@);
    reveal_strlit("ro.hardware");
    reveal_strlit("ro.hardware.");
    assert("ro.hardware."@ =~= "ro.hardware"@ + "."@);
    reveal_strlit("persist");
    reveal_strlit("persist.");
    assert("persist."@ =~= "persist"@ + "."@);
    reveal_strlit("ro");
    reveal_strlit("ro.");
    assert("ro."@ =~= "ro"@ + "."@);
}

/// No prefix lies below two of the five, and `ro` below none of them.
proof fn lemma_apart(rest: Seq<char>)
    ensures
        !below("ro.build"@, "ro.product"@) && !below("ro.build."@ + rest, "ro.product"@),
        !below("ro.vendor"@, "ro.product"@) && !below("ro.vendor."@ + rest, "ro.product"@),
        !below("ro.vendor"@, "ro.build"@) && !below("ro.vendor."@ + rest, "ro.build"@),
        !below("ro.hardware"@, "ro.product"@) && !below("ro.hardware."@ + rest, "ro.product"@),
        !below("ro.hardware"@, "ro.build"@) && !below("ro.hardware."@ + rest, "ro.build"@),
        !below("ro.hardware"@, "ro.vendor"@) && !below("ro.hardware."@ + rest, "ro.vendor"@),
        !below("persist"@, "ro.product"@) && !below("persist."@ + rest, "ro.product"@),
        !below("persist"@, "ro.build"@) && !below("persist."@ + rest, "ro.build"@),
        !below("persist"@, "ro.vendor"@) && !below("persist."@ + rest, "ro.vendor"@),
        !below("persist"@, "ro.hardware"@) && !below("persist."@ + rest, "ro.hardware"@),
        !below("ro"@, "ro.product"@),
        !below("ro"@, "ro.build"@),
        !below("ro"@, "ro.vendor"@),
        !below("ro"@, "ro.hardware"@),
        !below("ro"@, "persist"@),
{
    lemma_tops();
    reveal_strlit("ro.product");
    reveal_strlit("ro.product.");
    reveal_strlit("ro.build");
    reveal_strlit("ro.build.");
    reveal_strlit("ro.vendor");
    reveal_strlit("ro.vendor.");
    reveal_strlit("ro.hardware");
    reveal_strlit("ro.hardware.");
    reveal_strlit("persist");
    reveal_strlit("persist.");
    reveal_strlit("ro");
    reveal_strlit("ro.");
    lemma_not_below("ro.build"@, "ro.product"@, 3);
    lemma_not_below("ro.build."@ + rest, "ro.product"@, 3);
    lemma_not_below("ro.vendor"@, "ro.product"@, 3);
    lemma_not_below("ro.vendor."@ + rest, "ro.product"@, 3);
    lemma_not_below("ro.vendor"@, "ro.build"@, 3);
    lemma_not_below("ro.vendor."@ + rest, "ro.build"@, 3);
    lemma_not_below("ro.hardware"@, "ro.product"@, 3);
    lemma_not_below("ro.hardware."@ + rest, "ro.product"@, 3);
    lemma_not_below("ro.hardware"@, "ro.build"@, 3);
    lemma_not_below("ro.hardware."@ + rest, "ro.build"@, 3);
    lemma_not_below("ro.hardware"@, "ro.vendor"@, 3);
    lemma_not_below("ro.hardware."@ + rest, "ro.vendor"@, 3);
    lemma_not_below("persist"@, "ro.product"@, 0);
    lemma_not_below("persist."@ + rest, "ro.product"@, 0);
    lemma_not_below("persist"@, "ro.build"@, 0);
    lemma_not_below("persist."@ + rest, "ro.build"@, 0);
    lemma_not_below("persist"@, "ro.vendor"@, 0);
    lemma_not_below("persist."@ + rest, "ro.vendor"@, 0);
    lemma_not_below("persist"@, "ro.hardware"@, 0);
    lemma_not_below("persist."@ + rest, "ro.hardware"@, 0);
    assert("ro"@.len() == 2 && "ro.product"@.len() == 10);
    assert("ro"@.len() == 2 && "ro.build"@.len() == 8);
    assert("ro"@.len() == 2 && "ro.vendor"@.len() == 9);
    assert("ro"@.len() == 2 && "ro.hardware"@.len() == 11);
    assert("ro"@.len() == 2 && "persist"@.len() == 7);
}

/// A prefix that differs from another before the end of that does not lie below it.
proof fn lemma_not_below(prefix: Seq<char>, top: Seq<char>, k: int)
    requires
        0 <= k < top.len(),
        k < prefix.len(),
        prefix[k] != top[k],
    ensures
        !below(prefix, top),
{
    let dotted = top + "."@;
    if dotted.is_prefix_of(prefix) {
        assert(prefix.subrange(0, dotted.len() as int)[k] == dotted[k]);
    }
}

/// What lies below one of the four beginnings in `ro` lies below `ro`, and nothing below `persist`
/// does.
proof fn lemma_in_ro(prefix: Seq<char>)
    ensures
        "ro."@.is_prefix_of(prefix) ==> !below(prefix, "persist"@),
        below(prefix, "ro.product"@) || below(prefix, "ro.build"@) || below(prefix, "ro.vendor"@)
            || below(prefix, "ro.hardware"@) ==> "ro."@.is_prefix_of(prefix),
{
    lemma_tops();
    reveal_strlit("ro.");
    reveal_strlit("persist");
    reveal_strlit("ro.product");
    reveal_strlit("ro.build");
    reveal_strlit("ro.vendor");
    reveal_strlit("ro.hardware");
    if "ro."@.is_prefix_of(prefix) {
        assert(prefix.subrange(0, 3)[0] == 'r');
        lemma_not_below(prefix, "persist"@, 0);
    }
    lemma_starts_alike(prefix, "ro.product"@);
    lemma_starts_alike(prefix, "ro.build"@);
    lemma_starts_alike(prefix, "ro.vendor"@);
    lemma_starts_alike(prefix, "ro.hardware"@);
}

proof fn lemma_starts_alike(prefix: Seq<char>, top: Seq<char>)
    requires
        top.len() >= 3,
        top[0] == 'r' && top[1] == 'o' && top[2] == '.',
    ensures
        below(prefix, top) ==> "ro."@.is_prefix_of(prefix),
{
    reveal_strlit("ro.");
    if below(prefix, top) {
        let dotted = top + "."@;
        if prefix != top {
            let head = prefix.subrange(0, dotted.len() as int);
            assert(head[0] == dotted[0] && head[1] == dotted[1] && head[2] == dotted[2]);
        }
        assert(prefix.subrange(0, 3) =~= "ro."@);
    }
}

/// The serial number of a value that is kept outside fits every value of 92 bytes or more, and no
/// shorter one. Any other fits the length in its topmost byte.
pub proof fn law_serial_fits(serial: u32, long_flag: u32, value_len: nat)
    ensures
        serial & long_flag != 0 ==> (serial_fits(serial, long_flag, value_len) <==> value_len >= 92),
        serial & long_flag == 0 ==> (serial_fits(serial, long_flag, value_len) <==> value_len
            == serial / 0x100_0000),
{
    assert(serial >> 24u32 == serial / 0x100_0000) by (bit_vector);
}

/// The areas of some files are the first mappings of those that are mapped, in the order of the
/// files. The files of some areas are those of their mappings.
pub proof fn law_areas_of_files(
    mappings: Seq<Mapping>,
    first: Seq<Seq<char>>,
    second: Seq<Seq<char>>,
    path: Seq<char>,
    areas: Seq<usize>,
    k: int,
)
    ensures
        areas_of(mappings, first + second) == areas_of(mappings, first) + areas_of(mappings, second),
        areas_of(mappings, seq![path]) == match mapped_at(mappings, path) {
            Some(area) => seq![area],
            None => Seq::empty(),
        },
        paths_of(mappings, areas).len() == areas.len(),
        0 <= k < areas.len() ==> paths_of(mappings, areas)[k] == mappings[areas[k] as int].path,
    decreases second.len(),
{
    reveal_with_fuel(areas_of, 2);
    assert(seq![path].drop_last() =~= Seq::<Seq<char>>::empty());
    assert(areas_of(mappings, seq![path]) =~= match mapped_at(mappings, path) {
        Some(area) => seq![area],
        None => Seq::empty(),
    });
    if second.len() == 0 {
        assert(first + second =~= first);
    } else {
        law_areas_of_files(mappings, first, second.drop_last(), path, areas, k);
        assert((first + second).drop_last() =~= first + second.drop_last());
        assert((first + second).last() == second.last());
    }
    assert(areas_of(mappings, first + second) =~= areas_of(mappings, first) + areas_of(
        mappings,
        second,
    ));
}

} // verus!
