//! Changing a property that is there, in private copies of the property areas.
//!
//! The property is changed in the area in which the system finds it, and then in every other area
//! of build properties that holds it as well, because the system does not always read a property
//! from the area in which it finds it.

use vstd::prelude::*;

use crate::areas::{cross_areas, holder, mapping_holding, other_areas};
use crate::maps::{mapping_views, Mapping, PropAreaMapping};
use crate::text;

verus! {

/// What to do next with a property area.
#[derive(Debug, Clone, Copy, PartialEq, Eq, Structural)]
pub enum AreaStep {
    /// Have the system find the property.
    Lookup,
    /// Make the area at this address a private copy.
    MakePrivate(usize),
    /// Open the area of this mapping.
    Open(usize),
    /// Find the property in the open area.
    Find,
    /// Find the sibling with this number in the open area.
    FindSibling(usize),
    /// Give the property at this offset of the open area its new value.
    Update(usize),
    /// Add the property to the open area.
    Insert,
    /// Read the serial number at this offset of the open area.
    ReadSerial(usize),
    /// Nothing is left to do.
    Finished,
}

/// What came of a step.
#[derive(Debug, Clone, Copy, PartialEq, Eq, Structural)]
pub enum AreaEvent {
    /// It was carried out.
    Done,
    /// It failed.
    Failed,
    /// The system found the property at this address.
    Address(usize),
    /// The property was found at this offset.
    Offset(usize),
    /// There is no such property.
    Absent,
    /// The serial number that was read.
    Serial(u32),
}

/// What became of a property that was to be changed.
#[derive(Debug, Clone, Copy, PartialEq, Eq, Structural)]
pub enum PatchResult {
    /// It was changed where the system finds it.
    Patched,
    /// It is not there, or not where it can be changed.
    NotThere,
    /// Its name holds a zero character.
    InvalidName,
    /// No mapping holds the address at which the system finds it.
    NoMapping,
    /// The area could not be opened or searched.
    AreaFailed,
    /// The area of the serial number is not available.
    SerialUnavailable,
    /// The new value could not be written.
    UpdateFailed,
}

/// How far the change of a property has come.
#[derive(Debug, Clone, Copy, PartialEq, Eq, Structural)]
pub enum PatchStage {
    Lookup,
    Private { addr: usize },
    Open { addr: usize, area: usize },
    Find { addr: usize },
    Update { addr: usize, offset: usize },
    CrossPrivate { at: usize },
    CrossOpen { at: usize },
    CrossFind { at: usize },
    CrossUpdate { at: usize, offset: usize },
    Over(PatchResult),
}

/// The change of a property, in the mathematical model.
#[verifier::ext_equal]
pub ghost struct Patch {
    pub stage: PatchStage,
    /// Whether the area of the serial number is available.
    pub serial: bool,
    /// The other areas to look into, once they are known.
    pub cross: Seq<usize>,
}

impl Patch {
    /// The change before anything was done.
    pub open spec fn start(key: Seq<char>, serial: bool) -> Patch {
        Patch {
            stage: if key.contains('\0') {
                PatchStage::Over(PatchResult::InvalidName)
            } else {
                PatchStage::Lookup
            },
            serial,
            cross: Seq::empty(),
        }
    }

    /// The next step.
    pub open spec fn step(self, mappings: Seq<Mapping>) -> AreaStep {
        match self.stage {
            PatchStage::Lookup => AreaStep::Lookup,
            PatchStage::Private { addr } => AreaStep::MakePrivate(addr),
            PatchStage::Open { area, .. } => AreaStep::Open(area),
            PatchStage::Find { .. } => AreaStep::Find,
            PatchStage::Update { offset, .. } => AreaStep::Update(offset),
            PatchStage::CrossPrivate { at } => AreaStep::MakePrivate(
                mappings[self.cross[at as int] as int].start,
            ),
            PatchStage::CrossOpen { at } => AreaStep::Open(self.cross[at as int]),
            PatchStage::CrossFind { .. } => AreaStep::Find,
            PatchStage::CrossUpdate { offset, .. } => AreaStep::Update(offset),
            PatchStage::Over(_) => AreaStep::Finished,
        }
    }

    /// The same change at another stage.
    pub open spec fn at(self, stage: PatchStage) -> Patch {
        Patch { stage, ..self }
    }

    /// The change that is over.
    pub open spec fn over(self, result: PatchResult) -> Patch {
        self.at(PatchStage::Over(result))
    }

    /// The change before the other area with the given number, or over behind the last one.
    pub open spec fn cross_at(self, at: int) -> Patch {
        if at < self.cross.len() {
            self.at(PatchStage::CrossPrivate { at: at as usize })
        } else {
            self.over(PatchResult::Patched)
        }
    }

    /// The change once the next step has come out in the given way. In the area in which the
    /// system finds the property, each failure ends the change. In the other areas, a failure
    /// only ends the work on that area.
    pub open spec fn after(self, mappings: Seq<Mapping>, event: AreaEvent) -> Patch {
        match self.stage {
            PatchStage::Lookup => match event {
                AreaEvent::Address(addr) => self.at(PatchStage::Private { addr }),
                _ => self.over(PatchResult::NotThere),
            },
            PatchStage::Private { addr } => if event != AreaEvent::Done {
                self.over(PatchResult::NotThere)
            } else {
                match holder(mappings, addr) {
                    Some(area) => self.at(PatchStage::Open { addr, area }),
                    None => self.over(PatchResult::NoMapping),
                }
            },
            PatchStage::Open { addr, .. } => if event == AreaEvent::Done {
                self.at(PatchStage::Find { addr })
            } else {
                self.over(PatchResult::AreaFailed)
            },
            PatchStage::Find { addr } => match event {
                AreaEvent::Offset(offset) => if self.serial {
                    self.at(PatchStage::Update { addr, offset })
                } else {
                    self.over(PatchResult::SerialUnavailable)
                },
                AreaEvent::Absent => self.over(PatchResult::NotThere),
                _ => self.over(PatchResult::AreaFailed),
            },
            PatchStage::Update { addr, .. } => if event == AreaEvent::Done {
                Patch { cross: cross_areas(mappings, addr), ..self }.cross_at(0)
            } else {
                self.over(PatchResult::UpdateFailed)
            },
            PatchStage::CrossPrivate { at } => if event == AreaEvent::Done {
                self.at(PatchStage::CrossOpen { at })
            } else {
                self.cross_at(at + 1)
            },
            PatchStage::CrossOpen { at } => if event == AreaEvent::Done {
                self.at(PatchStage::CrossFind { at })
            } else {
                self.cross_at(at + 1)
            },
            PatchStage::CrossFind { at } => match event {
                AreaEvent::Offset(offset) => self.at(PatchStage::CrossUpdate { at, offset }),
                _ => self.cross_at(at + 1),
            },
            PatchStage::CrossUpdate { at, .. } => self.cross_at(at + 1),
            PatchStage::Over(_) => self,
        }
    }

    /// The other area that is being worked on.
    pub open spec fn cross_number(self) -> Option<int> {
        match self.stage {
            PatchStage::CrossPrivate { at } => Some(at as int),
            PatchStage::CrossOpen { at } => Some(at as int),
            PatchStage::CrossFind { at } => Some(at as int),
            PatchStage::CrossUpdate { at, .. } => Some(at as int),
            _ => None,
        }
    }

    /// What holds of every change that was started and reported to: the areas that it names are
    /// there.
    pub open spec fn wf(self, mappings: Seq<Mapping>) -> bool {
        &&& self.cross_number() matches Some(at) ==> at < self.cross.len()
        &&& self.cross.len() <= mappings.len()
        &&& forall|k: int| 0 <= k < self.cross.len() ==> (#[trigger] self.cross[k]) < mappings.len()
        &&& self.stage matches PatchStage::Open { area, .. } ==> area < mappings.len()
    }

    /// How many steps are left at most.
    pub open spec fn left(self, mappings: Seq<Mapping>) -> int {
        let others = 4 * mappings.len() as int + 1;
        match self.stage {
            PatchStage::Lookup => others + 4,
            PatchStage::Private { .. } => others + 3,
            PatchStage::Open { .. } => others + 2,
            PatchStage::Find { .. } => others + 1,
            PatchStage::Update { .. } => others,
            PatchStage::CrossPrivate { at } => 4 * (self.cross.len() - at),
            PatchStage::CrossOpen { at } => 4 * (self.cross.len() - at) - 1,
            PatchStage::CrossFind { at } => 4 * (self.cross.len() - at) - 2,
            PatchStage::CrossUpdate { at, .. } => 4 * (self.cross.len() - at) - 3,
            PatchStage::Over(_) => 0,
        }
    }
}

/// The change of a property.
#[derive(Debug)]
pub struct PatchExisting {
    stage: PatchStage,
    serial: bool,
    cross: Vec<usize>,
}

impl View for PatchExisting {
    type V = Patch;

    closed spec fn view(&self) -> Patch {
        Patch { stage: self.stage, serial: self.serial, cross: self.cross@ }
    }
}

/// Every report brings the change of a property closer to its end, and what holds of every change
/// goes on to hold.
pub proof fn law_patch_ends(patch: Patch, mappings: Seq<Mapping>, event: AreaEvent)
    requires
        patch.wf(mappings),
        mappings.len() <= usize::MAX,
    ensures
        patch.after(mappings, event).wf(mappings),
        patch.step(mappings) == AreaStep::Finished <==> patch.left(mappings) == 0,
        patch.step(mappings) != AreaStep::Finished ==> 0 <= patch.after(mappings, event).left(
            mappings,
        ) < patch.left(mappings),
{
    if let PatchStage::Update { addr, .. } = patch.stage {
        let wanted = |m: Mapping| m.searchable() && !m.holds(addr);
        crate::areas::lemma_all_such(mappings, wanted);
        crate::areas::lemma_all_such_len(mappings, wanted);
    }
    if let PatchStage::Private { addr } = patch.stage {
        crate::areas::lemma_first_such(mappings, |m: Mapping| m.holds(addr));
    }
}

/// A change starts well.
pub proof fn law_patch_starts(key: Seq<char>, serial: bool, mappings: Seq<Mapping>)
    ensures
        Patch::start(key, serial).wf(mappings),
{
}

/// A property counts as changed only once it was changed where the system finds it, whatever
/// comes of the other areas afterwards.
pub proof fn law_patched_where_it_is_found(patch: Patch, mappings: Seq<Mapping>, event: AreaEvent)
    ensures
        patch.after(mappings, event).stage == PatchStage::Over(PatchResult::Patched) ==> {
            ||| patch.stage is Update && event == AreaEvent::Done
            ||| patch.cross_number() is Some
            ||| patch.stage == PatchStage::Over(PatchResult::Patched)
        },
        patch.after(mappings, event).cross_number() is Some ==> {
            ||| patch.stage is Update && event == AreaEvent::Done
            ||| patch.cross_number() is Some
        },
        patch.cross_number() is Some ==> {
            ||| patch.after(mappings, event).cross_number() is Some
            ||| patch.after(mappings, event).stage == PatchStage::Over(PatchResult::Patched)
        },
{
}

impl PatchExisting {
    /// The change before anything was done. `serial` tells whether the area of the serial number
    /// is available.
    pub fn new(key: &str, serial: bool) -> (out: Self)
        ensures
            out@ == Patch::start(key@, serial),
    {
        let stage = if text::has_char(key, '\0') {
            PatchStage::Over(PatchResult::InvalidName)
        } else {
            PatchStage::Lookup
        };
        PatchExisting { stage, serial, cross: Vec::new() }
    }

    /// The next step.
    pub fn next_step(&self, mappings: &Vec<PropAreaMapping>) -> (out: AreaStep)
        requires
            self@.wf(mapping_views(mappings@)),
        ensures
            out == self@.step(mapping_views(mappings@)),
    {
        match self.stage {
            PatchStage::Lookup => AreaStep::Lookup,
            PatchStage::Private { addr } => AreaStep::MakePrivate(addr),
            PatchStage::Open { area, .. } => AreaStep::Open(area),
            PatchStage::Find { .. } => AreaStep::Find,
            PatchStage::Update { offset, .. } => AreaStep::Update(offset),
            PatchStage::CrossPrivate { at } => {
                assert(self@.cross_number() == Some(at as int));
                let area = self.cross[at];
                assert(area == self@.cross[at as int]);
                assert(mapping_views(mappings@)[area as int] == mappings@[area as int]@);
                AreaStep::MakePrivate(mappings[area].start)
            },
            PatchStage::CrossOpen { at } => {
                assert(self@.cross_number() == Some(at as int));
                AreaStep::Open(self.cross[at])
            },
            PatchStage::CrossFind { .. } => AreaStep::Find,
            PatchStage::CrossUpdate { offset, .. } => AreaStep::Update(offset),
            PatchStage::Over(_) => AreaStep::Finished,
        }
    }

    /// The stage before the other area behind the given one, or behind the last one.
    fn cross_behind(&self, at: usize) -> (out: PatchStage)
        requires
            at < self@.cross.len(),
        ensures
            self@.at(out) == self@.cross_at(at + 1),
    {
        let n: usize = self.cross.len();
        if at + 1 < n {
            PatchStage::CrossPrivate { at: at + 1 }
        } else {
            PatchStage::Over(PatchResult::Patched)
        }
    }

    /// Takes what came of the next step.
    pub fn report(&mut self, mappings: &Vec<PropAreaMapping>, event: AreaEvent)
        requires
            old(self)@.wf(mapping_views(mappings@)),
        ensures
            final(self)@ == old(self)@.after(mapping_views(mappings@), event),
            final(self)@.wf(mapping_views(mappings@)),
    {
        assert(mappings.len() <= usize::MAX);
        proof {
            law_patch_ends(self@, mapping_views(mappings@), event);
        }
        let stage = match self.stage {
            PatchStage::Lookup => match event {
                AreaEvent::Address(addr) => PatchStage::Private { addr },
                _ => PatchStage::Over(PatchResult::NotThere),
            },
            PatchStage::Private { addr } => if event != AreaEvent::Done {
                PatchStage::Over(PatchResult::NotThere)
            } else {
                match mapping_holding(mappings, addr) {
                    Some(area) => PatchStage::Open { addr, area },
                    None => PatchStage::Over(PatchResult::NoMapping),
                }
            },
            PatchStage::Open { addr, .. } => if event == AreaEvent::Done {
                PatchStage::Find { addr }
            } else {
                PatchStage::Over(PatchResult::AreaFailed)
            },
            PatchStage::Find { addr } => match event {
                AreaEvent::Offset(offset) => if self.serial {
                    PatchStage::Update { addr, offset }
                } else {
                    PatchStage::Over(PatchResult::SerialUnavailable)
                },
                AreaEvent::Absent => PatchStage::Over(PatchResult::NotThere),
                _ => PatchStage::Over(PatchResult::AreaFailed),
            },
            PatchStage::Update { addr, .. } => if event == AreaEvent::Done {
                self.cross = other_areas(mappings, addr);
                if self.cross.len() > 0 {
                    PatchStage::CrossPrivate { at: 0 }
                } else {
                    PatchStage::Over(PatchResult::Patched)
                }
            } else {
                PatchStage::Over(PatchResult::UpdateFailed)
            },
            PatchStage::CrossPrivate { at } => {
                assert(self@.cross_number() == Some(at as int));
                if event == AreaEvent::Done {
                    PatchStage::CrossOpen { at }
                } else {
                    self.cross_behind(at)
                }
            },
            PatchStage::CrossOpen { at } => {
                assert(self@.cross_number() == Some(at as int));
                if event == AreaEvent::Done {
                    PatchStage::CrossFind { at }
                } else {
                    self.cross_behind(at)
                }
            },
            PatchStage::CrossFind { at } => {
                assert(self@.cross_number() == Some(at as int));
                match event {
                    AreaEvent::Offset(offset) => PatchStage::CrossUpdate { at, offset },
                    _ => self.cross_behind(at),
                }
            },
            PatchStage::CrossUpdate { at, .. } => {
                assert(self@.cross_number() == Some(at as int));
                self.cross_behind(at)
            },
            PatchStage::Over(result) => PatchStage::Over(result),
        };
        self.stage = stage;
    }

    /// What became of the property, once nothing is left to do.
    pub fn cow_patch_existing(&self) -> (out: Option<PatchResult>)
        ensures
            out == match self@.stage {
                PatchStage::Over(result) => Some(result),
                _ => None,
            },
    {
        match self.stage {
            PatchStage::Over(result) => Some(result),
            _ => None,
        }
    }
}

} // verus!
