//! What a whole run over the property areas comes to.
//!
//! A run is a start followed by reports until nothing is left to do. What the steps come to is
//! given by a model of the process in which they are carried out.

use vstd::prelude::*;

use crate::areas::{cross_areas, holder, probed_areas};
use crate::insert::{
    law_insertion_ends, law_probe_ends, serial_fits, InsertStage, Insertion, Probe, ProbeStage,
};
use crate::maps::Mapping;
use crate::patch::{law_patch_ends, AreaEvent, Patch, PatchResult, PatchStage};

verus! {

/// What the steps of a change come to.
pub ghost struct PatchWorld {
    /// Where the system finds the property.
    pub address: Option<usize>,
    /// Whether the area at an address can be made private.
    pub private: spec_fn(usize) -> bool,
    /// Whether the area of a mapping can be opened.
    pub opens: spec_fn(usize) -> bool,
    /// What the search for the property in an area comes to.
    pub finds: spec_fn(usize) -> AreaEvent,
    /// Whether the property can be given its new value in an area.
    pub updates: spec_fn(usize) -> bool,
}

/// The event of a step that is carried out or fails.
pub open spec fn done(ok: bool) -> AreaEvent {
    if ok {
        AreaEvent::Done
    } else {
        AreaEvent::Failed
    }
}

impl PatchWorld {
    /// What the next step of a change comes to.
    pub open spec fn answer(self, patch: Patch, mappings: Seq<Mapping>) -> AreaEvent {
        match patch.stage {
            PatchStage::Lookup => match self.address {
                Some(addr) => AreaEvent::Address(addr),
                None => AreaEvent::Absent,
            },
            PatchStage::Private { addr } => done((self.private)(addr)),
            PatchStage::Open { area, .. } => done((self.opens)(area)),
            PatchStage::Find { addr } => (self.finds)(holder(mappings, addr)->0),
            PatchStage::Update { addr, .. } => done((self.updates)(holder(mappings, addr)->0)),
            PatchStage::CrossPrivate { at } => done(
                (self.private)(mappings[patch.cross[at as int] as int].start),
            ),
            PatchStage::CrossOpen { at } => done((self.opens)(patch.cross[at as int])),
            PatchStage::CrossFind { at } => (self.finds)(patch.cross[at as int]),
            PatchStage::CrossUpdate { at, .. } => done((self.updates)(patch.cross[at as int])),
            PatchStage::Over(_) => AreaEvent::Done,
        }
    }

    /// The area that the next step of a change writes to, if it writes at all.
    pub open spec fn written(self, patch: Patch, mappings: Seq<Mapping>) -> Seq<usize> {
        match patch.stage {
            PatchStage::Update { addr, .. } => seq![holder(mappings, addr)->0],
            PatchStage::CrossUpdate { at, .. } => seq![patch.cross[at as int]],
            _ => Seq::empty(),
        }
    }

    /// Whether an area is reached and holds the property.
    pub open spec fn reaches(self, mappings: Seq<Mapping>, area: usize) -> bool {
        (self.private)(mappings[area as int].start) && (self.opens)(area) && (self.finds)(
            area,
        ) is Offset
    }
}

/// Runs a change to its end: what becomes of the property, and the areas that are written to.
pub open spec fn run_patch(patch: Patch, mappings: Seq<Mapping>, world: PatchWorld) -> (
    PatchResult,
    Seq<usize>,
)
    decreases patch.left(mappings),
    when patch.wf(mappings) && mappings.len() <= usize::MAX
    via run_patch_ends
{
    match patch.stage {
        PatchStage::Over(result) => (result, Seq::empty()),
        _ => {
            let (result, rest) = run_patch(
                patch.after(mappings, world.answer(patch, mappings)),
                mappings,
                world,
            );
            (result, world.written(patch, mappings) + rest)
        },
    }
}

#[via_fn]
proof fn run_patch_ends(patch: Patch, mappings: Seq<Mapping>, world: PatchWorld) {
    law_patch_ends(patch, mappings, world.answer(patch, mappings));
}

/// Those of some areas, from one of them on, that are wanted.
pub open spec fn chosen(areas: Seq<usize>, wanted: spec_fn(usize) -> bool, from: int) -> Seq<usize>
    decreases areas.len() - from,
{
    if from < 0 || from >= areas.len() {
        Seq::empty()
    } else if wanted(areas[from]) {
        seq![areas[from]] + chosen(areas, wanted, from + 1)
    } else {
        chosen(areas, wanted, from + 1)
    }
}

/// What becomes of a property that is to be changed.
pub open spec fn patch_result(
    key: Seq<char>,
    serial: bool,
    mappings: Seq<Mapping>,
    world: PatchWorld,
) -> PatchResult {
    if key.contains('\0') {
        PatchResult::InvalidName
    } else if world.address is None || !(world.private)(world.address->0) {
        PatchResult::NotThere
    } else {
        match holder(mappings, world.address->0) {
            None => PatchResult::NoMapping,
            Some(area) => if !(world.opens)(area) {
                PatchResult::AreaFailed
            } else {
                match (world.finds)(area) {
                    AreaEvent::Absent => PatchResult::NotThere,
                    AreaEvent::Offset(_) => if !serial {
                        PatchResult::SerialUnavailable
                    } else if !(world.updates)(area) {
                        PatchResult::UpdateFailed
                    } else {
                        PatchResult::Patched
                    },
                    _ => PatchResult::AreaFailed,
                }
            },
        }
    }
}

/// The run over the other areas writes to each of them that is reached and holds the property.
proof fn lemma_run_cross(patch: Patch, mappings: Seq<Mapping>, world: PatchWorld, at: int)
    requires
        patch.wf(mappings),
        mappings.len() <= usize::MAX,
        0 <= at <= patch.cross.len(),
    ensures
        patch.cross_at(at).wf(mappings),
        run_patch(patch.cross_at(at), mappings, world) == (
            PatchResult::Patched,
            chosen(patch.cross, |area: usize| world.reaches(mappings, area), at),
        ),
    decreases patch.cross.len() - at,
{
    let wanted = |area: usize| world.reaches(mappings, area);
    let p0 = patch.cross_at(at);
    if at < patch.cross.len() {
        let area = patch.cross[at];
        lemma_run_cross(patch, mappings, world, at + 1);
        let tail = chosen(patch.cross, wanted, at + 1);
        let behind = patch.cross_at(at + 1);
        assert(p0.cross_at(at + 1) == behind);
        let p1 = p0.at(PatchStage::CrossOpen { at: at as usize });
        let p2 = p0.at(PatchStage::CrossFind { at: at as usize });
        assert(p1.cross_at(at + 1) == behind);
        assert(p2.cross_at(at + 1) == behind);
        let none = Seq::<usize>::empty();
        assert(none + tail =~= tail);
        if (world.private)(mappings[area as int].start) {
            assert(p0.after(mappings, world.answer(p0, mappings)) == p1);
            if (world.opens)(area) {
                assert(p1.after(mappings, world.answer(p1, mappings)) == p2);
                match (world.finds)(area) {
                    AreaEvent::Offset(offset) => {
                        let p3 = p0.at(PatchStage::CrossUpdate { at: at as usize, offset });
                        assert(p3.cross_at(at + 1) == behind);
                        assert(p2.after(mappings, world.answer(p2, mappings)) == p3);
                        assert(p3.after(mappings, world.answer(p3, mappings)) == behind);
                        assert(run_patch(p3, mappings, world) == (
                            PatchResult::Patched,
                            seq![area] + tail,
                        ));
                        assert(none + (seq![area] + tail) =~= seq![area] + tail);
                        assert(run_patch(p2, mappings, world).1 =~= seq![area] + tail);
                        assert(run_patch(p1, mappings, world).1 =~= seq![area] + tail);
                        assert(run_patch(p0, mappings, world).1 =~= seq![area] + tail);
                    },
                    _ => {
                        assert(p2.after(mappings, world.answer(p2, mappings)) == behind);
                        assert(run_patch(p2, mappings, world).1 =~= tail);
                        assert(run_patch(p1, mappings, world).1 =~= tail);
                        assert(run_patch(p0, mappings, world).1 =~= tail);
                    },
                }
            } else {
                assert(p1.after(mappings, world.answer(p1, mappings)) == behind);
                assert(run_patch(p1, mappings, world).1 =~= tail);
                assert(run_patch(p0, mappings, world).1 =~= tail);
            }
        } else {
            assert(p0.after(mappings, world.answer(p0, mappings)) == behind);
            assert(run_patch(p0, mappings, world).1 =~= tail);
        }
    }
}

/// A change that is run to its end comes to what the model of the process says, and where the
/// property is changed, it is written where the system finds it and then, in order, to every other
/// area of build properties that can be reached and holds it.
pub proof fn law_patch_run(
    key: Seq<char>,
    serial: bool,
    mappings: Seq<Mapping>,
    world: PatchWorld,
)
    requires
        mappings.len() <= usize::MAX,
    ensures
        run_patch(Patch::start(key, serial), mappings, world).0 == patch_result(
            key,
            serial,
            mappings,
            world,
        ),
        patch_result(key, serial, mappings, world) == PatchResult::Patched ==> run_patch(
            Patch::start(key, serial),
            mappings,
            world,
        ).1 == seq![holder(mappings, world.address->0)->0] + chosen(
            cross_areas(mappings, world.address->0),
            |area: usize| world.reaches(mappings, area),
            0,
        ),
{
    reveal_with_fuel(run_patch, 2);
    let p0 = Patch::start(key, serial);
    let none = Seq::<usize>::empty();
    if !key.contains('\0') {
        law_patch_ends(p0, mappings, world.answer(p0, mappings));
        if let Some(addr) = world.address {
            let p1 = p0.at(PatchStage::Private { addr });
            assert(p0.after(mappings, world.answer(p0, mappings)) == p1);
            law_patch_ends(p1, mappings, world.answer(p1, mappings));
            if (world.private)(addr) && holder(mappings, addr) is Some {
                let area = holder(mappings, addr)->0;
                let p2 = p0.at(PatchStage::Open { addr, area });
                assert(p1.after(mappings, world.answer(p1, mappings)) == p2);
                law_patch_ends(p2, mappings, world.answer(p2, mappings));
                if (world.opens)(area) {
                    let p3 = p0.at(PatchStage::Find { addr });
                    assert(p2.after(mappings, world.answer(p2, mappings)) == p3);
                    law_patch_ends(p3, mappings, world.answer(p3, mappings));
                    if let AreaEvent::Offset(offset) = (world.finds)(area) {
                        if serial {
                            let p4 = p0.at(PatchStage::Update { addr, offset });
                            assert(p3.after(mappings, world.answer(p3, mappings)) == p4);
                            law_patch_ends(p4, mappings, world.answer(p4, mappings));
                            if (world.updates)(area) {
                                let cross = cross_areas(mappings, addr);
                                let ready = Patch { cross, ..p4 };
                                let p5 = p4.after(mappings, world.answer(p4, mappings));
                                assert(p5 == ready.cross_at(0));
                                assert(ready.wf(mappings));
                                lemma_run_cross(ready, mappings, world, 0);
                                let tail = chosen(
                                    cross,
                                    |area: usize| world.reaches(mappings, area),
                                    0,
                                );
                                assert(run_patch(p4, mappings, world).1 == seq![area] + tail);
                                assert(none + (seq![area] + tail) =~= seq![area] + tail);
                                assert(run_patch(p3, mappings, world).1 =~= seq![area] + tail);
                                assert(run_patch(p2, mappings, world).1 =~= seq![area] + tail);
                                assert(run_patch(p1, mappings, world).1 =~= seq![area] + tail);
                                assert(run_patch(p0, mappings, world).1 =~= seq![area] + tail);
                            }
                            assert(run_patch(p3, mappings, world).0 == run_patch(
                                p4,
                                mappings,
                                world,
                            ).0);
                        }
                    }
                    assert(run_patch(p2, mappings, world).0 == run_patch(p3, mappings, world).0);
                }
                assert(run_patch(p1, mappings, world).0 == run_patch(p2, mappings, world).0);
            }
            assert(run_patch(p0, mappings, world).0 == run_patch(p1, mappings, world).0);
        }
    }
}

/// What the steps of an insertion come to.
pub ghost struct InsertWorld {
    /// Whether the area at an address can be made private.
    pub private: spec_fn(usize) -> bool,
    /// Whether the area of a mapping can be opened.
    pub opens: spec_fn(usize) -> bool,
    /// Whether an area holds the property already.
    pub holds: spec_fn(usize) -> bool,
    /// Whether the property can be added to an area.
    pub inserts: spec_fn(usize) -> bool,
    /// The serial number with which the added property is found again in an area.
    pub serial: spec_fn(usize) -> Option<u32>,
}

impl InsertWorld {
    /// What the next step of an insertion comes to.
    pub open spec fn answer(self, insertion: Insertion, mappings: Seq<Mapping>) -> AreaEvent {
        match insertion.stage {
            InsertStage::Private { at } => done(
                (self.private)(mappings[insertion.areas[at as int] as int].start),
            ),
            InsertStage::Open { at } => done((self.opens)(insertion.areas[at as int])),
            InsertStage::Look { at } => if (self.holds)(insertion.areas[at as int]) {
                AreaEvent::Offset(0)
            } else {
                AreaEvent::Absent
            },
            InsertStage::Insert { at } => done((self.inserts)(insertion.areas[at as int])),
            InsertStage::Check { at } => if (self.serial)(insertion.areas[at as int]) is Some {
                AreaEvent::Offset(0)
            } else {
                AreaEvent::Absent
            },
            InsertStage::Serial { at, .. } => AreaEvent::Serial(
                (self.serial)(insertion.areas[at as int])->0,
            ),
            InsertStage::Over => AreaEvent::Done,
        }
    }

    /// Whether the property is put into an area: it can be reached, does not hold the property yet
    /// and takes it.
    pub open spec fn takes(self, mappings: Seq<Mapping>, area: usize) -> bool {
        &&& (self.private)(mappings[area as int].start)
        &&& (self.opens)(area)
        &&& !(self.holds)(area)
        &&& (self.inserts)(area)
    }

    /// Whether the property is put into an area, and found again there with a serial number that
    /// fits its value.
    pub open spec fn adds(self, insertion: Insertion, mappings: Seq<Mapping>, area: usize) -> bool {
        &&& self.takes(mappings, area)
        &&& (self.serial)(area) matches Some(serial) && serial_fits(
            serial,
            insertion.long_flag,
            insertion.value_len,
        )
    }
}

/// Runs an insertion to its end: whether the property was added.
pub open spec fn run_insertion(
    insertion: Insertion,
    mappings: Seq<Mapping>,
    world: InsertWorld,
) -> bool
    decreases
            match insertion.area_number() {
                Some(at) => insertion.areas.len() - at,
                None => 0,
            },
            insertion.left(),
    when insertion.wf(mappings)
    via run_insertion_ends
{
    if insertion.stage == InsertStage::Over {
        insertion.inserted
    } else {
        run_insertion(insertion.after(world.answer(insertion, mappings)), mappings, world)
    }
}

#[via_fn]
proof fn run_insertion_ends(insertion: Insertion, mappings: Seq<Mapping>, world: InsertWorld) {
    law_insertion_ends(insertion, mappings, world.answer(insertion, mappings));
}

/// The areas that an insertion puts the property into, on its way to its end.
pub open spec fn insertion_writes(
    insertion: Insertion,
    mappings: Seq<Mapping>,
    world: InsertWorld,
) -> Seq<usize>
    decreases
            match insertion.area_number() {
                Some(at) => insertion.areas.len() - at,
                None => 0,
            },
            insertion.left(),
    when insertion.wf(mappings)
    via insertion_writes_ends
{
    if insertion.stage == InsertStage::Over {
        Seq::empty()
    } else {
        let event = world.answer(insertion, mappings);
        let here = match insertion.stage {
            InsertStage::Insert { at } => if event == AreaEvent::Done {
                seq![insertion.areas[at as int]]
            } else {
                Seq::empty()
            },
            _ => Seq::empty(),
        };
        here + insertion_writes(insertion.after(event), mappings, world)
    }
}

#[via_fn]
proof fn insertion_writes_ends(insertion: Insertion, mappings: Seq<Mapping>, world: InsertWorld) {
    law_insertion_ends(insertion, mappings, world.answer(insertion, mappings));
}

/// A step of an insertion that puts the property nowhere.
proof fn lemma_quiet_step(insertion: Insertion, mappings: Seq<Mapping>, world: InsertWorld)
    requires
        insertion.wf(mappings),
        insertion.stage != InsertStage::Over,
        insertion.stage is Insert ==> world.answer(insertion, mappings) != AreaEvent::Done,
    ensures
        insertion_writes(insertion, mappings, world) == insertion_writes(
            insertion.after(world.answer(insertion, mappings)),
            mappings,
            world,
        ),
{
    law_insertion_ends(insertion, mappings, world.answer(insertion, mappings));
    let rest = insertion_writes(
        insertion.after(world.answer(insertion, mappings)),
        mappings,
        world,
    );
    assert(Seq::<usize>::empty() + rest =~= rest);
}

/// From an area on, the property is put into each area that takes it.
proof fn lemma_insertion_writes(
    insertion: Insertion,
    mappings: Seq<Mapping>,
    world: InsertWorld,
    at: int,
)
    requires
        insertion.wf(mappings),
        0 <= at <= insertion.areas.len(),
    ensures
        insertion_writes(insertion.area_at(at), mappings, world) == chosen(
            insertion.areas,
            |area: usize| world.takes(mappings, area),
            at,
        ),
    decreases insertion.areas.len() - at,
{
    let wanted = |area: usize| world.takes(mappings, area);
    if at < insertion.areas.len() {
        let area = insertion.areas[at];
        let adds = world.adds(insertion, mappings, area);
        let next = Insertion { inserted: insertion.inserted || adds, ..insertion };
        let behind = next.area_at(at + 1);
        let tail = chosen(insertion.areas, wanted, at + 1);
        lemma_insertion_writes(next, mappings, world, at + 1);
        assert(insertion_writes(behind, mappings, world) == tail);
        if !adds {
            assert(next =~= insertion);
        }
        let p0 = insertion.area_at(at);
        let p1 = p0.at(InsertStage::Open { at: at as usize });
        let p2 = p0.at(InsertStage::Look { at: at as usize });
        let p3 = p0.at(InsertStage::Insert { at: at as usize });
        let p4 = p0.at(InsertStage::Check { at: at as usize });
        let p5 = p0.at(InsertStage::Serial { at: at as usize, offset: 0 });
        lemma_quiet_step(p0, mappings, world);
        if (world.private)(mappings[area as int].start) {
            assert(p0.after(world.answer(p0, mappings)) == p1);
            lemma_quiet_step(p1, mappings, world);
            if (world.opens)(area) {
                assert(p1.after(world.answer(p1, mappings)) == p2);
                lemma_quiet_step(p2, mappings, world);
                if !(world.holds)(area) {
                    assert(p2.after(world.answer(p2, mappings)) == p3);
                    if (world.inserts)(area) {
                        law_insertion_ends(p3, mappings, world.answer(p3, mappings));
                        assert(p3.after(world.answer(p3, mappings)) == p4);
                        lemma_quiet_step(p4, mappings, world);
                        if (world.serial)(area) is Some {
                            assert(p4.after(world.answer(p4, mappings)) == p5);
                            lemma_quiet_step(p5, mappings, world);
                            assert(p5.after(world.answer(p5, mappings)) =~= behind);
                        } else {
                            assert(p4.after(world.answer(p4, mappings)) =~= behind);
                        }
                        assert(insertion_writes(p4, mappings, world) == tail);
                        assert(insertion_writes(p3, mappings, world) == seq![area] + tail);
                    } else {
                        lemma_quiet_step(p3, mappings, world);
                        assert(p3.after(world.answer(p3, mappings)) =~= behind);
                    }
                } else {
                    assert(p2.after(world.answer(p2, mappings)) =~= behind);
                }
            } else {
                assert(p1.after(world.answer(p1, mappings)) =~= behind);
            }
        } else {
            assert(p0.after(world.answer(p0, mappings)) =~= behind);
        }
    }
}

/// Whether the property is added to one of the areas from one of them on.
pub open spec fn adds_somewhere(
    insertion: Insertion,
    mappings: Seq<Mapping>,
    world: InsertWorld,
    from: int,
) -> bool {
    exists|k: int|
        from <= k < insertion.areas.len() && world.adds(
            insertion,
            mappings,
            #[trigger] insertion.areas[k],
        )
}

proof fn lemma_run_insertion(
    insertion: Insertion,
    mappings: Seq<Mapping>,
    world: InsertWorld,
    at: int,
)
    requires
        insertion.wf(mappings),
        0 <= at <= insertion.areas.len(),
    ensures
        run_insertion(insertion.area_at(at), mappings, world) == (insertion.inserted
            || adds_somewhere(insertion, mappings, world, at)),
    decreases insertion.areas.len() - at,
{
    reveal_with_fuel(run_insertion, 7);
    if at < insertion.areas.len() {
        let area = insertion.areas[at];
        let adds = world.adds(insertion, mappings, area);
        let next = Insertion { inserted: insertion.inserted || adds, ..insertion };
        lemma_run_insertion(next, mappings, world, at + 1);
        let p0 = insertion.area_at(at);
        let p1 = p0.at(InsertStage::Open { at: at as usize });
        let p2 = p0.at(InsertStage::Look { at: at as usize });
        let p3 = p0.at(InsertStage::Insert { at: at as usize });
        let p4 = p0.at(InsertStage::Check { at: at as usize });
        let p5 = p0.at(InsertStage::Serial { at: at as usize, offset: 0 });
        let behind = next.area_at(at + 1);
        assert(run_insertion(p0, mappings, world) == run_insertion(behind, mappings, world)) by {
            if !adds {
                assert(next =~= insertion);
            }
            if (world.private)(mappings[area as int].start) {
                assert(p0.after(world.answer(p0, mappings)) == p1);
                if (world.opens)(area) {
                    assert(p1.after(world.answer(p1, mappings)) == p2);
                    if !(world.holds)(area) {
                        assert(p2.after(world.answer(p2, mappings)) == p3);
                        if (world.inserts)(area) {
                            assert(p3.after(world.answer(p3, mappings)) == p4);
                            if (world.serial)(area) is Some {
                                assert(p4.after(world.answer(p4, mappings)) == p5);
                                assert(p5.after(world.answer(p5, mappings)) =~= behind);
                            } else {
                                assert(p4.after(world.answer(p4, mappings)) =~= behind);
                            }
                        } else {
                            assert(p3.after(world.answer(p3, mappings)) =~= behind);
                        }
                    } else {
                        assert(p2.after(world.answer(p2, mappings)) =~= behind);
                    }
                } else {
                    assert(p1.after(world.answer(p1, mappings)) =~= behind);
                }
            } else {
                assert(p0.after(world.answer(p0, mappings)) =~= behind);
            }
        }
        assert(adds_somewhere(insertion, mappings, world, at) == (adds || adds_somewhere(
            next,
            mappings,
            world,
            at + 1,
        ))) by {
            if adds_somewhere(insertion, mappings, world, at) && !adds {
                let k = choose|k: int|
                    at <= k < insertion.areas.len() && world.adds(
                        insertion,
                        mappings,
                        #[trigger] insertion.areas[k],
                    );
                assert(world.adds(next, mappings, next.areas[k]));
            }
            if adds_somewhere(next, mappings, world, at + 1) {
                let k = choose|k: int|
                    at + 1 <= k < next.areas.len() && world.adds(
                        next,
                        mappings,
                        #[trigger] next.areas[k],
                    );
                assert(world.adds(insertion, mappings, insertion.areas[k]));
            }
        }
    }
}

/// An insertion that is run to its end puts the property, in order, into every area that can be
/// reached, does not hold it and takes it. It adds the property if and only if it is found again in
/// one of them with a serial number that fits.
pub proof fn law_insertion_run(
    areas: Seq<usize>,
    long_flag: u32,
    value_len: nat,
    mappings: Seq<Mapping>,
    world: InsertWorld,
)
    requires
        areas.len() <= usize::MAX,
        forall|k: int| 0 <= k < areas.len() ==> (#[trigger] areas[k]) < mappings.len(),
    ensures
        run_insertion(Insertion::start(areas, long_flag, value_len), mappings, world)
            <==> adds_somewhere(
            Insertion::start(areas, long_flag, value_len),
            mappings,
            world,
            0,
        ),
        insertion_writes(Insertion::start(areas, long_flag, value_len), mappings, world) == chosen(
            areas,
            |area: usize| world.takes(mappings, area),
            0,
        ),
{
    let start = Insertion::start(areas, long_flag, value_len);
    lemma_run_insertion(start, mappings, world, 0);
    lemma_insertion_writes(start, mappings, world, 0);
    assert(start.area_at(0) =~= start);
}

/// What the steps of a search for siblings come to.
pub ghost struct ProbeWorld {
    /// Whether the area at an address can be made private.
    pub private: spec_fn(usize) -> bool,
    /// Whether the area of a mapping can be opened.
    pub opens: spec_fn(usize) -> bool,
    /// Whether an area holds the sibling with the given number.
    pub holds: spec_fn(usize, usize) -> bool,
}

impl ProbeWorld {
    /// What the next step of a search comes to.
    pub open spec fn answer(self, probe: Probe, mappings: Seq<Mapping>) -> AreaEvent {
        match probe.stage {
            ProbeStage::Private { at } => done(
                (self.private)(mappings[probe.areas[at as int] as int].start),
            ),
            ProbeStage::Open { at } => done((self.opens)(probe.areas[at as int])),
            ProbeStage::Find { at, sibling } => if (self.holds)(probe.areas[at as int], sibling) {
                AreaEvent::Offset(0)
            } else {
                AreaEvent::Absent
            },
            ProbeStage::Over => AreaEvent::Done,
        }
    }

    /// Whether an area holds one of the siblings from one of them on.
    pub open spec fn holds_one(self, area: usize, from: int, siblings: usize) -> bool {
        exists|sibling: usize| from <= sibling < siblings && #[trigger] (self.holds)(area, sibling)
    }

    /// Whether an area is reached and holds one of the siblings.
    pub open spec fn finds_one(self, mappings: Seq<Mapping>, area: usize, siblings: usize) -> bool {
        (self.private)(mappings[area as int].start) && (self.opens)(area) && self.holds_one(
            area,
            0,
            siblings,
        )
    }
}

/// Runs a search to its end: the areas in which a sibling was found.
pub open spec fn run_probe(probe: Probe, mappings: Seq<Mapping>, world: ProbeWorld) -> Seq<usize>
    decreases
            match probe.area_number() {
                Some(at) => probe.areas.len() - at,
                None => 0,
            },
            probe.left(),
    when probe.wf(mappings)
    via run_probe_ends
{
    if probe.stage == ProbeStage::Over {
        probe.found
    } else {
        run_probe(probe.after(world.answer(probe, mappings)), mappings, world)
    }
}

#[via_fn]
proof fn run_probe_ends(probe: Probe, mappings: Seq<Mapping>, world: ProbeWorld) {
    law_probe_ends(probe, mappings, world.answer(probe, mappings));
}

/// The search for siblings in an open area ends with that area, which is kept if it holds one.
proof fn lemma_run_siblings(
    probe: Probe,
    mappings: Seq<Mapping>,
    world: ProbeWorld,
    at: int,
    sibling: int,
)
    requires
        probe.wf(mappings),
        0 <= at < probe.areas.len(),
        0 <= sibling <= probe.siblings,
    ensures
        run_probe(probe.sibling_at(at, sibling), mappings, world) == run_probe(
            (Probe {
                found: if world.holds_one(probe.areas[at], sibling, probe.siblings) {
                    probe.found.push(probe.areas[at])
                } else {
                    probe.found
                },
                ..probe
            }).area_at(at + 1),
            mappings,
            world,
        ),
    decreases probe.siblings - sibling,
{
    let area = probe.areas[at];
    let p = probe.sibling_at(at, sibling);
    if sibling < probe.siblings {
        let here = (world.holds)(area, sibling as usize);
        if here {
            assert(world.holds_one(area, sibling, probe.siblings));
            let kept = Probe { found: probe.found.push(area), ..probe };
            assert(p.after(world.answer(p, mappings)) =~= kept.area_at(at + 1));
        } else {
            lemma_run_siblings(probe, mappings, world, at, sibling + 1);
            assert(p.after(world.answer(p, mappings)) =~= probe.sibling_at(at, sibling + 1));
            assert(world.holds_one(area, sibling, probe.siblings) == world.holds_one(
                area,
                sibling + 1,
                probe.siblings,
            ));
        }
    } else {
        assert(!world.holds_one(area, sibling, probe.siblings));
        assert(Probe { found: probe.found, ..probe } =~= probe);
    }
}

proof fn lemma_run_probe(probe: Probe, mappings: Seq<Mapping>, world: ProbeWorld, at: int)
    requires
        probe.wf(mappings),
        0 <= at <= probe.areas.len(),
    ensures
        run_probe(probe.area_at(at), mappings, world) == probe.found + chosen(
            probe.areas,
            |area: usize| world.finds_one(mappings, area, probe.siblings),
            at,
        ),
    decreases probe.areas.len() - at,
{
    let wanted = |area: usize| world.finds_one(mappings, area, probe.siblings);
    reveal_with_fuel(run_probe, 2);
    let p0 = probe.area_at(at);
    if at < probe.areas.len() {
        let area = probe.areas[at];
        let found = wanted(area);
        let next = Probe {
            found: if found {
                probe.found.push(area)
            } else {
                probe.found
            },
            ..probe
        };
        assert(next.wf(mappings)) by {
            assert forall|k: int| 0 <= k < next.found.len() implies (#[trigger] next.found[k])
                < mappings.len() by {
                if k < probe.found.len() {
                    assert(next.found[k] == probe.found[k]);
                }
            }
        }
        lemma_run_probe(next, mappings, world, at + 1);
        let behind = next.area_at(at + 1);
        let p1 = p0.at(ProbeStage::Open { at: at as usize });
        assert(run_probe(p0, mappings, world) == run_probe(behind, mappings, world)) by {
            if !found {
                assert(next =~= probe);
            }
            if (world.private)(mappings[area as int].start) {
                assert(p0.after(world.answer(p0, mappings)) == p1);
                if (world.opens)(area) {
                    assert(p1.after(world.answer(p1, mappings)) =~= probe.sibling_at(at, 0));
                    lemma_run_siblings(probe, mappings, world, at, 0);
                    assert(run_probe(p1, mappings, world) == run_probe(
                        probe.sibling_at(at, 0),
                        mappings,
                        world,
                    ));
                } else {
                    assert(p1.after(world.answer(p1, mappings)) =~= behind);
                }
            } else {
                assert(p0.after(world.answer(p0, mappings)) =~= behind);
            }
        }
        let tail = chosen(probe.areas, wanted, at + 1);
        assert(probe.found.push(area) + tail =~= probe.found + (seq![area] + tail));
    } else {
        assert(probe.found + Seq::<usize>::empty() =~= probe.found);
    }
}

/// A search that is run to its end finds, in order, the areas that can be reached and hold one of
/// the siblings.
pub proof fn law_probe_run(
    mappings: Seq<Mapping>,
    siblings: usize,
    world: ProbeWorld,
)
    requires
        mappings.len() <= usize::MAX,
    ensures
        run_probe(Probe::start(mappings, siblings), mappings, world) == chosen(
            probed_areas(mappings),
            |area: usize| world.finds_one(mappings, area, siblings),
            0,
        ),
{
    let start = Probe::start(mappings, siblings);
    let wanted = |m: Mapping| "/dev/__properties__/"@.is_prefix_of(m.path) && m.searchable();
    crate::areas::lemma_all_such(mappings, wanted);
    crate::areas::lemma_all_such_len(mappings, wanted);
    lemma_run_probe(start, mappings, world, 0);
    assert(start.area_at(0) =~= start);
    let all = chosen(
        probed_areas(mappings),
        |area: usize| world.finds_one(mappings, area, siblings),
        0,
    );
    assert(Seq::<usize>::empty() + all =~= all);
}

} // verus!
