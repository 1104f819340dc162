//! What the steps that are asked for come to.
//!
//! Here the steps are carried out as they are named, by a process that knows nothing of why they
//! are asked for: it remembers which area was opened last, and whether the property has been added
//! there since.

use vstd::prelude::*;

use crate::areas::{cross_areas, holder, probed_areas};
use crate::insert::{
    law_insertion_ends, law_probe_ends, serial_fits, InsertStage, Insertion, Probe, ProbeStage,
};
use crate::maps::Mapping;
use crate::patch::{law_patch_ends, AreaEvent, AreaStep, Patch, PatchResult, PatchStage};
use crate::run_laws::chosen;

verus! {

/// What each step comes to.
pub ghost struct Process {
    /// What the system's search for the property comes to.
    pub lookup: AreaEvent,
    /// What making the area at an address private comes to.
    pub private: spec_fn(usize) -> AreaEvent,
    /// What opening the area of a mapping comes to.
    pub open: spec_fn(usize) -> AreaEvent,
    /// What the search for the property in an area comes to.
    pub find: spec_fn(usize) -> AreaEvent,
    /// What the search for a sibling in an area comes to.
    pub sibling: spec_fn(usize, usize) -> AreaEvent,
    /// What writing the new value at an offset of an area comes to.
    pub update: spec_fn(usize, usize) -> AreaEvent,
    /// What adding the property to an area comes to.
    pub insert: spec_fn(usize) -> AreaEvent,
    /// What the search for the property comes to once it was added to an area.
    pub again: spec_fn(usize) -> AreaEvent,
    /// What reading the serial number at an offset of an area comes to.
    pub serial: spec_fn(usize, usize) -> AreaEvent,
}

/// What the process remembers.
pub ghost struct Hand {
    /// The area that was opened last.
    pub area: usize,
    /// Whether the property has been added to it since.
    pub added: bool,
}

impl Process {
    /// What a step comes to.
    pub open spec fn reply(self, step: AreaStep, hand: Hand) -> AreaEvent {
        match step {
            AreaStep::Lookup => self.lookup,
            AreaStep::MakePrivate(addr) => (self.private)(addr),
            AreaStep::Open(area) => (self.open)(area),
            AreaStep::Find => if hand.added {
                (self.again)(hand.area)
            } else {
                (self.find)(hand.area)
            },
            AreaStep::FindSibling(k) => (self.sibling)(hand.area, k),
            AreaStep::Update(offset) => (self.update)(hand.area, offset),
            AreaStep::Insert => (self.insert)(hand.area),
            AreaStep::ReadSerial(offset) => (self.serial)(hand.area, offset),
            AreaStep::Finished => AreaEvent::Done,
        }
    }

    /// Whether an area can be made private and opened.
    pub open spec fn reached(self, mappings: Seq<Mapping>, area: usize) -> bool {
        (self.private)(mappings[area as int].start) == AreaEvent::Done && (self.open)(area)
            == AreaEvent::Done
    }
}

/// What the process remembers after a step.
pub open spec fn hand_after(hand: Hand, step: AreaStep) -> Hand {
    match step {
        AreaStep::Open(area) => Hand { area, added: false },
        AreaStep::Insert => Hand { added: true, ..hand },
        _ => hand,
    }
}

// ---------------------------------------------------------------------------
// Changing a property
// ---------------------------------------------------------------------------

/// Where a step writes a new value: the area and the offset.
pub open spec fn update_of(step: AreaStep, hand: Hand) -> Seq<(usize, usize)> {
    match step {
        AreaStep::Update(offset) => seq![(hand.area, offset)],
        _ => Seq::empty(),
    }
}

/// Carries out the steps of a change: its result, and where the new value is written.
pub open spec fn patch_steps(patch: Patch, hand: Hand, mappings: Seq<Mapping>, process: Process) -> (
    PatchResult,
    Seq<(usize, usize)>,
)
    decreases patch.left(mappings),
    when patch.wf(mappings) && mappings.len() <= usize::MAX
    via patch_steps_end
{
    let step = patch.step(mappings);
    if step == AreaStep::Finished {
        (patch.stage->Over_0, Seq::empty())
    } else {
        let (result, rest) = patch_steps(
            patch.after(mappings, process.reply(step, hand)),
            hand_after(hand, step),
            mappings,
            process,
        );
        (result, update_of(step, hand) + rest)
    }
}

#[via_fn]
proof fn patch_steps_end(patch: Patch, hand: Hand, mappings: Seq<Mapping>, process: Process) {
    law_patch_ends(patch, mappings, process.reply(patch.step(mappings), hand));
}

/// One step of a change.
proof fn lemma_patch_step(patch: Patch, hand: Hand, mappings: Seq<Mapping>, process: Process)
    requires
        patch.wf(mappings),
        mappings.len() <= usize::MAX,
        !(patch.stage is Over),
    ensures
        ({
            let step = patch.step(mappings);
            let next = patch_steps(
                patch.after(mappings, process.reply(step, hand)),
                hand_after(hand, step),
                mappings,
                process,
            );
            &&& patch_steps(patch, hand, mappings, process).0 == next.0
            &&& patch_steps(patch, hand, mappings, process).1 == update_of(step, hand) + next.1
            &&& !(step is Update) ==> patch_steps(patch, hand, mappings, process) == next
            &&& patch.after(mappings, process.reply(step, hand)).wf(mappings)
        }),
{
    let step = patch.step(mappings);
    law_patch_ends(patch, mappings, process.reply(step, hand));
    let next = patch_steps(
        patch.after(mappings, process.reply(step, hand)),
        hand_after(hand, step),
        mappings,
        process,
    );
    assert(Seq::<(usize, usize)>::empty() + next.1 =~= next.1);
}

/// Where the new value is written in some areas, from one of them on: at the offset at which the
/// property is found, in each area that is reached and holds it.
pub open spec fn updates_in(
    areas: Seq<usize>,
    mappings: Seq<Mapping>,
    process: Process,
    from: int,
) -> Seq<(usize, usize)>
    decreases areas.len() - from,
{
    if from < 0 || from >= areas.len() {
        Seq::empty()
    } else {
        let rest = updates_in(areas, mappings, process, from + 1);
        match (process.find)(areas[from]) {
            AreaEvent::Offset(offset) => if process.reached(mappings, areas[from]) {
                seq![(areas[from], offset)] + rest
            } else {
                rest
            },
            _ => rest,
        }
    }
}

proof fn lemma_cross_steps(
    patch: Patch,
    hand: Hand,
    mappings: Seq<Mapping>,
    process: Process,
    at: int,
)
    requires
        patch.wf(mappings),
        mappings.len() <= usize::MAX,
        0 <= at <= patch.cross.len(),
    ensures
        patch.cross_at(at).wf(mappings),
        patch_steps(patch.cross_at(at), hand, mappings, process) == (
            PatchResult::Patched,
            updates_in(patch.cross, mappings, process, at),
        ),
    decreases patch.cross.len() - at,
{
    let p0 = patch.cross_at(at);
    if at < patch.cross.len() {
        let area = patch.cross[at];
        let open = Hand { area, added: false };
        let tail = updates_in(patch.cross, mappings, process, at + 1);
        lemma_cross_steps(patch, hand, mappings, process, at + 1);
        lemma_cross_steps(patch, open, mappings, process, at + 1);
        let behind = patch.cross_at(at + 1);
        assert(p0.cross_at(at + 1) == behind);
        let p1 = p0.at(PatchStage::CrossOpen { at: at as usize });
        let p2 = p0.at(PatchStage::CrossFind { at: at as usize });
        assert(p1.cross_at(at + 1) == behind);
        assert(p2.cross_at(at + 1) == behind);
        lemma_patch_step(p0, hand, mappings, process);
        if (process.private)(mappings[area as int].start) == AreaEvent::Done {
            lemma_patch_step(p1, hand, mappings, process);
            if (process.open)(area) == AreaEvent::Done {
                assert(hand_after(hand, p1.step(mappings)) == open);
                lemma_patch_step(p2, open, mappings, process);
                if let AreaEvent::Offset(offset) = (process.find)(area) {
                    let p3 = p0.at(PatchStage::CrossUpdate { at: at as usize, offset });
                    assert(p3.cross_at(at + 1) == behind);
                    lemma_patch_step(p3, open, mappings, process);
                } else {
                    assert(p2.after(mappings, (process.find)(area)) == behind);
                }
            } else {
                let hand1 = hand_after(hand, p1.step(mappings));
                lemma_cross_steps(patch, hand1, mappings, process, at + 1);
            }
        }
    }
}

/// What becomes of a property that is to be changed, and where its new value is written. The
/// process looks the property up, makes the area at its address private, opens the area that holds
/// that address, and writes at the offset at which it finds the property there. Then it does the
/// same in each of the other areas of build properties.
pub open spec fn patch_end(
    key: Seq<char>,
    serial: bool,
    mappings: Seq<Mapping>,
    process: Process,
) -> (PatchResult, Seq<(usize, usize)>) {
    let none = Seq::<(usize, usize)>::empty();
    if key.contains('\0') {
        (PatchResult::InvalidName, none)
    } else {
        match process.lookup {
            AreaEvent::Address(addr) => if (process.private)(addr) != AreaEvent::Done {
                (PatchResult::NotThere, none)
            } else {
                match holder(mappings, addr) {
                    None => (PatchResult::NoMapping, none),
                    Some(area) => if (process.open)(area) != AreaEvent::Done {
                        (PatchResult::AreaFailed, none)
                    } else {
                        match (process.find)(area) {
                            AreaEvent::Offset(offset) => if !serial {
                                (PatchResult::SerialUnavailable, none)
                            } else if (process.update)(area, offset) != AreaEvent::Done {
                                (PatchResult::UpdateFailed, seq![(area, offset)])
                            } else {
                                (
                                    PatchResult::Patched,
                                    seq![(area, offset)] + updates_in(
                                        cross_areas(mappings, addr),
                                        mappings,
                                        process,
                                        0,
                                    ),
                                )
                            },
                            AreaEvent::Absent => (PatchResult::NotThere, none),
                            _ => (PatchResult::AreaFailed, none),
                        }
                    },
                }
            },
            _ => (PatchResult::NotThere, none),
        }
    }
}

/// The steps of a change come to [`patch_end`], whatever the process remembers at the start.
pub proof fn law_patch_by_steps(
    key: Seq<char>,
    serial: bool,
    mappings: Seq<Mapping>,
    hand: Hand,
    process: Process,
)
    requires
        mappings.len() <= usize::MAX,
    ensures
        patch_steps(Patch::start(key, serial), hand, mappings, process) == patch_end(
            key,
            serial,
            mappings,
            process,
        ),
{
    reveal_with_fuel(patch_steps, 2);
    let p0 = Patch::start(key, serial);
    if !key.contains('\0') {
        lemma_patch_step(p0, hand, mappings, process);
        if let AreaEvent::Address(addr) = process.lookup {
            let p1 = p0.at(PatchStage::Private { addr });
            assert(p0.after(mappings, process.lookup) == p1);
            lemma_patch_step(p1, hand, mappings, process);
            if (process.private)(addr) == AreaEvent::Done && holder(mappings, addr) is Some {
                let area = holder(mappings, addr)->0;
                let open = Hand { area, added: false };
                let p2 = p0.at(PatchStage::Open { addr, area });
                assert(p1.after(mappings, (process.private)(addr)) == p2);
                lemma_patch_step(p2, hand, mappings, process);
                assert(hand_after(hand, p2.step(mappings)) == open);
                if (process.open)(area) == AreaEvent::Done {
                    let p3 = p0.at(PatchStage::Find { addr });
                    assert(p2.after(mappings, (process.open)(area)) == p3);
                    lemma_patch_step(p3, open, mappings, process);
                    if let AreaEvent::Offset(offset) = (process.find)(area) {
                        if serial {
                            let p4 = p0.at(PatchStage::Update { addr, offset });
                            assert(p3.after(mappings, (process.find)(area)) == p4);
                            lemma_patch_step(p4, open, mappings, process);
                            if (process.update)(area, offset) == AreaEvent::Done {
                                let cross = cross_areas(mappings, addr);
                                let ready = Patch { cross, ..p4 };
                                let p5 = p4.after(mappings, (process.update)(area, offset));
                                assert(p5 == ready.cross_at(0));
                                assert(ready.wf(mappings));
                                lemma_cross_steps(ready, open, mappings, process, 0);
                            } else {
                                let one = seq![(area, offset)];
                                assert(one + Seq::<(usize, usize)>::empty() =~= one);
                            }
                        }
                    }
                }
            }
        }
    }
}

// ---------------------------------------------------------------------------
// Searching for siblings
// ---------------------------------------------------------------------------

/// Carries out the steps of a search: the areas in which a sibling was found.
pub open spec fn probe_steps(probe: Probe, hand: Hand, mappings: Seq<Mapping>, process: Process) -> Seq<
    usize,
>
    decreases
            match probe.area_number() {
                Some(at) => probe.areas.len() - at,
                None => 0,
            },
            probe.left(),
    when probe.wf(mappings)
    via probe_steps_end
{
    let step = probe.step(mappings);
    if step == AreaStep::Finished {
        probe.found
    } else {
        probe_steps(
            probe.after(process.reply(step, hand)),
            hand_after(hand, step),
            mappings,
            process,
        )
    }
}

#[via_fn]
proof fn probe_steps_end(probe: Probe, hand: Hand, mappings: Seq<Mapping>, process: Process) {
    law_probe_ends(probe, mappings, process.reply(probe.step(mappings), hand));
}

/// One step of a search.
proof fn lemma_probe_step(probe: Probe, hand: Hand, mappings: Seq<Mapping>, process: Process)
    requires
        probe.wf(mappings),
        probe.stage != ProbeStage::Over,
    ensures
        probe_steps(probe, hand, mappings, process) == probe_steps(
            probe.after(process.reply(probe.step(mappings), hand)),
            hand_after(hand, probe.step(mappings)),
            mappings,
            process,
        ),
        probe.after(process.reply(probe.step(mappings), hand)).wf(mappings),
{
    law_probe_ends(probe, mappings, process.reply(probe.step(mappings), hand));
}

impl Process {
    /// Whether one of the siblings from one of them on is found in an area.
    pub open spec fn shows_sibling(self, area: usize, from: int, siblings: usize) -> bool {
        exists|k: usize| from <= k < siblings && #[trigger] (self.sibling)(area, k) is Offset
    }
}

proof fn lemma_sibling_steps(
    probe: Probe,
    mappings: Seq<Mapping>,
    process: Process,
    at: int,
    k: int,
)
    requires
        probe.wf(mappings),
        0 <= at < probe.areas.len(),
        0 <= k <= probe.siblings,
    ensures
        probe_steps(
            probe.sibling_at(at, k),
            (Hand { area: probe.areas[at], added: false }),
            mappings,
            process,
        ) == probe_steps(
            (Probe {
                found: if process.shows_sibling(probe.areas[at], k, probe.siblings) {
                    probe.found.push(probe.areas[at])
                } else {
                    probe.found
                },
                ..probe
            }).area_at(at + 1),
            (Hand { area: probe.areas[at], added: false }),
            mappings,
            process,
        ),
    decreases probe.siblings - k,
{
    let area = probe.areas[at];
    let open = Hand { area, added: false };
    let p = probe.sibling_at(at, k);
    if k < probe.siblings {
        lemma_probe_step(p, open, mappings, process);
        let event = (process.sibling)(area, k as usize);
        if event is Offset {
            assert(process.shows_sibling(area, k, probe.siblings));
            let kept = Probe { found: probe.found.push(area), ..probe };
            assert(p.after(event) =~= kept.area_at(at + 1));
        } else {
            lemma_sibling_steps(probe, mappings, process, at, k + 1);
            assert(p.after(event) =~= probe.sibling_at(at, k + 1));
            assert(process.shows_sibling(area, k, probe.siblings) == process.shows_sibling(
                area,
                k + 1,
                probe.siblings,
            ));
        }
    } else {
        assert(!process.shows_sibling(area, k, probe.siblings));
        assert(Probe { found: probe.found, ..probe } =~= probe);
    }
}

proof fn lemma_probe_steps(
    probe: Probe,
    hand: Hand,
    mappings: Seq<Mapping>,
    process: Process,
    at: int,
)
    requires
        probe.wf(mappings),
        0 <= at <= probe.areas.len(),
    ensures
        probe_steps(probe.area_at(at), hand, mappings, process) == probe.found + chosen(
            probe.areas,
            |area: usize|
                process.reached(mappings, area) && process.shows_sibling(area, 0, probe.siblings),
            at,
        ),
    decreases probe.areas.len() - at,
{
    let wanted = |area: usize|
        process.reached(mappings, area) && process.shows_sibling(area, 0, probe.siblings);
    let p0 = probe.area_at(at);
    if at < probe.areas.len() {
        let area = probe.areas[at];
        let open = Hand { area, added: false };
        let found = wanted(area);
        let next = Probe {
            found: if found {
                probe.found.push(area)
            } else {
                probe.found
            },
            ..probe
        };
        assert(next.wf(mappings)) by {
            assert forall|k: int| 0 <= k < next.found.len() implies (#[trigger] next.found[k])
                < mappings.len() by {
                if k < probe.found.len() {
                    assert(next.found[k] == probe.found[k]);
                }
            }
        }
        let behind = next.area_at(at + 1);
        let p1 = p0.at(ProbeStage::Open { at: at as usize });
        if !found {
            assert(next =~= probe);
        }
        lemma_probe_step(p0, hand, mappings, process);
        if (process.private)(mappings[area as int].start) == AreaEvent::Done {
            assert(p0.after(AreaEvent::Done) == p1);
            lemma_probe_step(p1, hand, mappings, process);
            let hand1 = hand_after(hand, p1.step(mappings));
            assert(hand1 == open);
            lemma_probe_steps(next, open, mappings, process, at + 1);
            if (process.open)(area) == AreaEvent::Done {
                assert(p1.after(AreaEvent::Done) =~= probe.sibling_at(at, 0));
                lemma_sibling_steps(probe, mappings, process, at, 0);
            } else {
                assert(p1.after((process.open)(area)) =~= behind);
            }
        } else {
            lemma_probe_steps(next, hand, mappings, process, at + 1);
            assert(p0.after((process.private)(mappings[area as int].start)) =~= behind);
        }
        let tail = chosen(probe.areas, wanted, at + 1);
        assert(probe.found.push(area) + tail =~= probe.found + (seq![area] + tail));
    } else {
        assert(probe.found + Seq::<usize>::empty() =~= probe.found);
    }
}

/// The steps of a search find, in order, the areas that are reached and in which one of the
/// siblings is found.
pub proof fn law_probe_by_steps(
    mappings: Seq<Mapping>,
    siblings: usize,
    hand: Hand,
    process: Process,
)
    requires
        mappings.len() <= usize::MAX,
    ensures
        probe_steps(Probe::start(mappings, siblings), hand, mappings, process) == chosen(
            probed_areas(mappings),
            |area: usize|
                process.reached(mappings, area) && process.shows_sibling(area, 0, siblings),
            0,
        ),
{
    let start = Probe::start(mappings, siblings);
    let wanted = |m: Mapping| "/dev/__properties__/"@.is_prefix_of(m.path) && m.searchable();
    crate::areas::lemma_all_such(mappings, wanted);
    crate::areas::lemma_all_such_len(mappings, wanted);
    lemma_probe_steps(start, hand, mappings, process, 0);
    assert(start.area_at(0) =~= start);
    let all = chosen(
        probed_areas(mappings),
        |area: usize| process.reached(mappings, area) && process.shows_sibling(area, 0, siblings),
        0,
    );
    assert(Seq::<usize>::empty() + all =~= all);
}

// ---------------------------------------------------------------------------
// Adding a property
// ---------------------------------------------------------------------------

/// Carries out the steps of an insertion: whether the property counts as added, and the areas to
/// which it is to be added on the way.
pub open spec fn insertion_steps(
    insertion: Insertion,
    hand: Hand,
    mappings: Seq<Mapping>,
    process: Process,
) -> (bool, Seq<usize>)
    decreases
            match insertion.area_number() {
                Some(at) => insertion.areas.len() - at,
                None => 0,
            },
            insertion.left(),
    when insertion.wf(mappings)
    via insertion_steps_end
{
    let step = insertion.step(mappings);
    if step == AreaStep::Finished {
        (insertion.inserted, Seq::empty())
    } else {
        let (added, rest) = insertion_steps(
            insertion.after(process.reply(step, hand)),
            hand_after(hand, step),
            mappings,
            process,
        );
        (added, (if step == AreaStep::Insert {
            seq![hand.area]
        } else {
            Seq::empty()
        }) + rest)
    }
}

#[via_fn]
proof fn insertion_steps_end(
    insertion: Insertion,
    hand: Hand,
    mappings: Seq<Mapping>,
    process: Process,
) {
    law_insertion_ends(insertion, mappings, process.reply(insertion.step(mappings), hand));
}

/// One step of an insertion.
proof fn lemma_insertion_step(
    insertion: Insertion,
    hand: Hand,
    mappings: Seq<Mapping>,
    process: Process,
)
    requires
        insertion.wf(mappings),
        insertion.stage != InsertStage::Over,
    ensures
        ({
            let step = insertion.step(mappings);
            let next = insertion_steps(
                insertion.after(process.reply(step, hand)),
                hand_after(hand, step),
                mappings,
                process,
            );
            &&& step != AreaStep::Insert ==> insertion_steps(insertion, hand, mappings, process)
                == next
            &&& step == AreaStep::Insert ==> insertion_steps(insertion, hand, mappings, process)
                == (next.0, seq![hand.area] + next.1)
            &&& insertion.after(process.reply(step, hand)).wf(mappings)
        }),
{
    let step = insertion.step(mappings);
    law_insertion_ends(insertion, mappings, process.reply(step, hand));
    let next = insertion_steps(
        insertion.after(process.reply(step, hand)),
        hand_after(hand, step),
        mappings,
        process,
    );
    assert(Seq::<usize>::empty() + next.1 =~= next.1);
}

impl Process {
    /// Whether the property is to be added to an area: the area is reached and does not hold it.
    pub open spec fn lacks(self, mappings: Seq<Mapping>, area: usize) -> bool {
        self.reached(mappings, area) && !((self.find)(area) is Offset)
    }

    /// Whether the property is found again in an area after it was added, with a serial number
    /// that fits its value.
    pub open spec fn confirms(
        self,
        mappings: Seq<Mapping>,
        area: usize,
        long_flag: u32,
        value_len: nat,
    ) -> bool {
        &&& self.lacks(mappings, area)
        &&& (self.insert)(area) == AreaEvent::Done
        &&& (self.again)(area) matches AreaEvent::Offset(offset) && (self.serial)(
            area,
            offset,
        ) matches AreaEvent::Serial(serial) && serial_fits(serial, long_flag, value_len)
    }

    /// Whether the property is confirmed in one of some areas, from one of them on.
    pub open spec fn confirms_in(
        self,
        areas: Seq<usize>,
        mappings: Seq<Mapping>,
        long_flag: u32,
        value_len: nat,
        from: int,
    ) -> bool
        decreases areas.len() - from,
    {
        if from < 0 || from >= areas.len() {
            false
        } else {
            self.confirms(mappings, areas[from], long_flag, value_len) || self.confirms_in(
                areas,
                mappings,
                long_flag,
                value_len,
                from + 1,
            )
        }
    }
}

#[verifier::rlimit(30)]
proof fn lemma_insertion_steps(
    insertion: Insertion,
    hand: Hand,
    mappings: Seq<Mapping>,
    process: Process,
    at: int,
)
    requires
        insertion.wf(mappings),
        0 <= at <= insertion.areas.len(),
    ensures
        insertion_steps(insertion.area_at(at), hand, mappings, process).0 == (insertion.inserted
            || process.confirms_in(
            insertion.areas,
            mappings,
            insertion.long_flag,
            insertion.value_len,
            at,
        )),
        insertion_steps(insertion.area_at(at), hand, mappings, process).1 == chosen(
            insertion.areas,
            |area: usize| process.lacks(mappings, area),
            at,
        ),
    decreases insertion.areas.len() - at,
{
    let wanted = |area: usize| process.lacks(mappings, area);
    let p0 = insertion.area_at(at);
    if at < insertion.areas.len() {
        let area = insertion.areas[at];
        let open = Hand { area, added: false };
        let full = Hand { area, added: true };
        let adds = process.confirms(
            mappings,
            area,
            insertion.long_flag,
            insertion.value_len,
        );
        let next = Insertion { inserted: insertion.inserted || adds, ..insertion };
        let behind = next.area_at(at + 1);
        if !adds {
            assert(next =~= insertion);
        }
        lemma_insertion_steps(next, hand, mappings, process, at + 1);
        lemma_insertion_steps(next, open, mappings, process, at + 1);
        lemma_insertion_steps(next, full, mappings, process, at + 1);
        let p1 = p0.at(InsertStage::Open { at: at as usize });
        let p2 = p0.at(InsertStage::Look { at: at as usize });
        let p3 = p0.at(InsertStage::Insert { at: at as usize });
        let p4 = p0.at(InsertStage::Check { at: at as usize });
        lemma_insertion_step(p0, hand, mappings, process);
        if (process.private)(mappings[area as int].start) == AreaEvent::Done {
            assert(p0.after(AreaEvent::Done) == p1);
            lemma_insertion_step(p1, hand, mappings, process);
            assert(hand_after(hand, p1.step(mappings)) == open);
            if (process.open)(area) == AreaEvent::Done {
                assert(p1.after(AreaEvent::Done) == p2);
                lemma_insertion_step(p2, open, mappings, process);
                if !((process.find)(area) is Offset) {
                    assert(p2.after((process.find)(area)) == p3);
                    lemma_insertion_step(p3, open, mappings, process);
                    if (process.insert)(area) == AreaEvent::Done {
                        assert(p3.after(AreaEvent::Done) == p4);
                        lemma_insertion_step(p4, full, mappings, process);
                        if let AreaEvent::Offset(offset) = (process.again)(area) {
                            let p5 = p0.at(InsertStage::Serial { at: at as usize, offset });
                            assert(p4.after((process.again)(area)) == p5);
                            lemma_insertion_step(p5, full, mappings, process);
                            assert(p5.after((process.serial)(area, offset)) =~= behind);
                        } else {
                            assert(p4.after((process.again)(area)) =~= behind);
                        }
                    } else {
                        assert(p3.after((process.insert)(area)) =~= behind);
                    }
                } else {
                    assert(p2.after((process.find)(area)) =~= behind);
                }
            } else {
                assert(p1.after((process.open)(area)) =~= behind);
            }
        } else {
            assert(p0.after((process.private)(mappings[area as int].start)) =~= behind);
        }
    }
}

/// The steps of an insertion add the property, in order, to each of the areas that is reached and
/// does not hold it. It counts as added if and only if it is found again in one of them with a
/// serial number that fits its value.
pub proof fn law_insertion_by_steps(
    areas: Seq<usize>,
    long_flag: u32,
    value_len: nat,
    mappings: Seq<Mapping>,
    hand: Hand,
    process: Process,
)
    requires
        areas.len() <= usize::MAX,
        forall|k: int| 0 <= k < areas.len() ==> (#[trigger] areas[k]) < mappings.len(),
    ensures
        insertion_steps(Insertion::start(areas, long_flag, value_len), hand, mappings, process) == (
            process.confirms_in(areas, mappings, long_flag, value_len, 0),
            chosen(areas, |area: usize| process.lacks(mappings, area), 0),
        ),
{
    let start = Insertion::start(areas, long_flag, value_len);
    lemma_insertion_steps(start, hand, mappings, process, 0);
    assert(start.area_at(0) =~= start);
}

} // verus!
