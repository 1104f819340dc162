//! What a run over all properties comes to.
//!
//! As in [`crate::run_laws`], what the steps come to is given by a model of the process, here one
//! for each property.

use vstd::prelude::*;

use crate::areas::{mapped_at, probed_areas};
use crate::cow::{Cow, KeyOutcome, KeyStage};
use crate::insert::{
    areas_of, law_insertion_ends, law_probe_ends, lemma_probe_in_step, paths_of, siblings_of,
    InsertStage, Insertion, Probe, ProbeStage,
};
use crate::maps::Mapping;
use crate::patch::{law_patch_ends, AreaEvent, Patch, PatchResult};
use crate::run_laws::{
    adds_somewhere, chosen, law_insertion_run, law_patch_run, law_probe_run, patch_result,
    run_insertion, run_patch, run_probe, InsertWorld, PatchWorld, ProbeWorld,
};

verus! {

/// What the steps for each property come to.
pub ghost struct CowWorld {
    /// The area to which the system routes a property.
    pub route: spec_fn(Seq<char>) -> Option<Seq<char>>,
    /// What the steps of its change come to.
    pub patch: spec_fn(Seq<char>) -> PatchWorld,
    /// What the steps of the search for its siblings come to.
    pub probe: spec_fn(Seq<char>) -> ProbeWorld,
    /// What the steps of its insertion come to.
    pub insert: spec_fn(Seq<char>) -> InsertWorld,
}

impl CowWorld {
    /// The work after its next step.
    pub open spec fn next(self, cow: Cow) -> Cow {
        match cow.stage {
            KeyStage::Route => cow.routed((self.route)(cow.key())),
            KeyStage::Patch { patch, .. } => cow.after(
                (self.patch)(cow.key()).answer(patch, cow.mappings),
            ),
            KeyStage::Probe(probe) => cow.after(
                (self.probe)(cow.key()).answer(probe, cow.mappings),
            ),
            KeyStage::Insert(insertion) => cow.after(
                (self.insert)(cow.key()).answer(insertion, cow.mappings),
            ),
            KeyStage::Over => cow,
        }
    }
}

// ---------------------------------------------------------------------------
// The work stays well-formed and ends
// ---------------------------------------------------------------------------

/// The areas of some files are mapped, and there are no more of them than files.
pub(crate) proof fn lemma_areas_of(mappings: Seq<Mapping>, paths: Seq<Seq<char>>)
    requires
        mappings.len() <= usize::MAX,
    ensures
        areas_of(mappings, paths).len() <= paths.len(),
        forall|k: int|
            0 <= k < areas_of(mappings, paths).len() ==> (#[trigger] areas_of(mappings, paths)[k])
                < mappings.len(),
    decreases paths.len(),
{
    if paths.len() > 0 {
        let path = paths.last();
        lemma_areas_of(mappings, paths.drop_last());
        crate::areas::lemma_first_such(mappings, |m: Mapping| m.path == path);
    }
}

proof fn lemma_insert_into_wf(cow: Cow, areas: Seq<usize>)
    requires
        cow.ready(),
        areas.len() <= usize::MAX,
        forall|k: int| 0 <= k < areas.len() ==> (#[trigger] areas[k]) < cow.mappings.len(),
    ensures
        cow.insert_into(areas).wf(),
{
}

proof fn lemma_with_probe_wf(cow: Cow, probe: Probe)
    requires
        cow.ready(),
        probe.wf(cow.mappings),
        probe.in_step(),
    ensures
        cow.with_probe(probe).wf(),
{
    if probe.stage == ProbeStage::Over {
        let paths = paths_of(cow.mappings, probe.found);
        lemma_areas_of(cow.mappings, paths);
        let kept = Cow { cache: cow.cache.insert(cow.prefix(), paths), ..cow };
        assert(kept.ready());
        lemma_insert_into_wf(kept, areas_of(cow.mappings, paths));
    }
}

/// A search starts well.
pub(crate) proof fn lemma_probe_start(mappings: Seq<Mapping>, siblings: usize)
    requires
        mappings.len() <= usize::MAX,
    ensures
        Probe::start(mappings, siblings).wf(mappings),
        Probe::start(mappings, siblings).in_step(),
{
    let wanted = |m: Mapping| "/dev/__properties__/"@.is_prefix_of(m.path) && m.searchable();
    crate::areas::lemma_all_such(mappings, wanted);
    crate::areas::lemma_all_such_len(mappings, wanted);
}

proof fn lemma_to_insert_wf(cow: Cow, route: Option<Seq<char>>)
    requires
        cow.ready(),
    ensures
        cow.to_insert(route).wf(),
{
    match route {
        Some(path) => {
            crate::areas::lemma_first_such(cow.mappings, |m: Mapping| m.path == path);
            if let Some(area) = mapped_at(cow.mappings, path) {
                lemma_insert_into_wf(cow, seq![area]);
            }
        },
        None => {
            if cow.cache.contains_key(cow.prefix()) {
                let paths = cow.cache[cow.prefix()];
                lemma_areas_of(cow.mappings, paths);
                lemma_insert_into_wf(cow, areas_of(cow.mappings, paths));
            } else {
                let siblings = siblings_of(cow.prefix()).len() as usize;
                lemma_probe_start(cow.mappings, siblings);
                lemma_with_probe_wf(cow, Probe::start(cow.mappings, siblings));
            }
        },
    }
}

proof fn lemma_with_patch_wf(cow: Cow, patch: Patch, route: Option<Seq<char>>)
    requires
        cow.ready(),
        patch.wf(cow.mappings),
    ensures
        cow.with_patch(patch, route).wf(),
{
    lemma_to_insert_wf(cow, route);
}

impl Cow {
    /// How many areas, or steps of a change, are left at most in the work on the current property.
    pub open spec fn areas_left(self) -> int {
        match self.stage {
            KeyStage::Patch { patch, .. } => patch.left(self.mappings),
            KeyStage::Probe(probe) => match probe.area_number() {
                Some(at) => probe.areas.len() - at,
                None => 0,
            },
            KeyStage::Insert(insertion) => match insertion.area_number() {
                Some(at) => insertion.areas.len() - at,
                None => 0,
            },
            _ => 0,
        }
    }

    /// How many steps are left at most in the current area.
    pub open spec fn steps_left(self) -> int {
        match self.stage {
            KeyStage::Probe(probe) => probe.left(),
            KeyStage::Insert(insertion) => insertion.left(),
            _ => 0,
        }
    }

    /// Whether less is left to do than in other work: fewer properties, or fewer kinds of work on
    /// the current one, or fewer areas, or fewer steps.
    pub open spec fn nearer(self, other: Cow) -> bool {
        let props = self.props.len() - self.outcomes.len();
        let other_props = other.props.len() - other.outcomes.len();
        let kinds = 4 - self.stage.rank();
        let other_kinds = 4 - other.stage.rank();
        ||| 0 <= props < other_props
        ||| props == other_props && 0 <= kinds < other_kinds
        ||| props == other_props && kinds == other_kinds && 0 <= self.areas_left()
            < other.areas_left()
        ||| props == other_props && kinds == other_kinds && self.areas_left() == other.areas_left()
            && 0 <= self.steps_left() < other.steps_left()
    }
}

/// What the system tells of the route of a property brings the work nearer to its end.
pub proof fn law_route_brings_nearer(cow: Cow, route: Option<Seq<char>>)
    requires
        cow.wf(),
        cow.stage is Route,
    ensures
        cow.routed(route).wf(),
        cow.routed(route).nearer(cow),
{
    lemma_with_patch_wf(cow, Patch::start(cow.key(), cow.serial), route);
}

/// What a step on an area comes to brings the work nearer to its end.
pub proof fn law_event_brings_nearer(cow: Cow, event: AreaEvent)
    requires
        cow.wf(),
        cow.step() is Area,
    ensures
        cow.after(event).wf(),
        cow.after(event).nearer(cow),
{
    match cow.stage {
        KeyStage::Patch { patch, route } => {
            law_patch_ends(patch, cow.mappings, event);
            lemma_with_patch_wf(cow, patch.after(cow.mappings, event), route);
        },
        KeyStage::Probe(probe) => {
            law_probe_ends(probe, cow.mappings, event);
            lemma_probe_in_step(probe, cow.mappings, event);
            lemma_with_probe_wf(cow, probe.after(event));
        },
        KeyStage::Insert(insertion) => {
            law_insertion_ends(insertion, cow.mappings, event);
        },
        _ => {},
    }
}

/// Runs the work to its end.
pub open spec fn run_cow(cow: Cow, world: CowWorld) -> Cow
    decreases
            cow.props.len() - cow.outcomes.len(),
            4 - cow.stage.rank(),
            cow.areas_left(),
            cow.steps_left(),
    when cow.wf()
    via run_cow_ends
{
    if cow.stage is Over {
        cow
    } else {
        run_cow(world.next(cow), world)
    }
}

#[via_fn]
proof fn run_cow_ends(cow: Cow, world: CowWorld) {
    if !(cow.stage is Over) {
        lemma_next(cow, world);
    }
}

proof fn lemma_next(cow: Cow, world: CowWorld)
    requires
        cow.wf(),
        !(cow.stage is Over),
    ensures
        world.next(cow).wf(),
        world.next(cow).nearer(cow),
{
    match cow.stage {
        KeyStage::Route => {
            law_route_brings_nearer(cow, (world.route)(cow.key()));
        },
        KeyStage::Patch { patch, .. } => {
            law_event_brings_nearer(cow, (world.patch)(cow.key()).answer(patch, cow.mappings));
        },
        KeyStage::Probe(probe) => {
            law_event_brings_nearer(cow, (world.probe)(cow.key()).answer(probe, cow.mappings));
        },
        KeyStage::Insert(insertion) => {
            law_event_brings_nearer(cow, (world.insert)(cow.key()).answer(insertion, cow.mappings));
        },
        KeyStage::Over => {},
    }
}

/// One step of a run.
proof fn lemma_run_step(cow: Cow, world: CowWorld)
    requires
        cow.wf(),
        !(cow.stage is Over),
    ensures
        run_cow(cow, world) == run_cow(world.next(cow), world),
{
    lemma_next(cow, world);
}

// ---------------------------------------------------------------------------
// What becomes of each property
// ---------------------------------------------------------------------------

impl Cow {
    /// Whether the process cannot see the current property.
    pub open spec fn unseen(self, world: CowWorld) -> bool {
        (world.route)(self.key()) matches Some(path) && mapped_at(self.mappings, path) is None
    }

    /// What becomes of the change of the current property.
    pub open spec fn changed(self, world: CowWorld) -> PatchResult {
        patch_result(self.key(), self.serial, self.mappings, (world.patch)(self.key()))
    }

    /// The files of the areas that hold the siblings of the current property, as far as they are
    /// known or can be found.
    pub open spec fn sibling_paths(self, world: CowWorld) -> Seq<Seq<char>> {
        if self.cache.contains_key(self.prefix()) {
            self.cache[self.prefix()]
        } else {
            let siblings = siblings_of(self.prefix()).len() as usize;
            paths_of(
                self.mappings,
                chosen(
                    probed_areas(self.mappings),
                    |area: usize| (world.probe)(self.key()).finds_one(self.mappings, area, siblings),
                    0,
                ),
            )
        }
    }

    /// The areas to which the current property is to be added: the one that the system routes it
    /// to, or else those of its siblings.
    pub open spec fn targets(self, world: CowWorld) -> Seq<usize> {
        match (world.route)(self.key()) {
            Some(path) => match mapped_at(self.mappings, path) {
                Some(area) => seq![area],
                None => Seq::empty(),
            },
            None => areas_of(self.mappings, self.sibling_paths(world)),
        }
    }

    /// Whether the current property is added to some areas.
    pub open spec fn added(self, world: CowWorld, areas: Seq<usize>) -> bool {
        adds_somewhere(
            Insertion::start(
                areas,
                self.long_flag,
                vstd::utf8::encode_utf8(self.value()).len(),
            ),
            self.mappings,
            (world.insert)(self.key()),
            0,
        )
    }

    /// What becomes of the current property. It is skipped where the process cannot see it. It is
    /// changed where it is there. Where it is not, it is added to the areas that are meant for it.
    pub open spec fn outcome(self, world: CowWorld) -> KeyOutcome {
        if self.unseen(world) {
            KeyOutcome::Skipped
        } else {
            match self.changed(world) {
                PatchResult::Patched => KeyOutcome::Patched,
                PatchResult::NotThere => if self.added(world, self.targets(world)) {
                    KeyOutcome::Inserted
                } else {
                    KeyOutcome::Unfound
                },
                _ => KeyOutcome::Failed,
            }
        }
    }

    /// What is known of the areas of prefixes once the current property is worked off: the areas
    /// of its siblings, if they had to be searched for.
    pub open spec fn learned(self, world: CowWorld) -> Map<Seq<char>, Seq<Seq<char>>> {
        if !self.unseen(world) && self.changed(world) == PatchResult::NotThere && (world.route)(
            self.key(),
        ) is None && !self.cache.contains_key(self.prefix()) {
            self.cache.insert(self.prefix(), self.sibling_paths(world))
        } else {
            self.cache
        }
    }

    /// The work once the current property is worked off.
    pub open spec fn worked_off(self, world: CowWorld) -> Cow {
        Cow { cache: self.learned(world), ..self }.settled(self.outcome(world))
    }
}

/// The run from an insertion on.
proof fn lemma_run_insertion_stage(cow: Cow, insertion: Insertion, world: CowWorld)
    requires
        cow.ready(),
        insertion.wf(cow.mappings),
    ensures
        run_cow(cow.with_insertion(insertion), world) == run_cow(
            cow.settled(
                if run_insertion(insertion, cow.mappings, (world.insert)(cow.key())) {
                    KeyOutcome::Inserted
                } else {
                    KeyOutcome::Unfound
                },
            ),
            world,
        ),
    decreases
            match insertion.area_number() {
                Some(at) => insertion.areas.len() - at,
                None => 0,
            },
            insertion.left(),
{
    if insertion.stage != InsertStage::Over {
        let here = cow.with_insertion(insertion);
        let inner = (world.insert)(cow.key());
        let event = inner.answer(insertion, cow.mappings);
        assert(here.key() == cow.key());
        assert(here.wf());
        law_insertion_ends(insertion, cow.mappings, event);
        lemma_run_insertion_stage(cow, insertion.after(event), world);
        assert(world.next(here) =~= cow.with_insertion(insertion.after(event)));
    }
}

/// The run from the insertion into some areas on.
proof fn lemma_run_insert_into(cow: Cow, areas: Seq<usize>, world: CowWorld)
    requires
        cow.ready(),
        areas.len() <= usize::MAX,
        forall|k: int| 0 <= k < areas.len() ==> (#[trigger] areas[k]) < cow.mappings.len(),
    ensures
        run_cow(cow.insert_into(areas), world) == run_cow(
            cow.settled(
                if cow.added(world, areas) {
                    KeyOutcome::Inserted
                } else {
                    KeyOutcome::Unfound
                },
            ),
            world,
        ),
{
    let n = vstd::utf8::encode_utf8(cow.value()).len();
    let start = Insertion::start(areas, cow.long_flag, n);
    lemma_run_insertion_stage(cow, start, world);
    law_insertion_run(areas, cow.long_flag, n, cow.mappings, (world.insert)(cow.key()));
}

/// The search that is over, with the areas that it finds.
spec fn probe_end(probe: Probe, mappings: Seq<Mapping>, world: ProbeWorld) -> Probe {
    Probe { stage: ProbeStage::Over, found: run_probe(probe, mappings, world), ..probe }
}

/// The run from a search for siblings on.
proof fn lemma_run_probe_stage(cow: Cow, probe: Probe, world: CowWorld)
    requires
        cow.ready(),
        probe.wf(cow.mappings),
        probe.in_step(),
    ensures
        run_cow(cow.with_probe(probe), world) == run_cow(
            cow.with_probe(probe_end(probe, cow.mappings, (world.probe)(cow.key()))),
            world,
        ),
        probe_end(probe, cow.mappings, (world.probe)(cow.key())).wf(cow.mappings),
        probe_end(probe, cow.mappings, (world.probe)(cow.key())).in_step(),
    decreases
            match probe.area_number() {
                Some(at) => probe.areas.len() - at,
                None => 0,
            },
            probe.left(),
{
    let inner = (world.probe)(cow.key());
    if probe.stage != ProbeStage::Over {
        let here = cow.with_probe(probe);
        let event = inner.answer(probe, cow.mappings);
        let after = probe.after(event);
        assert(here.key() == cow.key());
        assert(here.wf());
        law_probe_ends(probe, cow.mappings, event);
        lemma_probe_in_step(probe, cow.mappings, event);
        lemma_run_probe_stage(cow, after, world);
        assert(here.prefix() == cow.prefix());
        assert(world.next(here) == here.with_probe(after));
        assert(here.with_probe(after) =~= cow.with_probe(after));
        lemma_run_step(here, world);
        assert(run_probe(probe, cow.mappings, inner) == run_probe(after, cow.mappings, inner));
        assert(probe_end(probe, cow.mappings, inner) =~= probe_end(after, cow.mappings, inner));
    } else {
        assert(probe_end(probe, cow.mappings, inner) =~= probe);
    }
}

/// The run from the point on where the current property is to be added.
proof fn lemma_run_to_insert(cow: Cow, world: CowWorld)
    requires
        cow.ready(),
        !cow.unseen(world),
        cow.changed(world) == PatchResult::NotThere,
    ensures
        run_cow(cow.to_insert((world.route)(cow.key())), world) == run_cow(
            cow.worked_off(world),
            world,
        ),
{
    let areas = cow.targets(world);
    match (world.route)(cow.key()) {
        Some(path) => {
            crate::areas::lemma_first_such(cow.mappings, |m: Mapping| m.path == path);
            lemma_run_insert_into(cow, areas, world);
            assert(Cow { cache: cow.learned(world), ..cow } =~= cow);
        },
        None => {
            let paths = cow.sibling_paths(world);
            if cow.cache.contains_key(cow.prefix()) {
                lemma_areas_of(cow.mappings, paths);
                lemma_run_insert_into(cow, areas, world);
                assert(Cow { cache: cow.learned(world), ..cow } =~= cow);
            } else {
                let siblings = siblings_of(cow.prefix()).len() as usize;
                let start = Probe::start(cow.mappings, siblings);
                let inner = (world.probe)(cow.key());
                lemma_probe_start(cow.mappings, siblings);
                lemma_run_probe_stage(cow, start, world);
                law_probe_run(cow.mappings, siblings, inner);
                let end = probe_end(start, cow.mappings, inner);
                let kept = Cow { cache: cow.learned(world), ..cow };
                assert(paths == paths_of(cow.mappings, end.found));
                lemma_areas_of(cow.mappings, paths);
                assert(kept.ready());
                assert(kept.key() == cow.key() && kept.value() == cow.value());
                lemma_run_insert_into(kept, areas, world);
                assert(cow.with_probe(end) =~= kept.insert_into(areas));
                assert(kept.added(world, areas) == cow.added(world, areas));
            }
        },
    }
}

/// The run from a change on.
proof fn lemma_run_patch_stage(
    cow: Cow,
    patch: Patch,
    route: Option<Seq<char>>,
    world: CowWorld,
)
    requires
        cow.ready(),
        patch.wf(cow.mappings),
    ensures
        run_cow(cow.with_patch(patch, route), world) == run_cow(
            cow.with_patch(
                patch.over(run_patch(patch, cow.mappings, (world.patch)(cow.key())).0),
                route,
            ),
            world,
        ),
    decreases patch.left(cow.mappings),
{
    let inner = (world.patch)(cow.key());
    if !(patch.stage is Over) {
        let here = cow.with_patch(patch, route);
        let event = inner.answer(patch, cow.mappings);
        let after = patch.after(cow.mappings, event);
        assert(here.key() == cow.key());
        assert(here.prefix() == cow.prefix());
        assert(here.value() == cow.value());
        assert(here.wf());
        law_patch_ends(patch, cow.mappings, event);
        lemma_run_patch_stage(cow, after, route, world);
        lemma_run_step(here, world);
        assert(world.next(here) == here.with_patch(after, route));
        lemma_stage_does_not_matter(cow, here, after, route);
        assert(run_patch(patch, cow.mappings, inner).0 == run_patch(
            after,
            cow.mappings,
            inner,
        ).0);
        let result = run_patch(after, cow.mappings, inner).0;
        lemma_stage_does_not_matter(cow, here, after.over(result), route);
        lemma_result_is_enough(cow, patch.over(result), after.over(result), route);
    } else {
        let result = run_patch(patch, cow.mappings, inner).0;
        assert(patch.over(result).stage == patch.stage);
        lemma_result_is_enough(cow, patch.over(result), patch, route);
    }
}

/// How the work goes on with a change does not depend on how far it was before.
pub(crate) proof fn lemma_stage_does_not_matter(cow: Cow, here: Cow, patch: Patch, route: Option<Seq<char>>)
    requires
        here == (Cow { stage: here.stage, ..cow }),
    ensures
        here.with_patch(patch, route) == cow.with_patch(patch, route),
{
    assert(here.key() == cow.key());
    assert(here.prefix() == cow.prefix());
    assert(here.value() == cow.value());
    assert(here.to_insert(route) =~= cow.to_insert(route));
    assert(here.with_patch(patch, route) =~= cow.with_patch(patch, route));
}

/// How the work goes on behind a change depends on its result alone.
pub(crate) proof fn lemma_result_is_enough(cow: Cow, a: Patch, b: Patch, route: Option<Seq<char>>)
    requires
        a.stage is Over,
        a.stage == b.stage,
    ensures
        cow.with_patch(a, route) == cow.with_patch(b, route),
{
}

/// The work on a property comes to what the model of the process says.
pub proof fn law_property_is_worked_off(cow: Cow, world: CowWorld)
    requires
        cow.wf(),
        cow.stage is Route,
    ensures
        run_cow(cow, world) == run_cow(cow.worked_off(world), world),
        cow.worked_off(world).wf(),
{
    let route = (world.route)(cow.key());
    let kept = Cow { cache: cow.learned(world), ..cow };
    assert(kept.ready()) by {
        if cow.learned(world) != cow.cache {
            let siblings = siblings_of(cow.prefix()).len() as usize;
            let inner = (world.probe)(cow.key());
            lemma_probe_start(cow.mappings, siblings);
            lemma_run_probe_stage(cow, Probe::start(cow.mappings, siblings), world);
            law_probe_run(cow.mappings, siblings, inner);
        }
    }
    assert(run_cow(cow, world) == run_cow(cow.routed(route), world));
    if !cow.unseen(world) {
        let patch = Patch::start(cow.key(), cow.serial);
        lemma_run_patch_stage(cow, patch, route, world);
        law_patch_run(cow.key(), cow.serial, cow.mappings, (world.patch)(cow.key()));
        if cow.changed(world) == PatchResult::NotThere {
            lemma_run_to_insert(cow, world);
        } else {
            assert(kept =~= cow);
        }
    } else {
        assert(kept =~= cow);
    }
}

/// The work once the first `n` properties are worked off.
pub open spec fn after_properties(cow: Cow, world: CowWorld, n: nat) -> Cow
    decreases n,
{
    if n == 0 {
        cow
    } else {
        after_properties(cow, world, (n - 1) as nat).worked_off(world)
    }
}

proof fn lemma_after_properties(cow: Cow, world: CowWorld, n: nat)
    requires
        cow.wf(),
        cow == cow.next_key(),
        cow.outcomes.len() == 0,
        n <= cow.props.len(),
    ensures
        after_properties(cow, world, n).wf(),
        after_properties(cow, world, n) == after_properties(cow, world, n).next_key(),
        after_properties(cow, world, n).props == cow.props,
        after_properties(cow, world, n).outcomes.len() == n,
        run_cow(cow, world) == run_cow(after_properties(cow, world, n), world),
        forall|i: int|
            0 <= i < n ==> #[trigger] after_properties(cow, world, n).outcomes[i]
                == after_properties(cow, world, i as nat).outcome(world),
    decreases n,
{
    if n > 0 {
        let before = after_properties(cow, world, (n - 1) as nat);
        lemma_after_properties(cow, world, (n - 1) as nat);
        law_property_is_worked_off(before, world);
        let now = after_properties(cow, world, n);
        assert(now.outcomes == before.outcomes.push(before.outcome(world)));
        assert forall|i: int| 0 <= i < n implies #[trigger] now.outcomes[i] == after_properties(
            cow,
            world,
            i as nat,
        ).outcome(world) by {
            if i < n - 1 {
                assert(now.outcomes[i] == before.outcomes[i]);
            }
        }
    }
}

/// A run over all properties ends with an outcome for each of them, and it is the one that the
/// model of the process gives for it, with what was learned from the properties before it.
pub proof fn law_cow_run(
    props: Seq<(Seq<char>, Seq<char>)>,
    mappings: Seq<Mapping>,
    serial: bool,
    long_flag: u32,
    cache: Map<Seq<char>, Seq<Seq<char>>>,
    world: CowWorld,
)
    requires
        Cow::start(props, mappings, serial, long_flag, cache).sound(),
    ensures
        ({
            let start = Cow::start(props, mappings, serial, long_flag, cache);
            let end = run_cow(start, world);
            &&& end.stage is Over
            &&& end.props == props
            &&& end.outcomes.len() == props.len()
            &&& forall|i: int|
                0 <= i < props.len() ==> #[trigger] end.outcomes[i] == after_properties(
                    start,
                    world,
                    i as nat,
                ).outcome(world)
        }),
{
    let start = Cow::start(props, mappings, serial, long_flag, cache);
    assert(start.wf());
    lemma_after_properties(start, world, props.len());
}

} // verus!
