//! What becomes of each property when the steps that are asked for are carried out as they are
//! named.
//!
//! As in [`crate::step_laws`], the process knows nothing of why a step is asked for.

use vstd::prelude::*;

use crate::areas::{mapped_at, probed_areas};
use crate::cow::{routed_path, Cow, KeyOutcome, Work};
use crate::cow_laws::{
    law_event_brings_nearer, law_route_brings_nearer, lemma_areas_of, lemma_probe_start,
    lemma_result_is_enough, lemma_stage_does_not_matter,
};
use crate::insert::{
    areas_of, law_insertion_ends, law_probe_ends, lemma_probe_in_step, paths_of, siblings_of,
    InsertStage, Insertion, Probe, ProbeStage,
};
use crate::maps::Mapping;
use crate::patch::{law_patch_ends, Patch, PatchResult};
use crate::run_laws::chosen;
use crate::step_laws::{
    hand_after, insertion_steps, law_insertion_by_steps, law_patch_by_steps, law_probe_by_steps,
    patch_end, patch_steps, probe_steps, Hand, Process,
};
use crate::text;

verus! {

/// What the system and the process tell of each property.
pub ghost struct Host {
    /// The file that the system names for a property.
    pub file: spec_fn(Seq<char>) -> Option<Seq<char>>,
    /// What the steps for a property come to.
    pub process: spec_fn(Seq<char>) -> Process,
}

impl Host {
    /// The area that the system routes a property to: the file that it names, if that is one of
    /// the property areas.
    pub open spec fn route(self, key: Seq<char>) -> Option<Seq<char>> {
        match (self.file)(key) {
            Some(path) => if "/dev/__properties__/"@.is_prefix_of(path) {
                Some(path)
            } else {
                None
            },
            None => None,
        }
    }
}

/// The file that is named for a property counts only where it is one of the property areas.
pub proof fn law_route_of_a_property(found: Option<String>)
    ensures
        found is None ==> routed_path(found) is None,
        found is Some && "/dev/__properties__/"@.is_prefix_of(found->0@) ==> routed_path(found)
            == Some(found->0@),
        found is Some && !"/dev/__properties__/"@.is_prefix_of(found->0@) ==> routed_path(
            found,
        ) is None,
{
}

/// Carries out the steps of the work to its end.
pub open spec fn cow_steps(cow: Cow, hand: Hand, host: Host) -> Cow
    decreases
            cow.props.len() - cow.outcomes.len(),
            4 - cow.stage.rank(),
            cow.areas_left(),
            cow.steps_left(),
    when cow.wf()
    via cow_steps_end
{
    match cow.step() {
        Work::Finished => cow,
        Work::Route(key) => cow_steps(cow.routed(host.route(key)), hand, host),
        Work::Area(step) => cow_steps(
            cow.after((host.process)(cow.key()).reply(step, hand)),
            hand_after(hand, step),
            host,
        ),
    }
}

#[via_fn]
proof fn cow_steps_end(cow: Cow, hand: Hand, host: Host) {
    match cow.step() {
        Work::Finished => {},
        Work::Route(key) => {
            law_route_brings_nearer(cow, host.route(key));
        },
        Work::Area(step) => {
            law_event_brings_nearer(cow, (host.process)(cow.key()).reply(step, hand));
        },
    }
}

/// One step on an area.
proof fn lemma_area_step(cow: Cow, hand: Hand, host: Host)
    requires
        cow.wf(),
        cow.step() is Area,
    ensures
        cow_steps(cow, hand, host) == cow_steps(
            cow.after((host.process)(cow.key()).reply(cow.step()->Area_0, hand)),
            hand_after(hand, cow.step()->Area_0),
            host,
        ),
{
    law_event_brings_nearer(cow, (host.process)(cow.key()).reply(cow.step()->Area_0, hand));
}

// ---------------------------------------------------------------------------
// What is to become of a property
// ---------------------------------------------------------------------------

/// The part of a name before its last dot.
pub open spec fn prefix_of(key: Seq<char>) -> Seq<char> {
    text::before_last(key, '.')
}

/// The files of the areas that hold the siblings of a property: those that are known for its
/// prefix, or else those in which one of its siblings is found.
pub open spec fn sibling_files(
    key: Seq<char>,
    mappings: Seq<Mapping>,
    cache: Map<Seq<char>, Seq<Seq<char>>>,
    process: Process,
) -> Seq<Seq<char>> {
    if cache.contains_key(prefix_of(key)) {
        cache[prefix_of(key)]
    } else {
        paths_of(
            mappings,
            chosen(
                probed_areas(mappings),
                |area: usize|
                    process.reached(mappings, area) && process.shows_sibling(
                        area,
                        0,
                        siblings_of(prefix_of(key)).len() as usize,
                    ),
                0,
            ),
        )
    }
}

/// The areas to which a property is added that is not there: the one that the system routes it to,
/// or else those of its siblings.
pub open spec fn meant_areas(
    key: Seq<char>,
    mappings: Seq<Mapping>,
    cache: Map<Seq<char>, Seq<Seq<char>>>,
    host: Host,
) -> Seq<usize> {
    match host.route(key) {
        Some(path) => match mapped_at(mappings, path) {
            Some(area) => seq![area],
            None => Seq::empty(),
        },
        None => areas_of(mappings, sibling_files(key, mappings, cache, (host.process)(key))),
    }
}

/// Whether the system routes a property to an area that is not mapped.
pub open spec fn out_of_sight(key: Seq<char>, mappings: Seq<Mapping>, host: Host) -> bool {
    host.route(key) matches Some(path) && mapped_at(mappings, path) is None
}

/// What becomes of a property. Where the process cannot see it, it is skipped. Where it is there,
/// it is changed. Where it is not, it is added, and the length of its value in UTF-8 has to fit.
pub open spec fn property_end(
    prop: (Seq<char>, Seq<char>),
    mappings: Seq<Mapping>,
    serial: bool,
    long_flag: u32,
    cache: Map<Seq<char>, Seq<Seq<char>>>,
    host: Host,
) -> KeyOutcome {
    let key = prop.0;
    let process = (host.process)(key);
    if out_of_sight(key, mappings, host) {
        KeyOutcome::Skipped
    } else {
        match patch_end(key, serial, mappings, process).0 {
            PatchResult::Patched => KeyOutcome::Patched,
            PatchResult::NotThere => if process.confirms_in(
                meant_areas(key, mappings, cache, host),
                mappings,
                long_flag,
                vstd::utf8::encode_utf8(prop.1).len(),
                0,
            ) {
                KeyOutcome::Inserted
            } else {
                KeyOutcome::Unfound
            },
            _ => KeyOutcome::Failed,
        }
    }
}

/// What is known of the areas of prefixes after a property: those of its siblings, if they had to
/// be searched for.
pub open spec fn known_after(
    key: Seq<char>,
    mappings: Seq<Mapping>,
    serial: bool,
    cache: Map<Seq<char>, Seq<Seq<char>>>,
    host: Host,
) -> Map<Seq<char>, Seq<Seq<char>>> {
    let process = (host.process)(key);
    if !out_of_sight(key, mappings, host) && patch_end(key, serial, mappings, process).0
        == PatchResult::NotThere && host.route(key) is None && !cache.contains_key(
        prefix_of(key),
    ) {
        cache.insert(prefix_of(key), sibling_files(key, mappings, cache, process))
    } else {
        cache
    }
}

/// What is known of the areas of prefixes before the property with the given number.
pub open spec fn known_before(
    props: Seq<(Seq<char>, Seq<char>)>,
    mappings: Seq<Mapping>,
    serial: bool,
    cache: Map<Seq<char>, Seq<Seq<char>>>,
    host: Host,
    i: nat,
) -> Map<Seq<char>, Seq<Seq<char>>>
    decreases i,
{
    if i == 0 {
        cache
    } else {
        known_after(
            props[i - 1].0,
            mappings,
            serial,
            known_before(props, mappings, serial, cache, host, (i - 1) as nat),
            host,
        )
    }
}

// ---------------------------------------------------------------------------
// The steps for one property
// ---------------------------------------------------------------------------

proof fn lemma_insertion_stage(cow: Cow, insertion: Insertion, hand: Hand, host: Host) -> (end: Hand)
    requires
        cow.ready(),
        insertion.wf(cow.mappings),
    ensures
        cow_steps(cow.with_insertion(insertion), hand, host) == cow_steps(
            cow.settled(
                if insertion_steps(insertion, hand, cow.mappings, (host.process)(cow.key())).0 {
                    KeyOutcome::Inserted
                } else {
                    KeyOutcome::Unfound
                },
            ),
            end,
            host,
        ),
    decreases
            match insertion.area_number() {
                Some(at) => insertion.areas.len() - at,
                None => 0,
            },
            insertion.left(),
{
    if insertion.stage != InsertStage::Over {
        let here = cow.with_insertion(insertion);
        let process = (host.process)(cow.key());
        let step = insertion.step(cow.mappings);
        let event = process.reply(step, hand);
        assert(here.key() == cow.key());
        assert(here.wf());
        law_insertion_ends(insertion, cow.mappings, event);
        let end = lemma_insertion_stage(cow, insertion.after(event), hand_after(hand, step), host);
        lemma_area_step(here, hand, host);
        assert(here.after(event) =~= cow.with_insertion(insertion.after(event)));
        end
    } else {
        hand
    }
}

proof fn lemma_insert_into(cow: Cow, areas: Seq<usize>, hand: Hand, host: Host) -> (end: Hand)
    requires
        cow.ready(),
        areas.len() <= usize::MAX,
        forall|k: int| 0 <= k < areas.len() ==> (#[trigger] areas[k]) < cow.mappings.len(),
    ensures
        cow_steps(cow.insert_into(areas), hand, host) == cow_steps(
            cow.settled(
                if (host.process)(cow.key()).confirms_in(
                    areas,
                    cow.mappings,
                    cow.long_flag,
                    vstd::utf8::encode_utf8(cow.value()).len(),
                    0,
                ) {
                    KeyOutcome::Inserted
                } else {
                    KeyOutcome::Unfound
                },
            ),
            end,
            host,
        ),
{
    let n = vstd::utf8::encode_utf8(cow.value()).len();
    let start = Insertion::start(areas, cow.long_flag, n);
    let end = lemma_insertion_stage(cow, start, hand, host);
    law_insertion_by_steps(areas, cow.long_flag, n, cow.mappings, hand, (host.process)(cow.key()));
    end
}

/// The search that is over, with the areas that its steps find.
spec fn search_end(probe: Probe, hand: Hand, mappings: Seq<Mapping>, process: Process) -> Probe {
    Probe { stage: ProbeStage::Over, found: probe_steps(probe, hand, mappings, process), ..probe }
}

proof fn lemma_probe_stage(cow: Cow, probe: Probe, hand: Hand, host: Host) -> (end: Hand)
    requires
        cow.ready(),
        probe.wf(cow.mappings),
        probe.in_step(),
    ensures
        cow_steps(cow.with_probe(probe), hand, host) == cow_steps(
            cow.with_probe(search_end(probe, hand, cow.mappings, (host.process)(cow.key()))),
            end,
            host,
        ),
        search_end(probe, hand, cow.mappings, (host.process)(cow.key())).wf(cow.mappings),
        search_end(probe, hand, cow.mappings, (host.process)(cow.key())).in_step(),
    decreases
            match probe.area_number() {
                Some(at) => probe.areas.len() - at,
                None => 0,
            },
            probe.left(),
{
    let process = (host.process)(cow.key());
    if probe.stage != ProbeStage::Over {
        let here = cow.with_probe(probe);
        let step = probe.step(cow.mappings);
        let event = process.reply(step, hand);
        let after = probe.after(event);
        let next = hand_after(hand, step);
        assert(here.key() == cow.key());
        assert(here.prefix() == cow.prefix());
        assert(here.wf());
        law_probe_ends(probe, cow.mappings, event);
        lemma_probe_in_step(probe, cow.mappings, event);
        let end = lemma_probe_stage(cow, after, next, host);
        lemma_area_step(here, hand, host);
        assert(here.after(event) == here.with_probe(after));
        assert(here.with_probe(after) =~= cow.with_probe(after));
        assert(probe_steps(probe, hand, cow.mappings, process) == probe_steps(
            after,
            next,
            cow.mappings,
            process,
        ));
        assert(search_end(probe, hand, cow.mappings, process) =~= search_end(
            after,
            next,
            cow.mappings,
            process,
        ));
        end
    } else {
        assert(search_end(probe, hand, cow.mappings, process) =~= probe);
        hand
    }
}

proof fn lemma_patch_stage(
    cow: Cow,
    patch: Patch,
    route: Option<Seq<char>>,
    hand: Hand,
    host: Host,
) -> (end: Hand)
    requires
        cow.ready(),
        patch.wf(cow.mappings),
    ensures
        cow_steps(cow.with_patch(patch, route), hand, host) == cow_steps(
            cow.with_patch(
                patch.over(patch_steps(patch, hand, cow.mappings, (host.process)(cow.key())).0),
                route,
            ),
            end,
            host,
        ),
    decreases patch.left(cow.mappings),
{
    let process = (host.process)(cow.key());
    if !(patch.stage is Over) {
        let here = cow.with_patch(patch, route);
        let step = patch.step(cow.mappings);
        let event = process.reply(step, hand);
        let next = hand_after(hand, step);
        let after = patch.after(cow.mappings, event);
        assert(here.key() == cow.key());
        assert(here.prefix() == cow.prefix());
        assert(here.value() == cow.value());
        assert(here.wf());
        law_patch_ends(patch, cow.mappings, event);
        let end = lemma_patch_stage(cow, after, route, next, host);
        lemma_area_step(here, hand, host);
        assert(here.after(event) == here.with_patch(after, route));
        lemma_stage_does_not_matter(cow, here, after, route);
        let result = patch_steps(after, next, cow.mappings, process).0;
        assert(patch_steps(patch, hand, cow.mappings, process).0 == result);
        lemma_stage_does_not_matter(cow, here, after.over(result), route);
        lemma_result_is_enough(cow, patch.over(result), after.over(result), route);
        end
    } else {
        let result = patch_steps(patch, hand, cow.mappings, process).0;
        law_patch_ends(patch, cow.mappings, process.lookup);
        assert(patch.over(result).stage == patch.stage);
        lemma_result_is_enough(cow, patch.over(result), patch, route);
        hand
    }
}

proof fn lemma_to_insert(cow: Cow, hand: Hand, host: Host) -> (end: Hand)
    requires
        cow.ready(),
        !out_of_sight(cow.key(), cow.mappings, host),
        patch_end(cow.key(), cow.serial, cow.mappings, (host.process)(cow.key())).0
            == PatchResult::NotThere,
    ensures
        ({
            let learned = known_after(cow.key(), cow.mappings, cow.serial, cow.cache, host);
            let outcome = property_end(
                (cow.key(), cow.value()),
                cow.mappings,
                cow.serial,
                cow.long_flag,
                cow.cache,
                host,
            );
            &&& cow_steps(cow.to_insert(host.route(cow.key())), hand, host) == cow_steps(
                (Cow { cache: learned, ..cow }).settled(outcome),
                end,
                host,
            )
            &&& (Cow { cache: learned, ..cow }).ready()
        }),
{
    let key = cow.key();
    let process = (host.process)(key);
    let areas = meant_areas(key, cow.mappings, cow.cache, host);
    let learned = known_after(key, cow.mappings, cow.serial, cow.cache, host);
    assert(cow.prefix() == prefix_of(key));
    match host.route(key) {
        Some(path) => {
            crate::areas::lemma_first_such(cow.mappings, |m: Mapping| m.path == path);
            assert(Cow { cache: learned, ..cow } =~= cow);
            lemma_insert_into(cow, areas, hand, host)
        },
        None => {
            let paths = sibling_files(key, cow.mappings, cow.cache, process);
            if cow.cache.contains_key(cow.prefix()) {
                lemma_areas_of(cow.mappings, paths);
                assert(Cow { cache: learned, ..cow } =~= cow);
                lemma_insert_into(cow, areas, hand, host)
            } else {
                let siblings = siblings_of(cow.prefix()).len() as usize;
                let start = Probe::start(cow.mappings, siblings);
                lemma_probe_start(cow.mappings, siblings);
                let middle = lemma_probe_stage(cow, start, hand, host);
                law_probe_by_steps(cow.mappings, siblings, hand, process);
                let over = search_end(start, hand, cow.mappings, process);
                let kept = Cow { cache: learned, ..cow };
                assert(paths == paths_of(cow.mappings, over.found));
                lemma_areas_of(cow.mappings, paths);
                assert(kept.ready());
                assert(kept.key() == cow.key() && kept.value() == cow.value());
                assert(cow.with_probe(over) =~= kept.insert_into(areas));
                lemma_insert_into(kept, areas, middle, host)
            }
        },
    }
}

/// The steps for a property come to [`property_end`], and the work goes on with the next one.
pub proof fn law_property_by_steps(cow: Cow, hand: Hand, host: Host) -> (end: Hand)
    requires
        cow.wf(),
        cow.stage is Route,
    ensures
        ({
            let prop = cow.props[cow.outcomes.len() as int];
            let next = (Cow {
                cache: known_after(prop.0, cow.mappings, cow.serial, cow.cache, host),
                ..cow
            }).settled(
                property_end(prop, cow.mappings, cow.serial, cow.long_flag, cow.cache, host),
            );
            &&& cow_steps(cow, hand, host) == cow_steps(next, end, host)
            &&& next.wf()
        }),
{
    let key = cow.key();
    let process = (host.process)(key);
    let route = host.route(key);
    let learned = known_after(key, cow.mappings, cow.serial, cow.cache, host);
    law_route_brings_nearer(cow, route);
    assert(cow_steps(cow, hand, host) == cow_steps(cow.routed(route), hand, host));
    if out_of_sight(key, cow.mappings, host) {
        assert(Cow { cache: learned, ..cow } =~= cow);
        hand
    } else {
        let patch = Patch::start(key, cow.serial);
        let middle = lemma_patch_stage(cow, patch, route, hand, host);
        law_patch_by_steps(key, cow.serial, cow.mappings, hand, process);
        if patch_end(key, cow.serial, cow.mappings, process).0 == PatchResult::NotThere {
            lemma_to_insert(cow, middle, host)
        } else {
            assert(Cow { cache: learned, ..cow } =~= cow);
            middle
        }
    }
}

proof fn lemma_cow_steps(
    cow: Cow,
    cache: Map<Seq<char>, Seq<Seq<char>>>,
    hand: Hand,
    host: Host,
)
    requires
        cow.wf(),
        cow == cow.next_key(),
        cow.cache == known_before(
            cow.props,
            cow.mappings,
            cow.serial,
            cache,
            host,
            cow.outcomes.len(),
        ),
    ensures
        ({
            let end = cow_steps(cow, hand, host);
            &&& end.stage is Over
            &&& end.props == cow.props
            &&& end.outcomes.len() == cow.props.len()
            &&& cow.outcomes.is_prefix_of(end.outcomes)
            &&& end.cache == known_before(
                cow.props,
                cow.mappings,
                cow.serial,
                cache,
                host,
                cow.props.len(),
            )
            &&& forall|i: int|
                cow.outcomes.len() <= i < cow.props.len() ==> #[trigger] end.outcomes[i]
                    == property_end(
                    cow.props[i],
                    cow.mappings,
                    cow.serial,
                    cow.long_flag,
                    known_before(cow.props, cow.mappings, cow.serial, cache, host, i as nat),
                    host,
                )
        }),
    decreases cow.props.len() - cow.outcomes.len(),
{
    let n = cow.outcomes.len() as int;
    if n < cow.props.len() {
        let prop = cow.props[n];
        let next_hand = law_property_by_steps(cow, hand, host);
        let outcome = property_end(
            prop,
            cow.mappings,
            cow.serial,
            cow.long_flag,
            cow.cache,
            host,
        );
        let next = (Cow {
            cache: known_after(prop.0, cow.mappings, cow.serial, cow.cache, host),
            ..cow
        }).settled(outcome);
        assert(next.outcomes == cow.outcomes.push(outcome));
        lemma_cow_steps(next, cache, next_hand, host);
        let end = cow_steps(cow, hand, host);
        assert(end.outcomes[n] == next.outcomes[n]);
        assert forall|i: int| 0 <= i < n implies end.outcomes[i] == cow.outcomes[i] by {
            assert(next.outcomes[i] == cow.outcomes[i]);
        }
        assert(cow.outcomes =~= end.outcomes.subrange(0, n));
    } else {
        assert(cow.outcomes =~= cow.outcomes.subrange(0, n));
    }
}

/// Carrying out the steps that are asked for, to the end, settles every property in order, and
/// each one as [`property_end`] says, with what was learned from the properties before it. What
/// was learned is kept.
pub proof fn law_cow_by_steps(
    props: Seq<(Seq<char>, Seq<char>)>,
    mappings: Seq<Mapping>,
    serial: bool,
    long_flag: u32,
    cache: Map<Seq<char>, Seq<Seq<char>>>,
    hand: Hand,
    host: Host,
)
    requires
        Cow::start(props, mappings, serial, long_flag, cache).sound(),
    ensures
        ({
            let end = cow_steps(
                Cow::start(props, mappings, serial, long_flag, cache),
                hand,
                host,
            );
            &&& end.step() is Finished
            &&& end.outcomes.len() == props.len()
            &&& end.cache == known_before(props, mappings, serial, cache, host, props.len())
            &&& forall|i: int|
                0 <= i < props.len() ==> #[trigger] end.outcomes[i] == property_end(
                    props[i],
                    mappings,
                    serial,
                    long_flag,
                    known_before(props, mappings, serial, cache, host, i as nat),
                    host,
                )
        }),
{
    let start = Cow::start(props, mappings, serial, long_flag, cache);
    assert(start.wf());
    lemma_cow_steps(start, cache, hand, host);
}

} // verus!
