//! Giving properties new values in the memory of one process only.
//!
//! The properties are worked off one after the other. [`CowSpoof::next_step`] names the step to
//! carry out, and [`CowSpoof::report_route`] or [`CowSpoof::report`] takes what came of it.

use vstd::prelude::*;

use crate::areas::{context_area_path, mapped_at, mapping_of_path};
use crate::insert::{
    areas_of, lemma_probe_in_step, paths_of, sibling_probes, siblings_of, target_areas, AreaProbe, InsertStage,
    Insertion, Probe, ProbeStage, TrieInsert,
};
use crate::maps::{mapping_views, Mapping, PropAreaMapping};
use crate::patch::{AreaEvent, AreaStep, Patch, PatchExisting, PatchResult, PatchStage};
use crate::string_map::{has_key, law_put_then_lookup, lookup, PropertyMap, StringMap};
use crate::text;
use crate::text_laws::law_before_last;

verus! {

/// The areas that are known to hold the properties with a prefix.
#[derive(Debug)]
pub struct PrefixCache {
    areas: StringMap<Vec<String>>,
}

impl View for PrefixCache {
    type V = Map<Seq<char>, Seq<Seq<char>>>;

    closed spec fn view(&self) -> Map<Seq<char>, Seq<Seq<char>>> {
        Map::new(
            |prefix: Seq<char>| has_key(self.areas.entries(), prefix),
            |prefix: Seq<char>| text::views(lookup(self.areas.entries(), prefix)->0@),
        )
    }
}

impl PrefixCache {
    /// The lists are kept in memory.
    proof fn lemma_fits(self)
        ensures
            cache_fits(self@),
    {
        assert forall|prefix: Seq<char>| self@.contains_key(prefix) implies (
        #[trigger] self@[prefix]).len() <= usize::MAX by {
            let paths = lookup(self.areas.entries(), prefix)->0;
            assert(paths.len() <= usize::MAX);
        }
    }

    /// Nothing is known yet.
    pub fn new() -> (out: Self)
        ensures
            out@ == Map::<Seq<char>, Seq<Seq<char>>>::empty(),
    {
        let out = PrefixCache { areas: StringMap::new() };
        assert(out@ =~= Map::<Seq<char>, Seq<Seq<char>>>::empty());
        out
    }

    /// The files of the areas that are known for a prefix.
    pub fn get(&self, prefix: &str) -> (out: Option<Vec<String>>)
        ensures
            match out {
                Some(paths) => self@.contains_key(prefix@) && self@[prefix@] == text::views(paths@),
                None => !self@.contains_key(prefix@),
            },
    {
        match self.areas.get(prefix) {
            Some(paths) => Some(text::copy_list(paths)),
            None => None,
        }
    }

    /// Notes the files of the areas for a prefix.
    pub fn insert(&mut self, prefix: String, paths: Vec<String>)
        ensures
            final(self)@ == old(self)@.insert(prefix@, text::views(paths@)),
    {
        let ghost before = self.areas.entries();
        proof {
            use_type_invariant(&self.areas);
        }
        let ghost name = prefix@;
        self.areas.insert(prefix, paths);
        proof {
            assert forall|k: Seq<char>| #[trigger]
                has_key(self.areas.entries(), k) == (has_key(before, k) || k == name) by {
                law_put_then_lookup(before, name, paths, k);
            }
            assert forall|k: Seq<char>|
                has_key(self.areas.entries(), k) implies #[trigger] lookup(self.areas.entries(), k)
                == if k == name {
                Some(paths)
            } else {
                lookup(before, k)
            } by {
                law_put_then_lookup(before, name, paths, k);
            }
            assert(self@ =~= old(self)@.insert(name, text::views(paths@)));
        }
    }
}

/// What became of a property.
#[derive(Debug, Clone, Copy, PartialEq, Eq, Structural)]
pub enum KeyOutcome {
    /// The process cannot see the property, whatever its value is.
    Skipped,
    /// The property was changed.
    Patched,
    /// The property was added.
    Inserted,
    /// The property is not there and could not be added.
    Unfound,
    /// The property is there and could not be changed.
    Failed,
}

impl KeyOutcome {
    /// Whether the property is left to others.
    pub open spec fn left_over(self) -> bool {
        self == KeyOutcome::Unfound || self == KeyOutcome::Failed
    }
}

/// Whether the lists of areas that are known for prefixes fit in memory.
pub open spec fn cache_fits(cache: Map<Seq<char>, Seq<Seq<char>>>) -> bool {
    forall|prefix: Seq<char>|
        cache.contains_key(prefix) ==> (#[trigger] cache[prefix]).len() <= usize::MAX
}

/// How far the work on a property has come, in the mathematical model.
pub ghost enum KeyStage {
    Route,
    Patch { patch: Patch, route: Option<Seq<char>> },
    Probe(Probe),
    Insert(Insertion),
    Over,
}

/// The work on all properties, in the mathematical model.
#[verifier::ext_equal]
pub ghost struct Cow {
    /// The properties and their new values.
    pub props: Seq<(Seq<char>, Seq<char>)>,
    /// The areas that are mapped.
    pub mappings: Seq<Mapping>,
    /// Whether the area of the serial number is available.
    pub serial: bool,
    /// The bit of a serial number that marks a value that is kept outside.
    pub long_flag: u32,
    /// The areas that are known for a prefix.
    pub cache: Map<Seq<char>, Seq<Seq<char>>>,
    /// How far the work on the current property has come.
    pub stage: KeyStage,
    /// What became of the properties before it.
    pub outcomes: Seq<KeyOutcome>,
}

/// A step, in the mathematical model.
pub ghost enum Work {
    Route(Seq<char>),
    Area(AreaStep),
    Finished,
}

impl Cow {
    /// The work before anything was done.
    pub open spec fn start(
        props: Seq<(Seq<char>, Seq<char>)>,
        mappings: Seq<Mapping>,
        serial: bool,
        long_flag: u32,
        cache: Map<Seq<char>, Seq<Seq<char>>>,
    ) -> Cow {
        Cow {
            props,
            mappings,
            serial,
            long_flag,
            cache,
            stage: KeyStage::Over,
            outcomes: Seq::empty(),
        }.next_key()
    }

    /// The property that is being worked on.
    pub open spec fn key(self) -> Seq<char> {
        self.props[self.outcomes.len() as int].0
    }

    /// Its new value.
    pub open spec fn value(self) -> Seq<char> {
        self.props[self.outcomes.len() as int].1
    }

    /// The part of its name before the last dot.
    pub open spec fn prefix(self) -> Seq<char> {
        text::before_last(self.key(), '.')
    }

    /// The next step.
    pub open spec fn step(self) -> Work {
        match self.stage {
            KeyStage::Route => Work::Route(self.key()),
            KeyStage::Patch { patch, .. } => Work::Area(patch.step(self.mappings)),
            KeyStage::Probe(probe) => Work::Area(probe.step(self.mappings)),
            KeyStage::Insert(insertion) => Work::Area(insertion.step(self.mappings)),
            KeyStage::Over => Work::Finished,
        }
    }

    /// The work before the next property, or over behind the last one.
    pub open spec fn next_key(self) -> Cow {
        Cow {
            stage: if self.outcomes.len() < self.props.len() {
                KeyStage::Route
            } else {
                KeyStage::Over
            },
            ..self
        }
    }

    /// The work once it is known what became of the current property.
    pub open spec fn settled(self, outcome: KeyOutcome) -> Cow {
        Cow { outcomes: self.outcomes.push(outcome), ..self }.next_key()
    }

    /// The work once it is known to which area the system routes the current property. Where that
    /// area is not mapped, the process cannot see the property.
    pub open spec fn routed(self, route: Option<Seq<char>>) -> Cow {
        if route is Some && mapped_at(self.mappings, route->0) is None {
            self.settled(KeyOutcome::Skipped)
        } else {
            self.with_patch(Patch::start(self.key(), self.serial), route)
        }
    }

    /// The work with the change of the current property this far.
    pub open spec fn with_patch(self, patch: Patch, route: Option<Seq<char>>) -> Cow {
        match patch.stage {
            PatchStage::Over(PatchResult::Patched) => self.settled(KeyOutcome::Patched),
            PatchStage::Over(PatchResult::NotThere) => self.to_insert(route),
            PatchStage::Over(_) => self.settled(KeyOutcome::Failed),
            _ => Cow { stage: KeyStage::Patch { patch, route }, ..self },
        }
    }

    /// The work before the current property is added: to the area that the system routes it to,
    /// or to those that are known or found for its prefix.
    pub open spec fn to_insert(self, route: Option<Seq<char>>) -> Cow {
        match route {
            Some(path) => match mapped_at(self.mappings, path) {
                Some(area) => self.insert_into(seq![area]),
                None => self.settled(KeyOutcome::Unfound),
            },
            None => if self.cache.contains_key(self.prefix()) {
                self.insert_into(areas_of(self.mappings, self.cache[self.prefix()]))
            } else {
                self.with_probe(
                    Probe::start(self.mappings, siblings_of(self.prefix()).len() as usize),
                )
            },
        }
    }

    /// The work before the current property is added to some areas.
    pub open spec fn insert_into(self, areas: Seq<usize>) -> Cow {
        self.with_insertion(
            Insertion::start(
                areas,
                self.long_flag,
                vstd::utf8::encode_utf8(self.value()).len(),
            ),
        )
    }

    /// The work with the search for siblings this far. What was found is kept.
    pub open spec fn with_probe(self, probe: Probe) -> Cow {
        if probe.stage == ProbeStage::Over {
            let paths = paths_of(self.mappings, probe.found);
            Cow { cache: self.cache.insert(self.prefix(), paths), ..self }.insert_into(
                areas_of(self.mappings, paths),
            )
        } else {
            Cow { stage: KeyStage::Probe(probe), ..self }
        }
    }

    /// The work with the insertion of the current property this far.
    pub open spec fn with_insertion(self, insertion: Insertion) -> Cow {
        if insertion.stage == InsertStage::Over {
            self.settled(
                if insertion.inserted {
                    KeyOutcome::Inserted
                } else {
                    KeyOutcome::Unfound
                },
            )
        } else {
            Cow { stage: KeyStage::Insert(insertion), ..self }
        }
    }

    /// The work once the next step on an area has come out in the given way.
    pub open spec fn after(self, event: AreaEvent) -> Cow {
        match self.stage {
            KeyStage::Patch { patch, route } => {
                self.with_patch(patch.after(self.mappings, event), route)
            },
            KeyStage::Probe(probe) => self.with_probe(probe.after(event)),
            KeyStage::Insert(insertion) => self.with_insertion(insertion.after(event)),
            _ => self,
        }
    }

    /// Whether what the work goes by fits in memory: the mappings and the lists of areas.
    pub open spec fn sound(self) -> bool {
        &&& self.mappings.len() <= usize::MAX
        &&& cache_fits(self.cache)
    }

    /// Whether a property is left to be worked on.
    pub open spec fn ready(self) -> bool {
        self.sound() && self.outcomes.len() < self.props.len()
    }

    /// What holds of all work that was started and reported to.
    pub open spec fn wf(self) -> bool {
        &&& self.sound()
        &&& if self.stage is Over {
            self.outcomes.len() == self.props.len()
        } else {
            self.outcomes.len() < self.props.len()
        }
        &&& match self.stage {
            KeyStage::Patch { patch, .. } => patch.wf(self.mappings),
            KeyStage::Probe(probe) => probe.wf(self.mappings) && probe.in_step(),
            KeyStage::Insert(insertion) => insertion.wf(self.mappings),
            _ => true,
        }
    }
}

/// Some pairs of texts, in the mathematical model.
pub open spec fn pair_views(pairs: Seq<(String, String)>) -> Seq<(Seq<char>, Seq<char>)> {
    pairs.map_values(|pair: (String, String)| (pair.0@, pair.1@))
}

/// The properties that are left to others, in order.
pub open spec fn left_over(
    props: Seq<(Seq<char>, Seq<char>)>,
    outcomes: Seq<KeyOutcome>,
) -> Seq<(Seq<char>, Seq<char>)>
    decreases outcomes.len(),
{
    if outcomes.len() == 0 {
        Seq::empty()
    } else {
        let before = left_over(props, outcomes.drop_last());
        if outcomes.last().left_over() {
            before.push(props[outcomes.len() - 1])
        } else {
            before
        }
    }
}

/// Whether a pair is one of the properties that are left to others.
pub open spec fn is_left(
    props: Seq<(Seq<char>, Seq<char>)>,
    outcomes: Seq<KeyOutcome>,
    pair: (Seq<char>, Seq<char>),
) -> bool {
    exists|i: int|
        0 <= i < outcomes.len() && (#[trigger] outcomes[i]).left_over() && props[i] == pair
}

/// A property is left to others if and only if it was neither changed nor added nor skipped, and
/// each one only once.
pub proof fn law_left_over(props: Seq<(Seq<char>, Seq<char>)>, outcomes: Seq<KeyOutcome>)
    requires
        outcomes.len() <= props.len(),
        crate::string_map::distinct_keys(props),
    ensures
        forall|i: int|
            #![trigger outcomes[i]]
            0 <= i < outcomes.len() ==> (left_over(props, outcomes).contains(props[i])
                <==> outcomes[i].left_over()),
        forall|k: int|
            0 <= k < left_over(props, outcomes).len() ==> is_left(
                props,
                outcomes,
                #[trigger] left_over(props, outcomes)[k],
            ),
        left_over(props, outcomes).no_duplicates(),
    decreases outcomes.len(),
{
    if outcomes.len() > 0 {
        let front = outcomes.drop_last();
        let before = left_over(props, front);
        let all = left_over(props, outcomes);
        let n = front.len() as int;
        law_left_over(props, front);
        assert forall|k: int| 0 <= k < before.len() implies before[k] != props[n] by {
            assert(is_left(props, front, before[k]));
            let i = choose|i: int|
                0 <= i < front.len() && (#[trigger] front[i]).left_over() && props[i] == before[k];
            assert(props[i].0 != props[n].0);
        }
        assert forall|i: int|
            #![trigger outcomes[i]]
            0 <= i < outcomes.len() implies (all.contains(props[i])
            <==> outcomes[i].left_over()) by {
            if i < n {
                assert(front[i] == outcomes[i]);
                assert(before.contains(props[i]) <==> front[i].left_over());
                if before.contains(props[i]) {
                    let k = choose|k: int| 0 <= k < before.len() && before[k] == props[i];
                    assert(all[k] == props[i]);
                }
                if all.contains(props[i]) {
                    let k = choose|k: int| 0 <= k < all.len() && all[k] == props[i];
                    assert(props[i].0 != props[n].0);
                    assert(before[k] == props[i]);
                }
            } else {
                if outcomes[i].left_over() {
                    assert(all[before.len() as int] == props[i]);
                } else if all.contains(props[i]) {
                    let k = choose|k: int| 0 <= k < all.len() && all[k] == props[i];
                    assert(before[k] == props[n]);
                }
            }
        }
        assert forall|k: int| 0 <= k < all.len() implies is_left(
            props,
            outcomes,
            #[trigger] all[k],
        ) by {
            if k < before.len() {
                assert(is_left(props, front, before[k]));
                let i = choose|i: int|
                    0 <= i < front.len() && (#[trigger] front[i]).left_over() && props[i]
                        == before[k];
                assert(outcomes[i].left_over() && props[i] == all[k]);
            } else {
                assert(outcomes[n].left_over() && props[n] == all[k]);
            }
        }
    }
}

impl KeyStage {
    /// How far the work on a property has come, as a number.
    pub open spec fn rank(self) -> int {
        match self {
            KeyStage::Route => 0,
            KeyStage::Patch { .. } => 1,
            KeyStage::Probe(_) => 2,
            KeyStage::Insert(_) => 3,
            KeyStage::Over => 4,
        }
    }
}

/// Every report settles the current property, or takes it to a later kind of work, or takes the
/// same kind of work one step further. What became of the properties before stays.
pub proof fn law_cow_goes_forward(cow: Cow, event: AreaEvent)
    requires
        cow.wf(),
        cow.step() is Area,
    ensures
        cow.outcomes.is_prefix_of(cow.after(event).outcomes),
        cow.after(event).outcomes.len() <= cow.outcomes.len() + 1,
        cow.after(event).props == cow.props,
        cow.after(event).mappings == cow.mappings,
        cow.after(event).outcomes.len() == cow.outcomes.len() ==> {
            ||| cow.after(event).stage.rank() > cow.stage.rank()
            ||| cow.after(event).stage == match cow.stage {
                KeyStage::Patch { patch, route } => KeyStage::Patch {
                    patch: patch.after(cow.mappings, event),
                    route,
                },
                KeyStage::Probe(probe) => KeyStage::Probe(probe.after(event)),
                KeyStage::Insert(insertion) => KeyStage::Insert(insertion.after(event)),
                other => other,
            }
        },
{
}

/// A property is skipped only where the system routes it to an area that is not mapped, and then
/// it is neither changed nor added.
pub proof fn law_skipped_when_it_cannot_be_seen(cow: Cow, route: Option<Seq<char>>)
    requires
        cow.wf(),
        cow.step() is Route,
    ensures
        cow.routed(route).outcomes == cow.outcomes.push(KeyOutcome::Skipped) <==> (route is Some
            && mapped_at(cow.mappings, route->0) is None),
{
    let skipped = cow.outcomes.push(KeyOutcome::Skipped);
    assert(skipped.last() == KeyOutcome::Skipped);
    let failed = cow.outcomes.push(KeyOutcome::Failed);
    assert(failed.last() == KeyOutcome::Failed);
}

/// How far the work on a property has come.
#[derive(Debug)]
enum KeyWork {
    Route,
    Patch { patch: PatchExisting, route: Option<String> },
    Probe(AreaProbe),
    Insert(TrieInsert),
    Over,
}

/// The next step.
#[derive(Debug)]
pub enum CowStep {
    /// Ask to which file the system routes this property.
    Route(String),
    /// Do this to an area.
    Area(AreaStep),
    /// Nothing is left to do.
    Finished,
}

impl View for CowStep {
    type V = Work;

    open spec fn view(&self) -> Work {
        match self {
            CowStep::Route(key) => Work::Route(key@),
            CowStep::Area(step) => Work::Area(*step),
            CowStep::Finished => Work::Finished,
        }
    }
}

/// The parts of the work on all properties.
#[derive(Debug)]
struct CowState {
    props: PropertyMap,
    mappings: Vec<PropAreaMapping>,
    serial: bool,
    long_flag: u32,
    cache: PrefixCache,
    work: KeyWork,
    outcomes: Vec<KeyOutcome>,
}

impl View for CowState {
    type V = Cow;

    closed spec fn view(&self) -> Cow {
        Cow {
            props: self.props.pairs(),
            mappings: mapping_views(self.mappings@),
            serial: self.serial,
            long_flag: self.long_flag,
            cache: self.cache@,
            stage: match self.work {
                KeyWork::Route => KeyStage::Route,
                KeyWork::Patch { patch, route } => KeyStage::Patch {
                    patch: patch@,
                    route: text::opt_view(route),
                },
                KeyWork::Probe(probe) => KeyStage::Probe(probe@),
                KeyWork::Insert(insertion) => KeyStage::Insert(insertion@),
                KeyWork::Over => KeyStage::Over,
            },
            outcomes: self.outcomes@,
        }
    }
}

/// The path that a lookup gives, where it is one of the property areas.
pub open spec fn routed_path(found: Option<String>) -> Option<Seq<char>> {
    match found {
        Some(path) => if "/dev/__properties__/"@.is_prefix_of(path@) {
            Some(path@)
        } else {
            None
        },
        None => None,
    }
}

impl CowState {
    /// The work before anything was done.
    fn new(
        props: PropertyMap,
        mappings: Vec<PropAreaMapping>,
        serial: bool,
        long_flag: u32,
        cache: PrefixCache,
    ) -> (out: Self)
        ensures
            out@ == Cow::start(
                props.pairs(),
                mapping_views(mappings@),
                serial,
                long_flag,
                cache@,
            ),
            out@.wf(),
    {
        assert(mappings.len() <= usize::MAX);
        proof {
            cache.lemma_fits();
        }
        let work = if props.is_empty() {
            KeyWork::Over
        } else {
            KeyWork::Route
        };
        CowState { props, mappings, serial, long_flag, cache, work, outcomes: Vec::new() }
    }

    /// The property that is being worked on.
    fn key(&self) -> (out: String)
        requires
            self@.outcomes.len() < self@.props.len(),
        ensures
            out@ == self@.key(),
    {
        self.props.key_at(self.outcomes.len()).clone()
    }

    /// The new value of the property that is being worked on.
    fn value(&self) -> (out: String)
        requires
            self@.outcomes.len() < self@.props.len(),
        ensures
            out@ == self@.value(),
    {
        self.props.value_at(self.outcomes.len()).clone()
    }

    /// The part of the name of the property that is being worked on before the last dot.
    fn prefix(&self) -> (out: String)
        requires
            self@.outcomes.len() < self@.props.len(),
        ensures
            out@ == self@.prefix(),
    {
        text::cut_before_last(self.key().as_str(), '.')
    }

    /// Notes what became of the current property.
    fn settle(&mut self, outcome: KeyOutcome)
        requires
            old(self)@.ready(),
        ensures
            final(self)@ == old(self)@.settled(outcome),
            final(self)@.wf(),
    {
        assert(self.mappings.len() <= usize::MAX);
        self.outcomes.push(outcome);
        self.work = if self.outcomes.len() < self.props.len() {
            KeyWork::Route
        } else {
            KeyWork::Over
        };
    }

    /// Goes on with an insertion.
    fn go_on_inserting(&mut self, insertion: TrieInsert)
        requires
            old(self)@.ready(),
            insertion@.wf(old(self)@.mappings),
        ensures
            final(self)@ == old(self)@.with_insertion(insertion@),
            final(self)@.wf(),
    {
        assert(self.mappings.len() <= usize::MAX);
        match insertion.cow_patch_new() {
            Some(true) => self.settle(KeyOutcome::Inserted),
            Some(false) => self.settle(KeyOutcome::Unfound),
            None => {
                self.work = KeyWork::Insert(insertion);
            },
        }
    }

    /// Begins to add the current property to some areas.
    fn begin_inserting(&mut self, areas: Vec<usize>)
        requires
            old(self)@.ready(),
            forall|k: int|
                0 <= k < areas@.len() ==> (#[trigger] areas@[k]) < old(self)@.mappings.len(),
        ensures
            final(self)@ == old(self)@.insert_into(areas@),
            final(self)@.wf(),
    {
        let value = self.value();
        let n: usize = value.as_str().as_bytes().len();
        assert(areas.len() <= usize::MAX);
        let insertion = TrieInsert::new(areas, self.long_flag, n);
        self.go_on_inserting(insertion);
    }

    /// Goes on with a search for siblings.
    fn go_on_probing(&mut self, probe: AreaProbe)
        requires
            old(self)@.ready(),
            probe@.wf(old(self)@.mappings),
            probe@.in_step(),
        ensures
            final(self)@ == old(self)@.with_probe(probe@),
            final(self)@.wf(),
    {
        assert(self.mappings.len() <= usize::MAX);
        if probe.is_over() {
            let paths = probe.paths(&self.mappings);
            let areas = target_areas(&self.mappings, &paths);
            let prefix = self.prefix();
            assert(paths.len() <= usize::MAX);
            self.cache.insert(prefix, paths);
            self.begin_inserting(areas);
        } else {
            self.work = KeyWork::Probe(probe);
        }
    }

    /// Begins to add the current property.
    fn cow_patch_new(&mut self, route: Option<String>)
        requires
            old(self)@.ready(),
        ensures
            final(self)@ == old(self)@.to_insert(text::opt_view(route)),
            final(self)@.wf(),
    {
        assert(self.mappings.len() <= usize::MAX);
        match route {
            Some(path) => match mapping_of_path(&self.mappings, path.as_str()) {
                Some(area) => {
                    let mut areas: Vec<usize> = Vec::new();
                    areas.push(area);
                    assert(areas@ =~= seq![area]);
                    self.begin_inserting(areas);
                },
                None => self.settle(KeyOutcome::Unfound),
            },
            None => {
                let prefix = self.prefix();
                match self.cache.get(prefix.as_str()) {
                    Some(paths) => {
                        let areas = target_areas(&self.mappings, &paths);
                        self.begin_inserting(areas);
                    },
                    None => {
                        let siblings = sibling_probes(prefix.as_str());
                        let probe = AreaProbe::new(&self.mappings, siblings.len());
                        self.go_on_probing(probe);
                    },
                }
            },
        }
    }

    /// Goes on with a change of the current property.
    fn go_on_patching(&mut self, patch: PatchExisting, route: Option<String>)
        requires
            old(self)@.ready(),
            patch@.wf(old(self)@.mappings),
        ensures
            final(self)@ == old(self)@.with_patch(patch@, text::opt_view(route)),
            final(self)@.wf(),
    {
        assert(self.mappings.len() <= usize::MAX);
        match patch.cow_patch_existing() {
            Some(PatchResult::Patched) => self.settle(KeyOutcome::Patched),
            Some(PatchResult::NotThere) => self.cow_patch_new(route),
            Some(_) => self.settle(KeyOutcome::Failed),
            None => {
                self.work = KeyWork::Patch { patch, route };
            },
        }
    }

    /// Goes on with the file to which the system routes the current property.
    fn go_on_routed(&mut self, found: Option<String>)
        requires
            old(self)@.wf(),
            old(self)@.step() is Route,
        ensures
            final(self)@ == old(self)@.routed(routed_path(found)),
            final(self)@.wf(),
    {
        let route = context_area_path(found);
        if let Some(path) = &route {
            if mapping_of_path(&self.mappings, path.as_str()).is_none() {
                self.settle(KeyOutcome::Skipped);
                return;
            }
        }
        let key = self.key();
        let patch = PatchExisting::new(key.as_str(), self.serial);
        self.go_on_patching(patch, route);
    }

    /// Goes on with what came of the next step on an area.
    fn go_on(&mut self, event: AreaEvent)
        requires
            old(self)@.wf(),
        ensures
            final(self)@ == old(self)@.after(event),
            final(self)@.wf(),
    {
        let mut work = KeyWork::Over;
        std::mem::swap(&mut work, &mut self.work);
        match work {
            KeyWork::Patch { mut patch, route } => {
                patch.report(&self.mappings, event);
                self.go_on_patching(patch, route);
            },
            KeyWork::Probe(mut probe) => {
                proof {
                    lemma_probe_in_step(probe@, mapping_views(self.mappings@), event);
                }
                probe.report(&self.mappings, event);
                self.go_on_probing(probe);
            },
            KeyWork::Insert(mut insertion) => {
                insertion.report(&self.mappings, event);
                self.go_on_inserting(insertion);
            },
            other => {
                self.work = other;
            },
        }
    }

    /// The properties that are left to others so far.
    fn left_over(&self) -> (out: Vec<(String, String)>)
        requires
            self@.wf(),
        ensures
            pair_views(out@) == left_over(self@.props, self@.outcomes),
    {
        let ghost all = self@.outcomes;
        let mut out: Vec<(String, String)> = Vec::new();
        let mut i: usize = 0;
        assert(pair_views(out@) =~= left_over(self@.props, all.take(0)));
        while i < self.outcomes.len()
            invariant
                i <= self.outcomes@.len() <= self@.props.len(),
                all == self@.outcomes,
                pair_views(out@) == left_over(self@.props, all.take(i as int)),
            decreases self.outcomes@.len() - i,
        {
            assert(all.take(i + 1).drop_last() =~= all.take(i as int));
            assert(all.take(i + 1).last() == self.outcomes@[i as int]);
            let outcome = self.outcomes[i];
            if outcome == KeyOutcome::Unfound || outcome == KeyOutcome::Failed {
                let pair = (self.props.key_at(i).clone(), self.props.value_at(i).clone());
                assert((pair.0@, pair.1@) == self@.props[i as int]);
                let ghost before = out@;
                out.push(pair);
                assert(pair_views(out@) =~= pair_views(before).push((pair.0@, pair.1@)));
            }
            i = i + 1;
        }
        assert(all.take(i as int) =~= all);
        out
    }
}

/// The work on all properties. It is always well-formed.
#[derive(Debug)]
pub struct CowSpoof {
    state: CowState,
}

impl View for CowSpoof {
    type V = Cow;

    closed spec fn view(&self) -> Cow {
        self.state@
    }
}

impl CowSpoof {
    #[verifier::type_invariant]
    spec fn inv(self) -> bool {
        self.state@.wf()
    }

    /// The work before anything was done. `serial` tells whether the area of the serial number is
    /// available, and `long_flag` is the bit that marks a value that is kept outside.
    pub fn apply_cow_spoof(
        prop_map: PropertyMap,
        mappings: Vec<PropAreaMapping>,
        serial: bool,
        long_flag: u32,
        cache: PrefixCache,
    ) -> (out: Self)
        ensures
            out@ == Cow::start(
                prop_map.pairs(),
                mapping_views(mappings@),
                serial,
                long_flag,
                cache@,
            ),
            out@.wf(),
    {
        CowSpoof { state: CowState::new(prop_map, mappings, serial, long_flag, cache) }
    }

    /// The next step.
    pub fn next_step(&self) -> (out: CowStep)
        ensures
            out@ == self@.step(),
    {
        proof {
            use_type_invariant(self);
        }
        let mappings = &self.state.mappings;
        match &self.state.work {
            KeyWork::Route => CowStep::Route(self.state.key()),
            KeyWork::Patch { patch, .. } => CowStep::Area(patch.next_step(mappings)),
            KeyWork::Probe(probe) => CowStep::Area(probe.next_step(mappings)),
            KeyWork::Insert(insertion) => CowStep::Area(insertion.next_step(mappings)),
            KeyWork::Over => CowStep::Finished,
        }
    }

    /// The property that is being worked on.
    pub fn key(&self) -> (out: String)
        requires
            self@.step() !is Finished,
        ensures
            out@ == self@.key(),
    {
        proof {
            use_type_invariant(self);
        }
        self.state.key()
    }

    /// The new value of the property that is being worked on.
    pub fn value(&self) -> (out: String)
        requires
            self@.step() !is Finished,
        ensures
            out@ == self@.value(),
    {
        proof {
            use_type_invariant(self);
        }
        self.state.value()
    }

    /// The siblings of the property that is being worked on.
    pub fn siblings(&self) -> (out: Vec<String>)
        requires
            self@.step() !is Finished,
        ensures
            text::views(out@) == siblings_of(self@.prefix()),
    {
        proof {
            use_type_invariant(self);
        }
        sibling_probes(self.state.prefix().as_str())
    }

    /// Takes the state out, to be put back once it has gone on.
    fn take(&mut self) -> (state: CowState)
        ensures
            state@ == old(self)@,
            state@.wf(),
    {
        proof {
            use_type_invariant(&*self);
        }
        let mut state = CowState::new(
            PropertyMap::new(),
            Vec::new(),
            false,
            0,
            PrefixCache::new(),
        );
        std::mem::swap(&mut state, &mut self.state);
        state
    }

    /// Takes the file to which the system routes the current property, if it tells.
    pub fn report_route(&mut self, found: Option<String>)
        requires
            old(self)@.step() is Route,
        ensures
            final(self)@ == old(self)@.routed(routed_path(found)),
            final(self)@.wf(),
    {
        let mut state = self.take();
        state.go_on_routed(found);
        self.state = state;
    }

    /// Takes what came of the next step on an area.
    pub fn report(&mut self, event: AreaEvent)
        ensures
            final(self)@ == old(self)@.after(event),
            final(self)@.wf(),
    {
        let mut state = self.take();
        state.go_on(event);
        self.state = state;
    }

    /// The properties that are left to others so far, with their values, in order.
    pub fn unfound(&self) -> (out: Vec<(String, String)>)
        ensures
            pair_views(out@) == left_over(self@.props, self@.outcomes),
    {
        proof {
            use_type_invariant(self);
        }
        self.state.left_over()
    }

    /// What became of the properties so far.
    pub fn outcomes(&self) -> (out: &Vec<KeyOutcome>)
        ensures
            out@ == self@.outcomes,
    {
        &self.state.outcomes
    }

    /// What was learned of the areas of prefixes, for the next run.
    pub fn into_cache(self) -> (out: PrefixCache)
        ensures
            out@ == self@.cache,
    {
        self.state.cache
    }

    /// The areas that are mapped.
    pub fn mappings(&self) -> (out: &Vec<PropAreaMapping>)
        ensures
            mapping_views(out@) == self@.mappings,
    {
        &self.state.mappings
    }
}

/// How a request for new values begins.
#[derive(Debug, Clone, Copy, PartialEq, Eq, Structural)]
pub enum CowCheck {
    /// There is nothing to do.
    Nothing,
    /// The system does not offer to find properties.
    Unavailable,
    /// The properties are to be worked off.
    Proceed,
}

/// Decides how a request for new values begins. `find_available` tells whether the system offers
/// to find properties.
pub fn check_cow_request(prop_map: &PropertyMap, find_available: bool) -> (out: CowCheck)
    ensures
        out == if prop_map.pairs().len() == 0 {
            CowCheck::Nothing
        } else if !find_available {
            CowCheck::Unavailable
        } else {
            CowCheck::Proceed
        },
{
    if prop_map.is_empty() {
        CowCheck::Nothing
    } else if !find_available {
        CowCheck::Unavailable
    } else {
        CowCheck::Proceed
    }
}


/// The properties are worked off in order: the current one is the first that has no outcome yet,
/// with its own value. Its prefix is what stands before the last dot of its name, or the whole
/// name where there is no dot.
pub proof fn law_current_property(cow: Cow, front: Seq<char>, last: Seq<char>)
    requires
        cow.outcomes.len() < cow.props.len(),
        !last.contains('.'),
    ensures
        (cow.key(), cow.value()) == cow.props[cow.outcomes.len() as int],
        cow.key() == front + seq!['.'] + last ==> cow.prefix() == front,
        cow.key() == last ==> cow.prefix() == last,
{
    law_before_last(front, '.', last);
    assert(front + seq!['.'] + last =~= front.push('.') + last);
}

/// A property is left to others where it could be neither found nor added and where it could not
/// be changed. The others are dealt with. Those that are left come in order, with their values.
pub proof fn law_what_is_left_over(
    props: Seq<(Seq<char>, Seq<char>)>,
    outcomes: Seq<KeyOutcome>,
    more: KeyOutcome,
)
    ensures
        left_over(props, Seq::empty()).len() == 0,
        more == KeyOutcome::Unfound || more == KeyOutcome::Failed ==> left_over(
            props,
            outcomes.push(more),
        ) == left_over(props, outcomes).push(props[outcomes.len() as int]),
        more == KeyOutcome::Skipped || more == KeyOutcome::Patched || more == KeyOutcome::Inserted
            ==> left_over(props, outcomes.push(more)) == left_over(props, outcomes),
{
    assert(outcomes.push(more).drop_last() =~= outcomes);
}

} // verus!
