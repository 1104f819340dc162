//! A change of the properties and the density of the device, carried out step by step.
//!
//! The steps are worked off one at a time: [`GlobalChange::next_step`] names the step to carry
//! out, and [`GlobalChange::report`] takes what came of it. The properties come first, up to the
//! first one that fails. Where none failed, the property areas are rebuilt. The density comes
//! last, whatever became of the properties.

use vstd::prelude::*;

use crate::density::DensityArg;
use crate::error::CompanionError;
use crate::string_map::PropertyMap;
use crate::text;

verus! {

/// A change of one property, in the mathematical model.
pub ghost enum Op {
    Write(Seq<char>, Seq<char>),
    Delete(Seq<char>),
}

impl Op {
    /// The property that is changed.
    pub open spec fn name(self) -> Seq<char> {
        match self {
            Op::Write(name, _) => name,
            Op::Delete(name) => name,
        }
    }
}

/// A change of one property.
#[derive(Debug)]
pub enum PropOp {
    /// Give the property a value.
    Write { name: String, value: String },
    /// Remove the property.
    Delete { name: String },
}

impl View for PropOp {
    type V = Op;

    open spec fn view(&self) -> Op {
        match self {
            PropOp::Write { name, value } => Op::Write(name@, value@),
            PropOp::Delete { name } => Op::Delete(name@),
        }
    }
}

impl PropOp {
    /// A copy of the change.
    fn copied(&self) -> (out: PropOp)
        ensures
            out@ == self@,
    {
        match self {
            PropOp::Write { name, value } => PropOp::Write {
                name: name.clone(),
                value: value.clone(),
            },
            PropOp::Delete { name } => PropOp::Delete { name: name.clone() },
        }
    }
}

/// What came of a step.
#[derive(Debug)]
pub enum StepOutcome {
    /// It was carried out. The flag is what the property API reported beside its success: for a
    /// deletion, whether the property was there at all.
    Done(bool),
    /// The system property API could not be initialized.
    ApiUnavailable(String),
    /// It failed, for the given reason.
    Failed(String),
}

/// The error text of a change of a property, where it failed.
pub open spec fn op_error(op: Op, outcome: StepOutcome) -> Option<Seq<char>> {
    match outcome {
        StepOutcome::Done(_) => None,
        StepOutcome::ApiUnavailable(cause) => Some(
            "failed to initialize system property API: "@ + cause@,
        ),
        StepOutcome::Failed(cause) => Some(
            match op {
                Op::Write(name, _) => "resetprop set failed for "@ + name + ": "@ + cause@,
                Op::Delete(name) => "resetprop delete failed for "@ + name,
            },
        ),
    }
}

/// Whether a result reports an optional error text.
pub open spec fn reports(result: Result<(), CompanionError>, error: Option<Seq<char>>) -> bool {
    match result {
        Ok(_) => error is None,
        Err(e) => error == Some(e.text()),
    }
}

/// What the attempt to set a property means.
pub fn apply_resetprop(key: &str, value: &str, outcome: StepOutcome) -> (out: Result<
    (),
    CompanionError,
>)
    ensures
        reports(out, op_error(Op::Write(key@, value@), outcome)),
        out is Ok <==> outcome is Done,
{
    match outcome {
        StepOutcome::Done(_) => Ok(()),
        StepOutcome::ApiUnavailable(cause) => Err(CompanionError::ApiUnavailable(cause)),
        StepOutcome::Failed(cause) => {
            Err(CompanionError::SetFailed { key: key.to_string(), cause })
        },
    }
}

/// What the attempt to delete a property means. One that was not there counts as deleted.
pub fn resetprop_delete(key: &str, outcome: StepOutcome) -> (out: Result<(), CompanionError>)
    ensures
        reports(out, op_error(Op::Delete(key@), outcome)),
        out is Ok <==> outcome is Done,
{
    match outcome {
        StepOutcome::Done(_) => Ok(()),
        StepOutcome::ApiUnavailable(cause) => Err(CompanionError::ApiUnavailable(cause)),
        StepOutcome::Failed(_) => Err(CompanionError::DeleteFailed(key.to_string())),
    }
}

/// The changes that set some properties.
pub open spec fn writes(pairs: Seq<(Seq<char>, Seq<char>)>) -> Seq<Op> {
    pairs.map_values(|pair: (Seq<char>, Seq<char>)| Op::Write(pair.0, pair.1))
}

/// The changes that delete some properties.
pub open spec fn removals(names: Seq<Seq<char>>) -> Seq<Op> {
    names.map_values(|name: Seq<char>| Op::Delete(name))
}

/// The properties that some changes speak of.
pub open spec fn names_of(ops: Seq<Op>) -> Seq<Seq<char>> {
    ops.map_values(|op: Op| op.name())
}

/// A step of a change, in the mathematical model.
pub ghost enum Step {
    Property(Op),
    Rebuild(Seq<Seq<char>>),
    Density(DensityArg),
    Finished,
}

/// The next step of a change.
#[derive(Debug)]
pub enum ChangeStep {
    /// Change a property.
    Property(PropOp),
    /// Rebuild the areas of the given properties.
    Rebuild(Vec<String>),
    /// Run `wm density`.
    Density(DensityArg),
    /// Nothing is left to do.
    Finished,
}

impl View for ChangeStep {
    type V = Step;

    open spec fn view(&self) -> Step {
        match self {
            ChangeStep::Property(op) => Step::Property(op@),
            ChangeStep::Rebuild(names) => Step::Rebuild(text::views(names@)),
            ChangeStep::Density(arg) => Step::Density(*arg),
            ChangeStep::Finished => Step::Finished,
        }
    }
}

/// How far a change has come, in the mathematical model.
#[verifier::ext_equal]
pub ghost struct Progress {
    /// The changes of properties.
    pub ops: Seq<Op>,
    /// How many of them were carried out.
    pub done: nat,
    /// The text of the failure that ended them.
    pub error: Option<Seq<char>>,
    /// Whether the property areas were rebuilt.
    pub rebuilt: bool,
    /// What is still to be done to the density.
    pub density: Option<DensityArg>,
}

/// A change of which nothing is done yet.
pub open spec fn started(ops: Seq<Op>, density: Option<DensityArg>) -> Progress {
    Progress { ops, done: 0, error: None, rebuilt: false, density }
}

impl Progress {
    /// The step to carry out next.
    pub open spec fn step(self) -> Step {
        if self.error is None && self.done < self.ops.len() {
            Step::Property(self.ops[self.done as int])
        } else if self.error is None && !self.rebuilt {
            Step::Rebuild(names_of(self.ops))
        } else {
            match self.density {
                Some(arg) => Step::Density(arg),
                None => Step::Finished,
            }
        }
    }

    /// How far the change is once the next step has come out in the given way.
    pub open spec fn after(self, outcome: StepOutcome) -> Progress {
        match self.step() {
            Step::Property(op) => match op_error(op, outcome) {
                None => Progress { done: self.done + 1, ..self },
                Some(error) => Progress { error: Some(error), ..self },
            },
            Step::Rebuild(_) => Progress { rebuilt: true, ..self },
            Step::Density(_) => Progress { density: None, ..self },
            Step::Finished => self,
        }
    }

    /// How many steps are left at most.
    pub open spec fn left(self) -> nat {
        let props = if self.error is None {
            (if self.done < self.ops.len() {
                self.ops.len() - self.done
            } else {
                0
            }) + (if self.rebuilt {
                0int
            } else {
                1
            })
        } else {
            0
        };
        (props + (if self.density is Some {
            1int
        } else {
            0
        })) as nat
    }
}

/// Every report brings a change closer to its end, and when it is finished, the density was
/// handled and the properties were either all changed and their areas rebuilt, or one of them
/// failed.
pub proof fn law_change_ends(progress: Progress, outcome: StepOutcome)
    requires
        progress.done <= progress.ops.len(),
    ensures
        progress.step() is Finished <==> progress.left() == 0,
        progress.step() !is Finished ==> progress.after(outcome).left() < progress.left(),
        progress.step() is Finished ==> {
            &&& progress.density is None
            &&& progress.error is None ==> progress.done == progress.ops.len() && progress.rebuilt
        },
        progress.after(outcome).done <= progress.ops.len(),
{
}

/// Once a change of a property has failed, no other property is changed and no area is rebuilt.
pub proof fn law_failure_ends_the_properties(progress: Progress, outcome: StepOutcome)
    requires
        progress.error is Some,
    ensures
        progress.step() is Density || progress.step() is Finished,
        progress.after(outcome).error == progress.error,
        progress.after(outcome).done == progress.done,
        progress.after(outcome).rebuilt == progress.rebuilt,
{
}

/// A change that is being carried out.
#[derive(Debug)]
pub struct GlobalChange {
    ops: Vec<PropOp>,
    done: usize,
    error: Option<CompanionError>,
    rebuilt: bool,
    density: Option<DensityArg>,
}

/// The changes of a list, in the mathematical model.
pub open spec fn op_views(ops: Seq<PropOp>) -> Seq<Op> {
    ops.map_values(|op: PropOp| op@)
}

impl View for GlobalChange {
    type V = Progress;

    closed spec fn view(&self) -> Progress {
        Progress {
            ops: op_views(self.ops@),
            done: self.done as nat,
            error: match self.error {
                Some(e) => Some(e.text()),
                None => None,
            },
            rebuilt: self.rebuilt,
            density: self.density,
        }
    }
}

impl GlobalChange {
    /// A change of which nothing is done yet.
    fn new(ops: Vec<PropOp>, density: Option<DensityArg>) -> (out: Self)
        ensures
            out@ == started(op_views(ops@), density),
    {
        GlobalChange { ops, done: 0, error: None, rebuilt: false, density }
    }

    /// The step to carry out next.
    pub fn next_step(&self) -> (out: ChangeStep)
        ensures
            out@ == self@.step(),
    {
        if self.error.is_none() && self.done < self.ops.len() {
            assert(self@.ops[self.done as int] == self.ops@[self.done as int]@);
            ChangeStep::Property(self.ops[self.done].copied())
        } else if self.error.is_none() && !self.rebuilt {
            ChangeStep::Rebuild(self.names())
        } else {
            match self.density {
                Some(arg) => ChangeStep::Density(arg),
                None => ChangeStep::Finished,
            }
        }
    }

    /// The properties of the change.
    fn names(&self) -> (out: Vec<String>)
        ensures
            text::views(out@) == names_of(self@.ops),
    {
        let mut out: Vec<String> = Vec::new();
        let mut i: usize = 0;
        while i < self.ops.len()
            invariant
                i <= self.ops@.len(),
                text::views(out@) == names_of(self@.ops).take(i as int),
            decreases self.ops@.len() - i,
        {
            let name = match &self.ops[i] {
                PropOp::Write { name, .. } => name.clone(),
                PropOp::Delete { name } => name.clone(),
            };
            assert(self@.ops[i as int] == self.ops@[i as int]@);
            let ghost before = out@;
            out.push(name);
            i = i + 1;
            assert(text::views(out@) =~= text::views(before).push(name@));
            assert(names_of(self@.ops).take(i as int) =~= names_of(self@.ops).take(i - 1).push(
                name@,
            ));
        }
        assert(names_of(self@.ops).take(i as int) =~= names_of(self@.ops));
        out
    }

    /// Takes what came of the step that [`GlobalChange::next_step`] names. Only a property can
    /// fail the change: a rebuild and a change of the density count as carried out.
    pub fn report(&mut self, outcome: StepOutcome)
        ensures
            final(self)@ == old(self)@.after(outcome),
    {
        if self.error.is_none() && self.done < self.ops.len() {
            assert(self@.ops[self.done as int] == self.ops@[self.done as int]@);
            let result = match &self.ops[self.done] {
                PropOp::Write { name, value } => {
                    apply_resetprop(name.as_str(), value.as_str(), outcome)
                },
                PropOp::Delete { name } => resetprop_delete(name.as_str(), outcome),
            };
            match result {
                Ok(_) => {
                    self.done = self.done + 1;
                },
                Err(e) => {
                    self.error = Some(e);
                },
            }
        } else if self.error.is_none() && !self.rebuilt {
            self.rebuilt = true;
        } else {
            self.density = None;
        }
    }

    /// What became of the properties.
    pub fn result(self) -> (out: Result<(), CompanionError>)
        ensures
            reports(out, self@.error),
            out is Ok <==> self@.error is None,
            out matches Err(e) ==> self@.error == Some(e.text()),
    {
        match self.error {
            Some(e) => Err(e),
            None => Ok(()),
        }
    }
}

/// The changes that set some properties.
fn write_ops(props: &PropertyMap) -> (out: Vec<PropOp>)
    ensures
        op_views(out@) == writes(props.pairs()),
{
    let ghost all = writes(props.pairs());
    let mut out: Vec<PropOp> = Vec::new();
    let mut i: usize = 0;
    while i < props.len()
        invariant
            i <= props.pairs().len(),
            all == writes(props.pairs()),
            op_views(out@) == all.take(i as int),
        decreases props.pairs().len() - i,
    {
        let op = PropOp::Write { name: props.key_at(i).clone(), value: props.value_at(i).clone() };
        assert(op@ == all[i as int]);
        let ghost before = out@;
        out.push(op);
        i = i + 1;
        assert(op_views(out@) =~= op_views(before).push(op@));
        assert(all.take(i as int) =~= all.take(i - 1).push(op@));
    }
    assert(all.take(i as int) =~= all);
    out
}

/// Sets some properties and deletes others.
pub fn apply_props_batch(
    props: &PropertyMap,
    delete_props: &Vec<String>,
    density: Option<DensityArg>,
) -> (out: GlobalChange)
    ensures
        out@ == started(writes(props.pairs()) + removals(text::views(delete_props@)), density),
{
    let mut ops = write_ops(props);
    let ghost head = writes(props.pairs());
    let ghost tail = removals(text::views(delete_props@));
    let mut i: usize = 0;
    assert(op_views(ops@) =~= head + tail.take(0));
    while i < delete_props.len()
        invariant
            i <= delete_props@.len(),
            tail == removals(text::views(delete_props@)),
            op_views(ops@) == head + tail.take(i as int),
        decreases delete_props@.len() - i,
    {
        let op = PropOp::Delete { name: delete_props[i].clone() };
        assert(op@ == tail[i as int]);
        let ghost before = ops@;
        ops.push(op);
        i = i + 1;
        assert(op_views(ops@) =~= op_views(before).push(op@));
        assert(head + tail.take(i as int) =~= (head + tail.take(i - 1)).push(op@));
    }
    assert(tail.take(i as int) =~= tail);
    GlobalChange::new(ops, density)
}

/// Gives some properties their values back.
pub fn restore_props_batch(backups: &PropertyMap, density: Option<DensityArg>) -> (out:
    GlobalChange)
    ensures
        out@ == started(writes(backups.pairs()), density),
{
    GlobalChange::new(write_ops(backups), density)
}

/// A list without the repetitions of what stands in it before.
pub open spec fn distinct(list: Seq<Seq<char>>) -> Seq<Seq<char>>
    decreases list.len(),
{
    if list.len() == 0 {
        list
    } else if list.drop_last().contains(list.last()) {
        distinct(list.drop_last())
    } else {
        distinct(list.drop_last()).push(list.last())
    }
}

/// The rebuilds of some property areas: each area first by itself, then with its compatibility
/// copy.
pub open spec fn rebuilds(contexts: Seq<Seq<char>>) -> Seq<(Seq<char>, bool)>
    decreases contexts.len(),
{
    if contexts.len() == 0 {
        Seq::empty()
    } else {
        rebuilds(contexts.drop_last()) + seq![(contexts.last(), false), (contexts.last(), true)]
    }
}

/// The rebuild of a property area, or of its compatibility copy.
#[derive(Debug)]
pub struct AreaRebuild {
    pub context: String,
    pub appcompat: bool,
}

/// Some rebuilds, in the mathematical model.
pub open spec fn rebuild_views(list: Seq<AreaRebuild>) -> Seq<(Seq<char>, bool)> {
    list.map_values(|rebuild: AreaRebuild| (rebuild.context@, rebuild.appcompat))
}

/// A list holds the same texts without its repetitions.
proof fn lemma_distinct_contains(list: Seq<Seq<char>>, item: Seq<char>)
    ensures
        distinct(list).contains(item) == list.contains(item),
    decreases list.len(),
{
    if list.len() > 0 {
        let front = list.drop_last();
        lemma_distinct_contains(front, item);
        assert(list =~= front.push(list.last()));
        if front.contains(item) {
            let i = choose|i: int| 0 <= i < front.len() && front[i] == item;
            assert(list[i] == item);
        }
        if list.contains(item) && item != list.last() {
            let i = choose|i: int| 0 <= i < list.len() && list[i] == item;
            assert(front[i] == item);
        }
        let short = distinct(front);
        if short.contains(item) {
            let i = choose|i: int| 0 <= i < short.len() && short[i] == item;
            assert(short.push(list.last())[i] == item);
        }
        if item == list.last() {
            assert(list[list.len() - 1] == item);
            assert(short.push(item)[short.len() as int] == item);
        }
    }
}

/// Every area that is named is rebuilt once in each way, and no other.
pub proof fn law_each_area_is_rebuilt_once(contexts: Seq<Seq<char>>)
    ensures
        forall|item: Seq<char>|
            #![trigger distinct(contexts).contains(item)]
            distinct(contexts).contains(item) == contexts.contains(item),
        distinct(contexts).no_duplicates(),
        rebuilds(distinct(contexts)).len() == 2 * distinct(contexts).len(),
        forall|i: int|
            #![trigger distinct(contexts)[i]]
            0 <= i < distinct(contexts).len() ==> {
                &&& rebuilds(distinct(contexts))[2 * i] == (distinct(contexts)[i], false)
                &&& rebuilds(distinct(contexts))[2 * i + 1] == (distinct(contexts)[i], true)
            },
{
    assert forall|item: Seq<char>|
        #![trigger distinct(contexts).contains(item)]
        distinct(contexts).contains(item) == contexts.contains(item) by {
        lemma_distinct_contains(contexts, item);
    }
    lemma_distinct_is_distinct(contexts);
    lemma_rebuilds(distinct(contexts));
}

/// The areas come in the order in which they are first named: naming one more puts it last, and
/// naming one again changes nothing.
pub proof fn law_order_of_areas(contexts: Seq<Seq<char>>, more: Seq<char>)
    ensures
        distinct(Seq::empty()).len() == 0,
        contexts.contains(more) ==> distinct(contexts.push(more)) == distinct(contexts),
        !contexts.contains(more) ==> distinct(contexts.push(more)) == distinct(contexts).push(more),
{
    assert(contexts.push(more).drop_last() =~= contexts);
}

proof fn lemma_distinct_is_distinct(contexts: Seq<Seq<char>>)
    ensures
        distinct(contexts).no_duplicates(),
    decreases contexts.len(),
{
    if contexts.len() > 0 {
        lemma_distinct_is_distinct(contexts.drop_last());
        lemma_distinct_contains(contexts.drop_last(), contexts.last());
    }
}

proof fn lemma_rebuilds(contexts: Seq<Seq<char>>)
    ensures
        rebuilds(contexts).len() == 2 * contexts.len(),
        forall|i: int|
            #![trigger contexts[i]]
            0 <= i < contexts.len() ==> {
                &&& rebuilds(contexts)[2 * i] == (contexts[i], false)
                &&& rebuilds(contexts)[2 * i + 1] == (contexts[i], true)
            },
    decreases contexts.len(),
{
    if contexts.len() > 0 {
        let front = contexts.drop_last();
        lemma_rebuilds(front);
        assert forall|i: int| #![trigger contexts[i]] 0 <= i < contexts.len() implies {
            &&& rebuilds(contexts)[2 * i] == (contexts[i], false)
            &&& rebuilds(contexts)[2 * i + 1] == (contexts[i], true)
        } by {
            if i < front.len() {
                assert(front[i] == contexts[i]);
            }
        }
    }
}

/// The rebuilds for the areas of some changed properties, which may share areas. A property whose
/// area is not known contributes none.
pub fn rebuild_all_contexts(contexts: &Vec<String>) -> (out: Vec<AreaRebuild>)
    ensures
        rebuild_views(out@) == rebuilds(distinct(text::views(contexts@))),
{
    let ghost all = text::views(contexts@);
    let mut seen: Vec<String> = Vec::new();
    let mut out: Vec<AreaRebuild> = Vec::new();
    let mut i: usize = 0;
    assert(text::views(seen@) =~= distinct(all.take(0)));
    assert(rebuild_views(out@) =~= rebuilds(distinct(all.take(0))));
    while i < contexts.len()
        invariant
            i <= contexts@.len(),
            all == text::views(contexts@),
            text::views(seen@) == distinct(all.take(i as int)),
            rebuild_views(out@) == rebuilds(distinct(all.take(i as int))),
        decreases contexts@.len() - i,
    {
        let ghost before = all.take(i as int);
        let ghost after = all.take(i + 1);
        assert(after.drop_last() =~= before);
        assert(after.last() == contexts@[i as int]@);
        proof {
            lemma_distinct_contains(before, contexts@[i as int]@);
        }
        if !text::listed(&seen, contexts[i].as_str()) {
            let context = contexts[i].clone();
            let ghost old_seen = seen@;
            let ghost old_out = out@;
            out.push(AreaRebuild { context: context.clone(), appcompat: false });
            out.push(AreaRebuild { context: context.clone(), appcompat: true });
            seen.push(context);
            assert(text::views(seen@) =~= text::views(old_seen).push(context@));
            assert(rebuild_views(out@) =~= rebuild_views(old_out) + seq![
                (context@, false),
                (context@, true),
            ]);
            assert(distinct(after).drop_last() =~= distinct(before));
        }
        i = i + 1;
    }
    assert(all.take(i as int) =~= all);
    out
}


// ---------------------------------------------------------------------------
// Carrying a change out
// ---------------------------------------------------------------------------

/// The steps of a change, one after the other, where the step that changes the `i`-th property
/// comes out as `world(i)`, and what is left when it is finished.
pub open spec fn run_change(progress: Progress, world: spec_fn(nat) -> StepOutcome) -> (
    Seq<Step>,
    Progress,
)
    decreases progress.left(),
    when progress.done <= progress.ops.len()
    via run_change_ends
{
    match progress.step() {
        Step::Finished => (Seq::empty(), progress),
        step => {
            let (steps, end) = run_change(progress.after(world(progress.done)), world);
            (seq![step] + steps, end)
        },
    }
}

#[via_fn]
proof fn run_change_ends(progress: Progress, world: spec_fn(nat) -> StepOutcome) {
    law_change_ends(progress, world(progress.done));
}

/// The steps that change properties.
pub open spec fn property_steps(ops: Seq<Op>) -> Seq<Step> {
    ops.map_values(|op: Op| Step::Property(op))
}

/// The step that changes the density, where there is one.
pub open spec fn density_steps(density: Option<DensityArg>) -> Seq<Step> {
    match density {
        Some(arg) => seq![Step::Density(arg)],
        None => Seq::empty(),
    }
}

/// A change whose first `n` properties can be changed and whose next one, if there is one, cannot:
/// it changes these in order, tries the next, and goes no further. Where all can be changed, the
/// areas of all of them are rebuilt once, after the last. The density is changed at the end in
/// any case, and once. The change fails with the text of the property that failed.
pub proof fn law_change_run(
    ops: Seq<Op>,
    density: Option<DensityArg>,
    world: spec_fn(nat) -> StepOutcome,
    n: nat,
)
    requires
        n <= ops.len(),
        forall|i: nat| i < n ==> #[trigger] world(i) is Done,
        n < ops.len() ==> !(world(n) is Done),
    ensures
        run_change(started(ops, density), world).0 == if n < ops.len() {
            property_steps(ops.take(n as int + 1)) + density_steps(density)
        } else {
            property_steps(ops) + seq![
                Step::Rebuild(
                    ops.map_values(
                        |op: Op|
                            match op {
                                Op::Write(name, _) => name,
                                Op::Delete(name) => name,
                            },
                    ),
                ),
            ] + density_steps(density)
        },
        run_change(started(ops, density), world).1.error == if n < ops.len() {
            Some(
                match world(n) {
                    StepOutcome::ApiUnavailable(cause) => {
                        "failed to initialize system property API: "@ + cause@
                    },
                    StepOutcome::Failed(cause) => match ops[n as int] {
                        Op::Write(name, _) => "resetprop set failed for "@ + name + ": "@ + cause@,
                        Op::Delete(name) => "resetprop delete failed for "@ + name,
                    },
                    StepOutcome::Done(_) => Seq::empty(),
                },
            )
        } else {
            None
        },
{
    lemma_change_run(started(ops, density), world, n);
    assert(ops.skip(0) =~= ops);
    assert(names_of(ops) =~= ops.map_values(
        |op: Op|
            match op {
                Op::Write(name, _) => name,
                Op::Delete(name) => name,
            },
    ));
    if n < ops.len() {
        assert(ops.subrange(0, n as int + 1) =~= ops.take(n as int + 1));
    }
}

proof fn lemma_change_run(progress: Progress, world: spec_fn(nat) -> StepOutcome, n: nat)
    requires
        progress.done <= n <= progress.ops.len(),
        progress.error is None,
        !progress.rebuilt,
        forall|i: nat| i < n ==> #[trigger] world(i) is Done,
        n < progress.ops.len() ==> !(world(n) is Done),
    ensures
        run_change(progress, world).0 == if n < progress.ops.len() {
            property_steps(progress.ops.subrange(progress.done as int, n as int + 1)) + density_steps(
                progress.density,
            )
        } else {
            property_steps(progress.ops.skip(progress.done as int)) + seq![
                Step::Rebuild(names_of(progress.ops)),
            ] + density_steps(progress.density)
        },
        run_change(progress, world).1.error == if n < progress.ops.len() {
            op_error(progress.ops[n as int], world(n))
        } else {
            None
        },
    decreases n - progress.done,
{
    let ops = progress.ops;
    let done = progress.done;
    let next = progress.after(world(done));
    law_change_ends(progress, world(done));
    if done < n {
        assert(world(done) is Done);
        lemma_change_run(next, world, n);
        if n < ops.len() {
            assert(seq![Step::Property(ops[done as int])] + property_steps(
                ops.subrange(done as int + 1, n as int + 1),
            ) =~= property_steps(ops.subrange(done as int, n as int + 1)));
            assert(run_change(progress, world).0 =~= property_steps(
                ops.subrange(done as int, n as int + 1),
            ) + density_steps(progress.density));
        } else {
            assert(seq![Step::Property(ops[done as int])] + property_steps(ops.skip(done as int + 1))
                =~= property_steps(ops.skip(done as int)));
            assert(run_change(progress, world).0 =~= property_steps(ops.skip(done as int)) + seq![
                Step::Rebuild(names_of(ops)),
            ] + density_steps(progress.density));
        }
    } else if n < ops.len() {
        lemma_density_run(next, world);
        assert(property_steps(ops.subrange(done as int, n as int + 1)) =~= seq![
            Step::Property(ops[done as int]),
        ]);
    } else {
        lemma_density_run(next, world);
        assert(property_steps(ops.skip(done as int)) =~= Seq::empty());
        assert(run_change(progress, world).0 =~= property_steps(ops.skip(done as int)) + seq![
            Step::Rebuild(names_of(ops)),
        ] + density_steps(progress.density));
    }
}

proof fn lemma_density_run(progress: Progress, world: spec_fn(nat) -> StepOutcome)
    requires
        progress.done <= progress.ops.len(),
        progress.error is Some || progress.done == progress.ops.len() && progress.rebuilt,
    ensures
        run_change(progress, world).0 == density_steps(progress.density),
        run_change(progress, world).1.error == progress.error,
{
    reveal_with_fuel(run_change, 2);
    law_change_ends(progress, world(progress.done));
    let next = progress.after(world(progress.done));
    if progress.density is Some {
        assert(next.step() is Finished);
        assert(run_change(next, world).0 =~= Seq::empty());
        assert(run_change(progress, world).0 =~= density_steps(progress.density));
    }
}

} // verus!
