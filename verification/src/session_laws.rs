//! What holds of sessions as a whole.
//!
//! A device is modelled by what `getprop` prints for each property. A property that is not there
//! prints an empty value.

use vstd::prelude::*;

use crate::change::{removals, writes, GlobalChange, Op, Progress};
use crate::density::DensityArg;
use crate::error::{law_error_texts, CompanionError};
use crate::number::decimal;
use crate::properties::{law_last_assignment_wins, last_value, put_all};
use crate::protocol::ResetpropSessionRequest;
use crate::session::{
    density_supported, focused, is_duplicate, kept_override, opt_change, reaped, refusal, Sample,
    SamplingModel, SessionModel,
};
use crate::string_map::{distinct_keys, has_key, lookup};

verus! {

/// The device after the change of one property.
pub open spec fn effect(device: spec_fn(Seq<char>) -> Seq<char>, op: Op) -> spec_fn(
    Seq<char>,
) -> Seq<char> {
    |name: Seq<char>|
        if name == op.name() {
            match op {
                Op::Write(_, value) => value,
                Op::Delete(_) => Seq::empty(),
            }
        } else {
            device(name)
        }
}

/// The device after some changes, one after the other.
pub open spec fn effects(device: spec_fn(Seq<char>) -> Seq<char>, ops: Seq<Op>) -> spec_fn(
    Seq<char>,
) -> Seq<char>
    decreases ops.len(),
{
    if ops.len() == 0 {
        device
    } else {
        effect(effects(device, ops.drop_last()), ops.last())
    }
}

/// What is read for some names, one after the other.
pub open spec fn readings(
    names: Seq<Seq<char>>,
    device: spec_fn(Seq<char>) -> Seq<char>,
) -> Seq<(Seq<char>, Seq<char>)> {
    names.map_values(|name: Seq<char>| (name, device(name)))
}

/// The values of some properties as they are kept.
pub open spec fn sampled(
    names: Seq<Seq<char>>,
    device: spec_fn(Seq<char>) -> Seq<char>,
) -> Seq<(Seq<char>, Seq<char>)> {
    put_all(Seq::empty(), readings(names, device))
}

/// Setting some properties gives each one the last value that is written to it.
proof fn lemma_writes(
    device: spec_fn(Seq<char>) -> Seq<char>,
    pairs: Seq<(Seq<char>, Seq<char>)>,
    name: Seq<char>,
)
    ensures
        effects(device, writes(pairs))(name) == match last_value(pairs, name) {
            Some(value) => value,
            None => device(name),
        },
    decreases pairs.len(),
{
    if pairs.len() > 0 {
        lemma_writes(device, pairs.drop_last(), name);
        assert(writes(pairs).drop_last() =~= writes(pairs.drop_last()));
        assert(writes(pairs).last() == Op::Write(pairs.last().0, pairs.last().1));
    }
}

/// Where no name occurs twice, the last value of a name is its only one.
proof fn lemma_last_value_is_lookup(pairs: Seq<(Seq<char>, Seq<char>)>, name: Seq<char>)
    requires
        distinct_keys(pairs),
    ensures
        last_value(pairs, name) == lookup(pairs, name),
    decreases pairs.len(),
{
    if pairs.len() > 0 {
        let front = pairs.drop_last();
        let n = front.len() as int;
        assert(distinct_keys(front));
        lemma_last_value_is_lookup(front, name);
        if pairs.last().0 == name {
            crate::string_map::lemma_lookup_entry(pairs, n);
        } else if has_key(front, name) {
            let i = crate::string_map::key_index(front, name);
            assert(pairs[i] == front[i]);
            crate::string_map::lemma_lookup_entry(pairs, i);
            crate::string_map::lemma_lookup_entry(front, i);
        } else {
            assert(!has_key(pairs, name)) by {
                if has_key(pairs, name) {
                    let i = crate::string_map::key_index(pairs, name);
                    assert(front[i] == pairs[i]);
                }
            }
        }
    }
}

/// The last reading of a name is what the device shows for it.
proof fn lemma_last_reading(
    names: Seq<Seq<char>>,
    device: spec_fn(Seq<char>) -> Seq<char>,
    name: Seq<char>,
)
    ensures
        last_value(readings(names, device), name) == if names.contains(name) {
            Some(device(name))
        } else {
            None
        },
    decreases names.len(),
{
    let list = readings(names, device);
    if names.len() > 0 {
        assert(list.drop_last() =~= readings(names.drop_last(), device));
        lemma_last_reading(names.drop_last(), device, name);
        assert(names =~= names.drop_last().push(names.last()));
        if names.drop_last().contains(name) {
            let i = choose|i: int| 0 <= i < names.drop_last().len() && names.drop_last()[i] == name;
            assert(names[i] == name);
        }
    }
}

/// The backups of a session hold, for each property that it changes, what the device showed.
pub proof fn law_backups_hold_the_device(
    names: Seq<Seq<char>>,
    device: spec_fn(Seq<char>) -> Seq<char>,
    name: Seq<char>,
)
    ensures
        distinct_keys(sampled(names, device)),
        lookup(sampled(names, device), name) == if names.contains(name) {
            Some(device(name))
        } else {
            None
        },
{
    let none = Seq::<(Seq<char>, Seq<char>)>::empty();
    assert(distinct_keys(none));
    assert(!has_key(none, name));
    law_last_assignment_wins(none, readings(names, device), name);
    lemma_last_reading(names, device, name);
}

/// Whether a session that is being sampled holds what the device showed, as far as it was read.
pub open spec fn faithful(sampling: SamplingModel, device: spec_fn(Seq<char>) -> Seq<char>) -> bool {
    &&& sampling.read <= sampling.session.names().len()
    &&& sampling.session.backups == sampled(
        sampling.session.names().take(sampling.read as int),
        device,
    )
}

/// Sampling starts with nothing, keeps what the device shows for each property in turn, and has
/// read all of them when it is ready.
pub proof fn law_sampling_reads_the_device(
    sampling: SamplingModel,
    device: spec_fn(Seq<char>) -> Seq<char>,
    density: Option<u32>,
)
    ensures
        sampling.read == 0 && sampling.session.backups == Seq::<(Seq<char>, Seq<char>)>::empty()
            ==> faithful(sampling, device),
        faithful(sampling, device) ==> match sampling.step() {
            Sample::Property(name) => faithful(sampling.with_value(device(name)), device),
            Sample::Density => faithful(sampling.with_density(density), device),
            Sample::Ready => sampling.session.backups == sampled(sampling.session.names(), device),
        },
{
    let names = sampling.session.names();
    let read = sampling.read as int;
    if read == 0 {
        assert(readings(names.take(0), device) =~= Seq::empty());
    }
    if faithful(sampling, device) {
        if read < names.len() {
            let more = names.take(read + 1);
            assert(readings(more, device).drop_last() =~= readings(names.take(read), device));
            assert(readings(more, device).last() == (names[read], device(names[read])));
            assert(sampling.with_value(device(names[read])).session.names() == names);
        } else {
            assert(names.take(read) =~= names);
            assert(sampling.with_density(density).session.names() == names);
        }
    }
}

/// Changes leave every property alone that they do not speak of.
proof fn lemma_effects_elsewhere(
    device: spec_fn(Seq<char>) -> Seq<char>,
    ops: Seq<Op>,
    name: Seq<char>,
)
    requires
        forall|i: int| 0 <= i < ops.len() ==> (#[trigger] ops[i]).name() != name,
    ensures
        effects(device, ops)(name) == device(name),
    decreases ops.len(),
{
    if ops.len() > 0 {
        assert forall|i: int| 0 <= i < ops.drop_last().len() implies (
        #[trigger] ops.drop_last()[i]).name() != name by {
            assert(ops.drop_last()[i] == ops[i]);
        }
        lemma_effects_elsewhere(device, ops.drop_last(), name);
        assert(ops.last().name() != name);
    }
}

/// However far the activation of a session gets, it changes no property but those of the session.
pub proof fn law_activation_changes_only_its_properties(
    session: SessionModel,
    device: spec_fn(Seq<char>) -> Seq<char>,
    done: nat,
    name: Seq<char>,
)
    requires
        done <= session.activation().ops.len(),
        !session.names().contains(name),
    ensures
        effects(device, session.activation().ops.take(done as int))(name) == device(name),
{
    let ops = session.activation().ops;
    let names = session.names();
    let part = ops.take(done as int);
    assert forall|i: int| 0 <= i < part.len() implies (#[trigger] part[i]).name() != name by {
        assert(names[i] == ops[i].name()) by {
            if i < session.props.len() {
                assert(names[i] == session.props[i].0);
            } else {
                assert(names[i] == session.delete_props[i - session.props.len()]);
            }
        }
        assert(names.contains(names[i]));
    }
    lemma_effects_elsewhere(device, part, name);
}

/// Deleting some properties leaves them empty and the others alone.
proof fn lemma_removals(
    device: spec_fn(Seq<char>) -> Seq<char>,
    ops: Seq<Op>,
    names: Seq<Seq<char>>,
    name: Seq<char>,
)
    ensures
        effects(device, ops + removals(names))(name) == if names.contains(name) {
            Seq::empty()
        } else {
            effects(device, ops)(name)
        },
    decreases names.len(),
{
    let all = ops + removals(names);
    if names.len() == 0 {
        assert(all =~= ops);
    } else {
        assert(all.drop_last() =~= ops + removals(names.drop_last()));
        lemma_removals(device, ops, names.drop_last(), name);
        assert(all.last() == Op::Delete(names.last()));
        assert(names =~= names.drop_last().push(names.last()));
        if names.drop_last().contains(name) {
            let i = choose|i: int| 0 <= i < names.drop_last().len() && names.drop_last()[i] == name;
            assert(names[i] == name);
        }
    }
}

/// When the activation of a session has been carried out, the device shows the values of the
/// session, nothing for the properties that it deletes, and what it showed before for all others.
pub proof fn law_activation_takes_effect(
    session: SessionModel,
    device: spec_fn(Seq<char>) -> Seq<char>,
    name: Seq<char>,
)
    requires
        distinct_keys(session.props),
    ensures
        effects(device, session.activation().ops)(name) == if session.delete_props.contains(name) {
            Seq::empty()
        } else {
            match lookup(session.props, name) {
                Some(value) => value,
                None => device(name),
            }
        },
{
    lemma_removals(device, writes(session.props), session.delete_props, name);
    lemma_writes(device, session.props, name);
    lemma_last_value_is_lookup(session.props, name);
}

/// Restoring a session brings every property back to what it showed when the session was sampled,
/// whatever has become of the properties of the session in between.
pub proof fn law_restoration_undoes_activation(
    session: SessionModel,
    before: spec_fn(Seq<char>) -> Seq<char>,
    during: spec_fn(Seq<char>) -> Seq<char>,
    name: Seq<char>,
)
    requires
        session.backups == sampled(session.names(), before),
        forall|other: Seq<char>| !session.names().contains(other) ==> during(other) == before(other),
    ensures
        effects(during, session.restoration().ops)(name) == before(name),
{
    law_backups_hold_the_device(session.names(), before, name);
    lemma_writes(during, session.backups, name);
    lemma_last_value_is_lookup(session.backups, name);
}

/// The density override after `wm density`.
pub open spec fn density_effect(current: Option<u32>, arg: DensityArg) -> Option<u32> {
    match arg {
        DensityArg::Report => current,
        DensityArg::Reset => None,
        DensityArg::To(dpi) => Some(dpi),
    }
}

/// Activation sets the density that the session asks for, and leaves the density alone where it
/// asks for none. Restoration brings back the override that was in force before. A session that
/// asks for no density does not sample it, and its restoration ends any override there is: for
/// such a session this holds of a device without one.
pub proof fn law_density_is_restored(
    session: SessionModel,
    before: Option<u32>,
    during: Option<u32>,
)
    requires
        session.density is Some ==> session.orig_density == before,
        session.density is None ==> session.orig_density is None && before is None,
    ensures
        session.activation().density == match session.density {
            Some(dpi) => Some(DensityArg::To(dpi)),
            None => None,
        },
        density_effect(during, session.restoration().density->0) == before,
{
}

/// After the focus has moved to an application, a session is active if and only if it belongs to
/// that application.
pub proof fn law_active_with_the_focus(session: Option<SessionModel>, pkg: Seq<char>, alive: bool)
    requires
        pkg != "-"@,
    ensures
        focused(session, pkg, alive).0 matches Some(s) ==> (s.activated <==> s.package == pkg),
{
}

/// The moment between two applications changes nothing on the device.
pub proof fn law_nothing_changes_in_between(session: Option<SessionModel>, alive: bool)
    ensures
        focused(session, "-"@, alive) == (reaped(session, alive), None::<Progress>),
{
}

/// Hearing of the same focus again changes nothing.
pub proof fn law_focus_is_idempotent(session: Option<SessionModel>, pkg: Seq<char>)
    ensures
        focused(focused(session, pkg, true).0, pkg, true) == (
            focused(session, pkg, true).0,
            None::<Progress>,
        ),
{
}

/// A move of the focus changes nothing of a session but whether it is active, and only a session
/// that changes in this changes the device: into force when it becomes active, and back when it
/// becomes inactive.
pub proof fn law_focus_keeps_the_session(session: SessionModel, pkg: Seq<char>, alive: bool)
    ensures
        match focused(Some(session), pkg, alive) {
            (Some(after), change) => {
                &&& after == session.with_activated(after.activated)
                &&& change == if after.activated == session.activated {
                    None
                } else if after.activated {
                    Some(session.activation())
                } else {
                    Some(session.restoration())
                }
            },
            (None, change) => !alive && !session.activated && change is None,
        },
{
    assert(session.with_activated(session.activated) =~= session);
}

/// A session whose process has ended goes with the next event if it is inactive. If it is active,
/// it is undone when the focus moves to another application, and goes with the event after that.
pub proof fn law_dead_session_goes(session: SessionModel, pkg: Seq<char>, next: Seq<char>)
    ensures
        !session.activated ==> focused(Some(session), pkg, false).0 is None,
        session.activated && pkg != session.package && pkg != "-"@ ==> {
            let (after, change) = focused(Some(session), pkg, false);
            &&& change == Some(session.restoration())
            &&& focused(after, next, false).0 is None
        },
{
}

/// Without a session no move of the focus does anything.
pub proof fn law_no_session_no_change(pkg: Seq<char>, alive: bool)
    ensures
        focused(None, pkg, alive) == (None::<SessionModel>, None::<Progress>),
{
}

/// Whether a request repeats the session depends on the application, on whether the process of the
/// session is there and on the density, and on nothing else: neither on the process that asks nor
/// on the properties.
pub proof fn law_what_repeats_a_session(
    session: SessionModel,
    request: ResetpropSessionRequest,
    other: ResetpropSessionRequest,
    alive: bool,
)
    ensures
        session.package == request.package_name@ && alive && session.density == request.density
            ==> is_duplicate(Some(session), request, alive),
        session.package != request.package_name@ || !alive || session.density != request.density
            ==> !is_duplicate(Some(session), request, alive),
        !is_duplicate(None, request, alive),
        request.package_name@ == other.package_name@ && request.density == other.density
            ==> is_duplicate(Some(session), request, alive) == is_duplicate(
            Some(session),
            other,
            alive,
        ),
{
}

/// The properties of a session are those that it sets and those that it deletes.
pub proof fn law_properties_of_a_session(session: SessionModel, name: Seq<char>)
    ensures
        session.names().contains(name) <==> has_key(session.props, name)
            || session.delete_props.contains(name),
{
    let set = crate::session::keys(session.props);
    vstd::seq_lib::lemma_seq_concat_contains_all_elements(set, session.delete_props, name);
    if set.contains(name) {
        let i = choose|i: int| 0 <= i < set.len() && set[i] == name;
        assert(session.props[i].0 == name);
    }
    if has_key(session.props, name) {
        let i = crate::string_map::key_index(session.props, name);
        assert(0 <= i < session.props.len() && session.props[i].0 == name);
        assert(set[i] == name);
    }
}

/// The session that comes of reading everything that a session changes, on a device that shows
/// the given properties and the given density override.
pub open spec fn run_sampling(
    sampling: SamplingModel,
    device: spec_fn(Seq<char>) -> Seq<char>,
    density: Option<u32>,
) -> SessionModel
    decreases
            (sampling.session.names().len() - sampling.read) + (if sampling.density_read {
                0int
            } else {
                1int
            }),
    when sampling.read <= sampling.session.names().len()
{
    match sampling.step() {
        Sample::Property(name) => run_sampling(
            sampling.with_value(device(name)),
            device,
            density,
        ),
        Sample::Density => run_sampling(sampling.with_density(density), device, density),
        Sample::Ready => sampling.session,
    }
}

/// Reading everything that a session changes keeps what the device shows of it: each property
/// that it sets or deletes, and the density override where it asks for a density. Nothing else of
/// the session changes, and the density is not read where it asks for none.
pub proof fn law_sampling_run(
    session: SessionModel,
    device: spec_fn(Seq<char>) -> Seq<char>,
    density: Option<u32>,
)
    requires
        session.backups.len() == 0,
    ensures
        run_sampling(
            (SamplingModel { session, read: 0, density_read: false }),
            device,
            density,
        ) == (SessionModel {
            backups: sampled(session.names(), device),
            orig_density: match session.density {
                Some(_) => density,
                None => session.orig_density,
            },
            ..session
        }),
{
    let start = SamplingModel { session, read: 0, density_read: false };
    assert(session.backups =~= Seq::empty());
    law_sampling_reads_the_device(start, device, density);
    lemma_sampling_run(start, device, density);
}

proof fn lemma_sampling_run(
    sampling: SamplingModel,
    device: spec_fn(Seq<char>) -> Seq<char>,
    density: Option<u32>,
)
    requires
        faithful(sampling, device),
    ensures
        run_sampling(sampling, device, density) == (SessionModel {
            backups: sampled(sampling.session.names(), device),
            orig_density: if sampling.session.density is Some && !sampling.density_read {
                density
            } else {
                sampling.session.orig_density
            },
            ..sampling.session
        }),
    decreases
            (sampling.session.names().len() - sampling.read) + (if sampling.density_read {
                0int
            } else {
                1int
            }),
{
    law_sampling_reads_the_device(sampling, device, density);
    match sampling.step() {
        Sample::Property(name) => {
            assert(sampling.with_value(device(name)).session.names() == sampling.session.names());
            lemma_sampling_run(sampling.with_value(device(name)), device, density);
        },
        Sample::Density => {
            assert(sampling.with_density(density).session.names() == sampling.session.names());
            lemma_sampling_run(sampling.with_density(density), device, density);
        },
        Sample::Ready => {},
    }
}


/// A density override that was read is kept as it is, and none as none.
pub proof fn law_override_is_kept(dpi: nat)
    requires
        dpi <= 0xffff_ffff,
    ensures
        kept_override(Some(dpi)) matches Some(kept) && kept == dpi,
        kept_override(None) is None,
{
}

/// A change is told where there is one, and none where there is none.
pub proof fn law_change_is_told(change: GlobalChange)
    ensures
        opt_change(Some(change)) == Some(change@),
        opt_change(None) is None,
{
}

/// A density is refused with the range that is supported.
pub proof fn law_refusal_text(e: CompanionError, dpi: u32)
    requires
        refusal(e, Some(dpi)),
    ensures
        e.text() == "DPI "@ + decimal(dpi as nat) + " is outside the supported range 120..=640"@,
        density_supported(Some(dpi)) <==> 120 <= dpi && dpi <= 640,
        density_supported(None),
{
    let any = vstd::pervasive::arbitrary::<String>();
    law_error_texts(dpi, any, any, DensityArg::Report);
}

/// Becoming active or inactive changes nothing else of a session, and the change that goes with it
/// begins with nothing done.
pub proof fn law_activation_changes_nothing_else(session: SessionModel, activated: bool)
    ensures
        session.with_activated(activated).activated == activated,
        (SessionModel {
            activated: session.activated,
            ..session.with_activated(activated)
        }) == session,
        session.activation().done == 0 && session.restoration().done == 0,
        session.activation().error is None && session.restoration().error is None,
        !session.activation().rebuilt && !session.restoration().rebuilt,
{
}

} // verus!
