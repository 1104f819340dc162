//! The session of the application that is being served, and when its properties and density are
//! in force.
//!
//! A session is registered inactive, with the values that stood on the device before. It becomes
//! active when its application gets the focus, and inactive when another one gets it.

use vstd::prelude::*;
use vstd::utf8::{decode_utf8, valid_utf8};

use crate::change::{
    apply_props_batch, removals, restore_props_batch, started, writes, GlobalChange, Progress,
};
use crate::density::{
    density_arg, first_override, query_density_override, reported_override, restore_density,
    set_density,
};
use crate::error::{number_error_text, CompanionError};
use crate::number::decimal;
use crate::profile::{dpi_in_range, DPI_MAX, DPI_MIN};
use crate::protocol::{asks_nothing, ResetpropSessionRequest, RestoreRequest};
use crate::split::lines_of;
use crate::string_map::{put, PropertyMap};
use crate::text;
use crate::tool::{backup_property, lossy_text, property_value, ToolRun};

verus! {

/// A session, in the mathematical model.
#[verifier::ext_equal]
pub ghost struct SessionModel {
    /// The application.
    pub package: Seq<char>,
    /// The process of the application.
    pub app_pid: u32,
    /// The properties to set.
    pub props: Seq<(Seq<char>, Seq<char>)>,
    /// The properties to delete.
    pub delete_props: Seq<Seq<char>>,
    /// The density to set.
    pub density: Option<u32>,
    /// The values that the properties had before.
    pub backups: Seq<(Seq<char>, Seq<char>)>,
    /// The density override that was in force before.
    pub orig_density: Option<u32>,
    /// Whether the properties and the density are in force.
    pub activated: bool,
}

/// The names of some properties.
pub open spec fn keys(pairs: Seq<(Seq<char>, Seq<char>)>) -> Seq<Seq<char>> {
    pairs.map_values(|pair: (Seq<char>, Seq<char>)| pair.0)
}

impl SessionModel {
    /// The properties that the session changes, in the order in which they are sampled.
    pub open spec fn names(self) -> Seq<Seq<char>> {
        keys(self.props) + self.delete_props
    }

    /// The change that puts the session into force. The density is left alone where the session
    /// asks for none.
    pub open spec fn activation(self) -> Progress {
        started(
            writes(self.props) + removals(self.delete_props),
            match self.density {
                Some(_) => Some(density_arg(self.density)),
                None => None,
            },
        )
    }

    /// The change that brings back what stood there before.
    pub open spec fn restoration(self) -> Progress {
        started(writes(self.backups), Some(density_arg(self.orig_density)))
    }

    /// The session, active or not.
    pub open spec fn with_activated(self, activated: bool) -> SessionModel {
        SessionModel { activated, ..self }
    }
}

/// What a session asks for.
#[derive(Debug)]
pub struct SessionSpec {
    pub props: PropertyMap,
    pub delete_props: Vec<String>,
    pub density: Option<u32>,
}

/// What stood on the device before the session.
#[derive(Debug)]
pub struct Originals {
    pub prop_backups: PropertyMap,
    pub orig_density: Option<u32>,
}

/// The session of an application.
#[derive(Debug)]
pub struct Session {
    pub package: String,
    pub app_pid: u32,
    pub spec: SessionSpec,
    pub originals: Originals,
    pub activated: bool,
}

impl View for Session {
    type V = SessionModel;

    open spec fn view(&self) -> SessionModel {
        SessionModel {
            package: self.package@,
            app_pid: self.app_pid,
            props: self.spec.props.pairs(),
            delete_props: text::views(self.spec.delete_props@),
            density: self.spec.density,
            backups: self.originals.prop_backups.pairs(),
            orig_density: self.originals.orig_density,
            activated: self.activated,
        }
    }
}

/// Marks a session active and returns the change to carry out. It counts as active even if the
/// change fails half-way, so that losing the focus always brings the old values back.
pub fn activate_session(sess: &mut Session) -> (out: GlobalChange)
    ensures
        final(sess)@ == old(sess)@.with_activated(true),
        out@ == old(sess)@.activation(),
{
    sess.activated = true;
    let density = match sess.spec.density {
        Some(dpi) => Some(set_density(Some(dpi))),
        None => None,
    };
    apply_props_batch(&sess.spec.props, &sess.spec.delete_props, density)
}

/// Marks a session inactive and returns the change to carry out.
pub fn deactivate_session(sess: &mut Session) -> (out: GlobalChange)
    ensures
        final(sess)@ == old(sess)@.with_activated(false),
        out@ == old(sess)@.restoration(),
{
    sess.activated = false;
    restore_props_batch(
        &sess.originals.prop_backups,
        Some(restore_density(sess.originals.orig_density)),
    )
}

/// The change that gives properties their values back; none where there is none to give back.
pub fn restore_properties(request: &RestoreRequest) -> (out: Option<GlobalChange>)
    ensures
        match out {
            None => request.props.pairs().len() == 0,
            Some(change) => request.props.pairs().len() > 0 && change@ == started(
                writes(request.props.pairs()),
                None,
            ),
        },
{
    if request.props.is_empty() {
        return None;
    }
    Some(restore_props_batch(&request.props, None))
}

/// What is left of a session whose process may have ended: an inactive one goes with its process.
/// An active one waits until the focus moves on.
pub open spec fn reaped(session: Option<SessionModel>, alive: bool) -> Option<SessionModel> {
    match session {
        Some(s) => if !alive && !s.activated {
            None
        } else {
            session
        },
        None => None,
    }
}

/// The session after the focus has moved to `pkg`, and the change to carry out. The name `-`
/// stands for a moment between two applications, in which everything stays as it is.
pub open spec fn focused(session: Option<SessionModel>, pkg: Seq<char>, alive: bool) -> (
    Option<SessionModel>,
    Option<Progress>,
) {
    match reaped(session, alive) {
        None => (None, None),
        Some(s) => if pkg == "-"@ {
            (Some(s), None)
        } else if pkg == s.package && !s.activated {
            (Some(s.with_activated(true)), Some(s.activation()))
        } else if pkg != s.package && s.activated {
            (Some(s.with_activated(false)), Some(s.restoration()))
        } else {
            (Some(s), None)
        },
    }
}

/// An optional change, in the mathematical model.
pub open spec fn opt_change(change: Option<GlobalChange>) -> Option<Progress> {
    match change {
        Some(change) => Some(change@),
        None => None,
    }
}

/// What a request for a session leads to before any session is looked at.
#[derive(Debug)]
pub enum ApplyCheck {
    /// The request asks for nothing and is answered with no backups.
    Nothing,
    /// The request is refused.
    Refused(CompanionError),
    /// A session is to be registered.
    Proceed,
}

/// Whether a requested density is supported. No density is.
pub open spec fn density_supported(density: Option<u32>) -> bool {
    match density {
        Some(dpi) => dpi_in_range(dpi),
        None => true,
    }
}

/// Whether a request asks for nothing.
pub open spec fn request_is_empty(request: ResetpropSessionRequest) -> bool {
    asks_nothing(request.props.pairs(), text::views(request.delete_props@), request.density)
}

/// Whether an error refuses a density.
pub open spec fn refusal(e: CompanionError, density: Option<u32>) -> bool {
    &&& e is DpiOutOfRange
    &&& e.text() == "DPI "@ + decimal(density->0 as nat) + " is outside the supported range "@
        + decimal(DPI_MIN as nat) + "..="@ + decimal(DPI_MAX as nat)
}

/// Decides what a request for a session leads to.
pub fn check_session_request(request: &ResetpropSessionRequest) -> (out: ApplyCheck)
    ensures
        match out {
            ApplyCheck::Nothing => request_is_empty(*request),
            ApplyCheck::Refused(e) => !density_supported(request.density) && refusal(
                e,
                request.density,
            ),
            ApplyCheck::Proceed => !request_is_empty(*request) && density_supported(
                request.density,
            ),
        },
        out is Nothing <==> request.props.pairs().len() == 0 && request.delete_props@.len() == 0
            && request.density is None,
        out is Refused <==> (request.density matches Some(dpi) && (dpi < 120 || dpi > 640)),
{
    if request.props.is_empty() && request.delete_props.len() == 0 && request.density.is_none() {
        return ApplyCheck::Nothing;
    }
    if let Some(dpi) = request.density {
        if dpi < DPI_MIN || dpi > DPI_MAX {
            return ApplyCheck::Refused(CompanionError::DpiOutOfRange(dpi));
        }
    }
    ApplyCheck::Proceed
}

/// The session that a request asks for, with nothing sampled yet.
pub open spec fn requested(request: ResetpropSessionRequest) -> SessionModel {
    SessionModel {
        package: request.package_name@,
        app_pid: request.pid,
        props: request.props.pairs(),
        delete_props: text::views(request.delete_props@),
        density: request.density,
        backups: Seq::empty(),
        orig_density: None,
        activated: false,
    }
}

/// Whether a request repeats a session whose process is still there.
pub open spec fn is_duplicate(
    session: Option<SessionModel>,
    request: ResetpropSessionRequest,
    alive: bool,
) -> bool {
    match session {
        Some(s) => s.package == request.package_name@ && alive && s.density == request.density,
        None => false,
    }
}

/// A session whose original values are being read, in the mathematical model.
#[verifier::ext_equal]
pub ghost struct SamplingModel {
    /// The session, with what was read so far.
    pub session: SessionModel,
    /// How many properties were read.
    pub read: nat,
    /// Whether the density was read.
    pub density_read: bool,
}

/// A step of sampling, in the mathematical model.
pub ghost enum Sample {
    Property(Seq<char>),
    Density,
    Ready,
}

impl SamplingModel {
    /// The next step. The density is read only where the session asks for one.
    pub open spec fn step(self) -> Sample {
        if self.read < self.session.names().len() {
            Sample::Property(self.session.names()[self.read as int])
        } else if self.session.density is Some && !self.density_read {
            Sample::Density
        } else {
            Sample::Ready
        }
    }

    /// Once the next property has been read.
    pub open spec fn with_value(self, value: Seq<char>) -> SamplingModel {
        let name = self.session.names()[self.read as int];
        SamplingModel {
            session: SessionModel { backups: put(self.session.backups, name, value), ..self.session },
            read: self.read + 1,
            ..self
        }
    }

    /// Once the density has been read.
    pub open spec fn with_density(self, density: Option<u32>) -> SamplingModel {
        SamplingModel {
            session: SessionModel { orig_density: density, ..self.session },
            density_read: true,
            ..self
        }
    }
}

/// The next step of sampling.
#[derive(Debug)]
pub enum SampleStep {
    /// Run `getprop` for a property.
    Property(String),
    /// Have `wm density` report.
    Density,
    /// Everything is read.
    Ready,
}

impl View for SampleStep {
    type V = Sample;

    open spec fn view(&self) -> Sample {
        match self {
            SampleStep::Property(name) => Sample::Property(name@),
            SampleStep::Density => Sample::Density,
            SampleStep::Ready => Sample::Ready,
        }
    }
}

/// Where reading stands: among the properties to set, or among those to delete.
#[derive(Debug, Clone, Copy)]
enum Position {
    Props(usize),
    Deletes(usize),
}

/// A session whose original values are being read.
#[derive(Debug)]
pub struct Sampling {
    session: Session,
    position: Position,
    density_read: bool,
}

impl View for Sampling {
    type V = SamplingModel;

    closed spec fn view(&self) -> SamplingModel {
        SamplingModel {
            session: self.session@,
            read: match self.position {
                Position::Props(i) => i as nat,
                Position::Deletes(i) => self.session@.props.len() + i as nat,
            },
            density_read: self.density_read,
        }
    }
}

/// A density override that was read, as it is kept.
pub open spec fn kept_override(number: Option<nat>) -> Option<u32> {
    match number {
        Some(n) => Some(n as u32),
        None => None,
    }
}

impl Sampling {
    /// Nothing is read yet.
    fn new(request: ResetpropSessionRequest) -> (out: Self)
        ensures
            out@ == (SamplingModel { session: requested(request), read: 0, density_read: false }),
    {
        Sampling {
            session: Session {
                package: request.package_name,
                app_pid: request.pid,
                spec: SessionSpec {
                    props: request.props,
                    delete_props: request.delete_props,
                    density: request.density,
                },
                originals: Originals { prop_backups: PropertyMap::new(), orig_density: None },
                activated: false,
            },
            position: Position::Props(0),
            density_read: false,
        }
    }

    /// The property that is read next, if one is left.
    fn next_name(&self) -> (out: Option<String>)
        ensures
            match out {
                Some(name) => self@.step() == Sample::Property(name@),
                None => self@.read >= self@.session.names().len(),
            },
    {
        let n = self.session.spec.props.len();
        let i: usize = match self.position {
            Position::Props(i) => {
                if i < n {
                    let name = self.session.spec.props.key_at(i).clone();
                    assert(self@.session.names()[i as int] == name@);
                    return Some(name);
                }
                i - n
            },
            Position::Deletes(i) => i,
        };
        if i < self.session.spec.delete_props.len() {
            let name = self.session.spec.delete_props[i].clone();
            assert(self@.session.names()[n + i] == name@);
            return Some(name);
        }
        None
    }

    /// The step to carry out next.
    pub fn next_step(&self) -> (out: SampleStep)
        ensures
            out@ == self@.step(),
    {
        match self.next_name() {
            Some(name) => SampleStep::Property(name),
            None => if self.session.spec.density.is_some() && !self.density_read {
                SampleStep::Density
            } else {
                SampleStep::Ready
            },
        }
    }

    /// Keeps the value of the property that is read next.
    pub fn record(&mut self, value: &str)
        requires
            old(self)@.step() is Property,
        ensures
            final(self)@ == old(self)@.with_value(value@),
    {
        match self.next_name() {
            Some(name) => {
                self.session.originals.prop_backups.set(name.as_str(), value);
                let n = self.session.spec.props.len();
                assert(self.session.spec.delete_props.len() <= usize::MAX);
                self.position = match self.position {
                    Position::Props(i) => if i < n {
                        Position::Props(i + 1)
                    } else {
                        Position::Deletes(i - n + 1)
                    },
                    Position::Deletes(i) => Position::Deletes(i + 1),
                };
            },
            None => {},
        }
    }

    /// Takes the run of `getprop` for the property that is read next. Where it failed, the
    /// session is not to be registered.
    pub fn report_property(&mut self, run: ToolRun) -> (out: Result<(), CompanionError>)
        requires
            old(self)@.step() is Property,
        ensures
            match run {
                ToolRun::NotStarted(cause) => {
                    &&& out matches Err(e) && e.text() == cause@
                    &&& final(self)@ == old(self)@
                },
                ToolRun::Ended(output) => if output.success {
                    &&& out is Ok
                    &&& final(self)@ == old(self)@.with_value(
                        property_value(lossy_text(output.stdout@)),
                    )
                    &&& valid_utf8(output.stdout@) ==> final(self)@ == old(self)@.with_value(
                        property_value(decode_utf8(output.stdout@)),
                    )
                } else {
                    &&& out matches Err(e) && e.text() == "getprop failed for "@
                        + old(self)@.step()->Property_0
                    &&& final(self)@ == old(self)@
                },
            },
    {
        let name = match self.next_name() {
            Some(name) => name,
            None => return Ok(()),
        };
        match run {
            ToolRun::NotStarted(cause) => Err(CompanionError::Outside(cause)),
            ToolRun::Ended(output) => match backup_property(name.as_str(), &output) {
                Ok(value) => {
                    self.record(value.as_str());
                    Ok(())
                },
                Err(e) => Err(e),
            },
        }
    }

    /// Takes the report of `wm density`. Where it cannot be understood, the session is not to be
    /// registered.
    pub fn report_density(&mut self, report: &str) -> (out: Result<(), CompanionError>)
        requires
            old(self)@.step() is Density,
        ensures
            match reported_override(report@) {
                Ok(number) => {
                    &&& out is Ok
                    &&& final(self)@ == old(self)@.with_density(kept_override(number))
                },
                Err(cause) => {
                    &&& out matches Err(e) && e.text() == "invalid Override density value '"@
                        + first_override(lines_of(report@))->0 + "': "@ + number_error_text(cause)
                    &&& final(self)@ == old(self)@
                },
            },
    {
        match query_density_override(report) {
            Ok(density) => {
                self.session.originals.orig_density = density;
                self.density_read = true;
                Ok(())
            },
            Err(e) => Err(e),
        }
    }
}

/// How a request for a session goes on.
#[derive(Debug)]
pub enum ApplyStart {
    /// The request asks for nothing and is answered with no backups.
    Nothing,
    /// The request is refused.
    Refused(CompanionError),
    /// The session is there already; these are its backups.
    Duplicate(PropertyMap),
    /// Carry out the change, if any, and then read the original values.
    Sample { sampling: Sampling, converge: Option<GlobalChange> },
}

/// The companion: at most one session.
#[derive(Debug)]
pub struct Companion {
    session: Option<Session>,
}

impl View for Companion {
    type V = Option<SessionModel>;

    closed spec fn view(&self) -> Option<SessionModel> {
        match self.session {
            Some(session) => Some(session@),
            None => None,
        }
    }
}

impl Companion {
    /// No session yet.
    pub fn new() -> (out: Self)
        ensures
            out@ is None,
    {
        Companion { session: None }
    }

    /// The process of the session, whose end is to be looked for.
    pub fn session_pid(&self) -> (out: Option<u32>)
        ensures
            out == match self@ {
                Some(s) => Some(s.app_pid),
                None => None,
            },
    {
        match &self.session {
            Some(session) => Some(session.app_pid),
            None => None,
        }
    }

    /// The focus has moved to `pkg`. `alive` tells whether the process of the session is there.
    pub fn handle_fg_event(&mut self, pkg: &str, alive: bool) -> (out: Option<GlobalChange>)
        ensures
            (final(self)@, opt_change(out)) == focused(old(self)@, pkg@, alive),
    {
        let mut session = match self.session.take() {
            Some(session) => session,
            None => return None,
        };
        if !alive && !session.activated {
            return None;
        }
        let mut out: Option<GlobalChange> = None;
        if !text::same(pkg, "-") {
            if text::same(pkg, session.package.as_str()) {
                if !session.activated {
                    out = Some(activate_session(&mut session));
                }
            } else if session.activated {
                out = Some(deactivate_session(&mut session));
            }
        }
        self.session = Some(session);
        out
    }

    /// Takes up a request for a session, if [`check_session_request`] lets it proceed. A request
    /// that repeats the session is answered with its backups. Any other session ends, and an
    /// active one is undone first, so that the values that are read next are those of the device.
    pub fn apply_resetprop_session(
        &mut self,
        request: ResetpropSessionRequest,
        alive: bool,
    ) -> (out: ApplyStart)
        ensures
            match out {
                ApplyStart::Nothing => {
                    &&& request_is_empty(request)
                    &&& final(self)@ == old(self)@
                },
                ApplyStart::Refused(e) => {
                    &&& !density_supported(request.density)
                    &&& refusal(e, request.density)
                    &&& final(self)@ == old(self)@
                },
                ApplyStart::Duplicate(backups) => {
                    &&& !request_is_empty(request) && density_supported(request.density)
                    &&& is_duplicate(old(self)@, request, alive)
                    &&& final(self)@ == old(self)@
                    &&& backups.pairs() == old(self)@->0.backups
                },
                ApplyStart::Sample { sampling, converge } => {
                    &&& !request_is_empty(request) && density_supported(request.density)
                    &&& !is_duplicate(old(self)@, request, alive)
                    &&& final(self)@ is None
                    &&& sampling@ == (SamplingModel {
                        session: requested(request),
                        read: 0,
                        density_read: false,
                    })
                    &&& opt_change(converge) == match old(self)@ {
                        Some(s) => if s.activated {
                            Some(s.restoration())
                        } else {
                            None
                        },
                        None => None,
                    }
                },
            },
            request.props.pairs().len() == 0 && request.delete_props@.len() == 0
                && request.density is None <==> out is Nothing,
            (request.density matches Some(dpi) && (dpi < 120 || dpi > 640)) <==> out is Refused,
            !(out is Nothing) && !(out is Refused) ==> {
                match old(self)@ {
                    Some(s) => if s.package == request.package_name@ && alive && s.density
                        == request.density {
                        &&& out matches ApplyStart::Duplicate(backups) && backups.pairs()
                            == s.backups
                        &&& final(self)@ == Some(s)
                    } else {
                        out is Sample
                    },
                    None => out is Sample,
                }
            },
            out matches ApplyStart::Sample { sampling, converge } ==> {
                &&& sampling@.session.package == request.package_name@
                &&& sampling@.session.app_pid == request.pid
                &&& sampling@.session.props == request.props.pairs()
                &&& sampling@.session.delete_props == text::views(request.delete_props@)
                &&& sampling@.session.density == request.density
                &&& sampling@.session.backups.len() == 0
                &&& sampling@.session.orig_density is None
                &&& !sampling@.session.activated
                &&& converge is Some <==> (old(self)@ matches Some(s) && s.activated)
            },
    {
        match check_session_request(&request) {
            ApplyCheck::Nothing => return ApplyStart::Nothing,
            ApplyCheck::Refused(e) => return ApplyStart::Refused(e),
            ApplyCheck::Proceed => {},
        }
        let mut converge: Option<GlobalChange> = None;
        if let Some(mut session) = self.session.take() {
            if text::same(session.package.as_str(), request.package_name.as_str()) && alive
                && session.spec.density == request.density {
                let backups = session.originals.prop_backups.clone();
                self.session = Some(session);
                return ApplyStart::Duplicate(backups);
            }
            if session.activated {
                converge = Some(deactivate_session(&mut session));
            }
        }
        ApplyStart::Sample { sampling: Sampling::new(request), converge }
    }

    /// Registers a session whose original values are read. It is inactive. Returns the backups
    /// that the answer carries.
    pub fn register(&mut self, sampling: Sampling) -> (out: PropertyMap)
        requires
            sampling@.step() is Ready,
        ensures
            final(self)@ == Some(sampling@.session),
            out.pairs() == sampling@.session.backups,
    {
        let backups = sampling.session.originals.prop_backups.clone();
        self.session = Some(sampling.session);
        backups
    }

    /// Puts a session into force that was registered while its application had the focus already.
    pub fn catch_up(&mut self, fg: Option<String>, package_name: &str, alive: bool) -> (out: Option<
        GlobalChange,
    >)
        ensures
            (final(self)@, opt_change(out)) == match fg {
                Some(pkg) => if pkg@ == package_name@ {
                    focused(old(self)@, pkg@, alive)
                } else {
                    (old(self)@, None)
                },
                None => (old(self)@, None),
            },
    {
        match fg {
            Some(pkg) => if text::same(pkg.as_str(), package_name) {
                self.handle_fg_event(pkg.as_str(), alive)
            } else {
                None
            },
            None => None,
        }
    }
}

} // verus!
