use device_faker::change::{
    apply_props_batch, rebuild_all_contexts, restore_props_batch, ChangeStep, GlobalChange, PropOp,
    StepOutcome,
};
use device_faker::density::DensityArg;
use device_faker::protocol::{ResetpropSessionRequest, RestoreRequest};
use device_faker::session::{
    check_session_request, restore_properties, ApplyCheck, ApplyStart, Companion, SampleStep,
    Sampling,
};
use device_faker::string_map::PropertyMap;
use device_faker::tool::{ToolOutput, ToolRun};

fn props(pairs: &[(&str, &str)]) -> PropertyMap {
    let mut map = PropertyMap::new();
    for (k, v) in pairs {
        map.set(k, v);
    }
    map
}

fn request(package: &str, density: Option<u32>) -> ResetpropSessionRequest {
    ResetpropSessionRequest {
        pid: 77,
        props: props(&[("ro.a", "new a"), ("ro.b", "new b")]),
        delete_props: vec!["ro.c".to_string(), "ro.a".to_string()],
        package_name: package.to_string(),
        density,
        debug: false,
    }
}

fn printed(value: &str) -> ToolRun {
    ToolRun::Ended(ToolOutput {
        success: true,
        status: "exit status: 0".to_string(),
        stdout: format!("{}\n", value).into_bytes(),
        stderr: Vec::new(),
    })
}

/// Carries out a change on a device and returns the steps that were taken. A change of a property
/// listed in `broken` fails.
fn carry_out(
    mut change: GlobalChange,
    device: &mut PropertyMap,
    density: &mut Option<u32>,
    broken: &str,
) -> Vec<String> {
    let mut steps = Vec::new();
    loop {
        match change.next_step() {
            ChangeStep::Property(PropOp::Write { name, value }) => {
                steps.push(format!("set {}", name));
                if name == broken {
                    change.report(StepOutcome::Failed("full".to_string()));
                } else {
                    device.set(&name, &value);
                    change.report(StepOutcome::Done(false));
                }
            }
            ChangeStep::Property(PropOp::Delete { name }) => {
                steps.push(format!("delete {}", name));
                if name == broken {
                    change.report(StepOutcome::Failed("read-only".to_string()));
                } else {
                    device.set(&name, "");
                    change.report(StepOutcome::Done(true));
                }
            }
            ChangeStep::Rebuild(names) => {
                steps.push(format!("rebuild {}", names.join(" ")));
                change.report(StepOutcome::Failed("not fatal".to_string()));
            }
            ChangeStep::Density(arg) => {
                steps.push(format!("density {}", arg.show()));
                match arg {
                    DensityArg::To(dpi) => *density = Some(dpi),
                    DensityArg::Reset => *density = None,
                    DensityArg::Report => {}
                }
                change.report(StepOutcome::Done(true));
            }
            ChangeStep::Finished => break,
        }
    }
    match change.result() {
        Ok(()) => {}
        Err(e) => steps.push(e.message()),
    }
    steps
}

fn sample(mut sampling: Sampling, device: &PropertyMap, report: &str) -> Sampling {
    loop {
        match sampling.next_step() {
            SampleStep::Property(name) => {
                let value = device.value_of(&name).map(|s| s.as_str()).unwrap_or("");
                sampling.report_property(printed(value)).unwrap();
            }
            SampleStep::Density => sampling.report_density(report).unwrap(),
            SampleStep::Ready => return sampling,
        }
    }
}

fn started(companion: &mut Companion, request: ResetpropSessionRequest) -> Sampling {
    match companion.apply_resetprop_session(request, true) {
        ApplyStart::Sample { sampling, converge } => {
            assert!(converge.is_none());
            sampling
        }
        other => panic!("{:?}", other),
    }
}

#[test]
fn requests_are_checked_first() {
    let empty = ResetpropSessionRequest {
        pid: 1,
        props: PropertyMap::new(),
        delete_props: Vec::new(),
        package_name: "p".to_string(),
        density: None,
        debug: true,
    };
    assert!(matches!(check_session_request(&empty), ApplyCheck::Nothing));
    assert!(matches!(check_session_request(&request("p", None)), ApplyCheck::Proceed));
    assert!(matches!(check_session_request(&request("p", Some(120))), ApplyCheck::Proceed));
    assert!(matches!(check_session_request(&request("p", Some(640))), ApplyCheck::Proceed));
    for dpi in [0, 119, 641, u32::MAX] {
        match check_session_request(&request("p", Some(dpi))) {
            ApplyCheck::Refused(e) => assert_eq!(
                e.message(),
                format!("DPI {} is outside the supported range 120..=640", dpi)
            ),
            other => panic!("{:?}", other),
        }
    }
}

#[test]
fn a_session_comes_into_force_with_the_focus_and_is_undone_without_it() {
    let mut device = props(&[("ro.a", "old a"), ("ro.c", "old c"), ("ro.z", "z")]);
    let mut density = Some(400);
    let mut companion = Companion::new();
    assert_eq!(companion.session_pid(), None);
    let sampling = started(&mut companion, request("com.game", Some(320)));
    let sampling = sample(sampling, &device, "Physical density: 420\nOverride density: 400\n");
    let backups = companion.register(sampling);
    assert_eq!(companion.session_pid(), Some(77));
    assert_eq!(backups.len(), 3);
    assert_eq!(backups.value_of("ro.a"), Some(&"old a".to_string()));
    assert_eq!(backups.value_of("ro.b"), Some(&"".to_string()));
    assert_eq!(backups.value_of("ro.c"), Some(&"old c".to_string()));

    // Another application gets the focus: nothing happens.
    assert!(companion.handle_fg_event("com.other", true).is_none());
    let change = companion.handle_fg_event("com.game", true).unwrap();
    let steps = carry_out(change, &mut device, &mut density, "");
    assert_eq!(
        steps,
        vec![
            "set ro.a",
            "set ro.b",
            "delete ro.c",
            "delete ro.a",
            "rebuild ro.a ro.b ro.c ro.a",
            "density [\"320\"]",
        ]
    );
    assert_eq!(device.value_of("ro.b"), Some(&"new b".to_string()));
    assert_eq!(device.value_of("ro.a"), Some(&"".to_string()));
    assert_eq!(density, Some(320));

    // The same focus again, and the moment between two applications.
    assert!(companion.handle_fg_event("com.game", true).is_none());
    assert!(companion.handle_fg_event("-", true).is_none());

    let change = companion.handle_fg_event("com.other", true).unwrap();
    let steps = carry_out(change, &mut device, &mut density, "");
    assert_eq!(
        steps,
        vec![
            "set ro.a",
            "set ro.b",
            "set ro.c",
            "rebuild ro.a ro.b ro.c",
            "density [\"400\"]",
        ]
    );
    assert_eq!(device.value_of("ro.a"), Some(&"old a".to_string()));
    assert_eq!(device.value_of("ro.b"), Some(&"".to_string()));
    assert_eq!(device.value_of("ro.c"), Some(&"old c".to_string()));
    assert_eq!(device.value_of("ro.z"), Some(&"z".to_string()));
    assert_eq!(density, Some(400));
    assert!(companion.handle_fg_event("com.other", true).is_none());
}

#[test]
fn a_failed_activation_is_undone_all_the_same() {
    let before = props(&[("ro.a", "old a"), ("ro.b", "old b"), ("ro.c", "old c")]);
    let mut device = before.clone();
    let mut density = None;
    let mut companion = Companion::new();
    let sampling = started(&mut companion, request("com.game", Some(200)));
    let sampling = sample(sampling, &device, "Physical density: 420\n");
    companion.register(sampling);
    let change = companion.handle_fg_event("com.game", true).unwrap();
    let steps = carry_out(change, &mut device, &mut density, "ro.b");
    // The first failure ends the properties, but not the density.
    assert_eq!(
        steps,
        vec![
            "set ro.a",
            "set ro.b",
            "density [\"200\"]",
            "resetprop set failed for ro.b: full",
        ]
    );
    let change = companion.handle_fg_event("x", true).unwrap();
    carry_out(change, &mut device, &mut density, "");
    assert_eq!(format!("{:?}", device), format!("{:?}", before));
    assert_eq!(density, None);
}

#[test]
fn a_session_without_a_density_sets_none_and_ends_any_override() {
    let mut device = PropertyMap::new();
    let mut density = None;
    let mut companion = Companion::new();
    let sampling = started(&mut companion, request("com.game", None));
    let sampling = sample(sampling, &device, "never asked");
    companion.register(sampling);
    let change = companion.handle_fg_event("com.game", true).unwrap();
    let steps = carry_out(change, &mut device, &mut density, "ro.c");
    assert_eq!(
        steps,
        vec!["set ro.a", "set ro.b", "delete ro.c", "resetprop delete failed for ro.c"]
    );
    // Undoing it ends any override.
    let change = companion.handle_fg_event("x", true).unwrap();
    let steps = carry_out(change, &mut device, &mut density, "");
    assert_eq!(steps.last().unwrap(), "density [\"reset\"]");
}

#[test]
fn sessions_of_ended_processes_go() {
    let device = PropertyMap::new();
    let mut companion = Companion::new();
    let sampling = started(&mut companion, request("com.game", None));
    companion.register(sample(sampling, &device, ""));
    // An inactive one goes with any event, even in between two applications.
    assert!(companion.handle_fg_event("-", false).is_none());
    assert_eq!(companion.session_pid(), None);

    let sampling = started(&mut companion, request("com.game", None));
    companion.register(sample(sampling, &device, ""));
    assert!(companion.handle_fg_event("com.game", true).is_some());
    // An active one waits until the focus moves on.
    assert!(companion.handle_fg_event("-", false).is_none());
    assert!(companion.handle_fg_event("com.game", false).is_none());
    assert_eq!(companion.session_pid(), Some(77));
    assert!(companion.handle_fg_event("com.other", false).is_some());
    assert_eq!(companion.session_pid(), Some(77));
    assert!(companion.handle_fg_event("com.other", false).is_none());
    assert_eq!(companion.session_pid(), None);
}

#[test]
fn a_repeated_request_is_answered_with_the_backups() {
    let device = props(&[("ro.a", "old a")]);
    let mut companion = Companion::new();
    let sampling = started(&mut companion, request("com.game", Some(320)));
    companion.register(sample(sampling, &device, ""));
    match companion.apply_resetprop_session(request("com.game", Some(320)), true) {
        ApplyStart::Duplicate(backups) => {
            assert_eq!(backups.value_of("ro.a"), Some(&"old a".to_string()));
        }
        other => panic!("{:?}", other),
    }
    assert_eq!(companion.session_pid(), Some(77));
    // Another density, another application and an ended process make it a new session.
    for (package, density, alive) in
        [("com.game", Some(300), true), ("com.other", Some(320), true), ("com.game", Some(320), false)]
    {
        let mut companion = Companion::new();
        let sampling = started(&mut companion, request("com.game", Some(320)));
        companion.register(sample(sampling, &device, ""));
        match companion.apply_resetprop_session(request(package, density), alive) {
            ApplyStart::Sample { converge, .. } => assert!(converge.is_none()),
            other => panic!("{:?}", other),
        }
        assert_eq!(companion.session_pid(), None);
    }
}

#[test]
fn what_is_not_taken_up_leaves_the_session_alone() {
    let device = PropertyMap::new();
    let mut companion = Companion::new();
    let sampling = started(&mut companion, request("com.game", Some(320)));
    companion.register(sample(sampling, &device, ""));
    match companion.apply_resetprop_session(request("com.other", Some(641)), true) {
        ApplyStart::Refused(e) => assert_eq!(
            e.message(),
            "DPI 641 is outside the supported range 120..=640"
        ),
        other => panic!("{:?}", other),
    }
    let mut empty = request("com.other", None);
    empty.props = PropertyMap::new();
    empty.delete_props = Vec::new();
    assert!(matches!(companion.apply_resetprop_session(empty, true), ApplyStart::Nothing));
    assert_eq!(companion.session_pid(), Some(77));
}

#[test]
fn an_active_session_is_undone_before_the_next_one_is_sampled() {
    let mut device = props(&[("ro.a", "old a"), ("ro.b", "old b"), ("ro.c", "old c")]);
    let before = format!("{:?}", device);
    let mut density = None;
    let mut companion = Companion::new();
    let sampling = started(&mut companion, request("com.game", Some(320)));
    companion.register(sample(sampling, &device, ""));
    let change = companion.handle_fg_event("com.game", true).unwrap();
    carry_out(change, &mut device, &mut density, "");
    match companion.apply_resetprop_session(request("com.other", None), true) {
        ApplyStart::Sample { sampling, converge } => {
            carry_out(converge.unwrap(), &mut device, &mut density, "");
            assert_eq!(format!("{:?}", device), before);
            assert_eq!(density, None);
            let backups = companion.register(sample(sampling, &device, ""));
            assert_eq!(backups.value_of("ro.a"), Some(&"old a".to_string()));
        }
        other => panic!("{:?}", other),
    }
}

#[test]
fn a_session_that_cannot_be_sampled_is_not_registered() {
    let mut companion = Companion::new();
    let mut sampling = started(&mut companion, request("com.game", Some(320)));
    assert!(matches!(sampling.next_step(), SampleStep::Property(name) if name == "ro.a"));
    let failed = ToolRun::Ended(ToolOutput {
        success: false,
        status: "exit status: 1".to_string(),
        stdout: b"x\n".to_vec(),
        stderr: Vec::new(),
    });
    let e = sampling.report_property(failed).unwrap_err();
    assert_eq!(e.message(), "getprop failed for ro.a");
    let e = sampling.report_property(ToolRun::NotStarted("not found".to_string())).unwrap_err();
    assert_eq!(e.message(), "not found");
    // Nothing was read by that.
    assert!(matches!(sampling.next_step(), SampleStep::Property(name) if name == "ro.a"));
    sampling.record("a");
    sampling.record("b");
    assert!(matches!(sampling.next_step(), SampleStep::Property(name) if name == "ro.c"));
    sampling.record("c");
    assert!(matches!(sampling.next_step(), SampleStep::Property(name) if name == "ro.a"));
    sampling.record("a again");
    assert!(matches!(sampling.next_step(), SampleStep::Density));
    let e = sampling.report_density("Override density: x").unwrap_err();
    assert_eq!(
        e.message(),
        "invalid Override density value 'x': invalid digit found in string"
    );
    assert!(matches!(sampling.next_step(), SampleStep::Density));
    assert_eq!(companion.session_pid(), None);
    // A name that is read twice keeps the later value.
    sampling.report_density("").unwrap();
    let backups = companion.register(sampling);
    assert_eq!(backups.value_of("ro.a"), Some(&"a again".to_string()));
    assert_eq!(backups.len(), 3);
}

#[test]
fn a_session_catches_up_with_the_focus() {
    let device = PropertyMap::new();
    let mut companion = Companion::new();
    let sampling = started(&mut companion, request("com.game", None));
    companion.register(sample(sampling, &device, ""));
    assert!(companion.catch_up(None, "com.game", true).is_none());
    assert!(companion.catch_up(Some("com.other".to_string()), "com.game", true).is_none());
    assert!(companion.catch_up(Some("com.game".to_string()), "com.game", true).is_some());
    assert!(companion.catch_up(Some("com.game".to_string()), "com.game", true).is_none());
}

#[test]
fn properties_are_restored_on_request() {
    let none = RestoreRequest { props: PropertyMap::new() };
    assert!(restore_properties(&none).is_none());
    let some = RestoreRequest { props: props(&[("ro.a", "1"), ("ro.b", "2")]) };
    let mut device = PropertyMap::new();
    let steps = carry_out(restore_properties(&some).unwrap(), &mut device, &mut None, "");
    assert_eq!(steps, vec!["set ro.a", "set ro.b", "rebuild ro.a ro.b"]);
    assert_eq!(device.value_of("ro.b"), Some(&"2".to_string()));
}

#[test]
fn without_the_property_api_nothing_is_changed() {
    let mut change = restore_props_batch(&props(&[("ro.a", "1")]), None);
    change.report(StepOutcome::ApiUnavailable("no contexts".to_string()));
    assert!(matches!(change.next_step(), ChangeStep::Finished));
    assert_eq!(
        change.result().unwrap_err().message(),
        "failed to initialize system property API: no contexts"
    );
    let mut change = apply_props_batch(&PropertyMap::new(), &vec!["ro.a".to_string()], None);
    // A property that was not there counts as deleted.
    change.report(StepOutcome::Done(false));
    assert!(matches!(change.next_step(), ChangeStep::Rebuild(_)));
    change.report(StepOutcome::Done(true));
    assert!(matches!(change.next_step(), ChangeStep::Finished));
    assert!(change.result().is_ok());
}

#[test]
fn each_area_is_rebuilt_once_in_each_way() {
    let contexts = ["build", "vendor", "build", "default", "vendor"]
        .iter()
        .map(|s| s.to_string())
        .collect();
    let list: Vec<(String, bool)> = rebuild_all_contexts(&contexts)
        .into_iter()
        .map(|r| (r.context, r.appcompat))
        .collect();
    let expected: Vec<(String, bool)> = ["build", "vendor", "default"]
        .iter()
        .flat_map(|c| vec![(c.to_string(), false), (c.to_string(), true)])
        .collect();
    assert_eq!(list, expected);
    assert!(rebuild_all_contexts(&Vec::new()).is_empty());
}
