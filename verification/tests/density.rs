use device_faker::density::{
    query_density_override, restore_density, run_wm_density, run_wm_fallback, set_density,
    wm_density_text, DensityArg, WmStep,
};
use device_faker::error::CompanionError;
use device_faker::tool::{backup_property, combine_output, ToolOutput, ToolRun};

fn output(success: bool, stdout: &[u8], stderr: &[u8]) -> ToolOutput {
    ToolOutput {
        success,
        status: if success { "exit status: 0" } else { "exit status: 255" }.to_string(),
        stdout: stdout.to_vec(),
        stderr: stderr.to_vec(),
    }
}

#[test]
fn arguments_of_wm_density() {
    assert!(DensityArg::Report.args().is_empty());
    assert_eq!(set_density(None).args(), vec!["reset"]);
    assert_eq!(set_density(Some(320)).args(), vec!["320"]);
    assert_eq!(restore_density(Some(0)), DensityArg::To(0));
    assert_eq!(restore_density(None), DensityArg::Reset);
    let none: [&str; 0] = [];
    assert_eq!(DensityArg::Report.show(), format!("{:?}", none));
    assert_eq!(DensityArg::Reset.show(), format!("{:?}", ["reset"]));
    assert_eq!(DensityArg::To(320).show(), format!("{:?}", ["320"]));
}

#[test]
fn getprop_prints_a_value_and_a_line_end() {
    let value = backup_property("ro.x", &output(true, b"Pixel 9\r\n", b"")).unwrap();
    assert_eq!(value, "Pixel 9");
    // An absent property prints an empty line.
    assert_eq!(backup_property("ro.x", &output(true, b"\n", b"")).unwrap(), "");
    // Bytes that are no text are replaced.
    let value = backup_property("ro.x", &output(true, b"a\xffb\n", b"")).unwrap();
    assert_eq!(value, "a\u{fffd}b");
    let value = backup_property("ro.x", &output(true, "é\n".as_bytes(), b"")).unwrap();
    assert_eq!(value, "é");
    let e = backup_property("ro.x", &output(false, b"Pixel 9\n", b"")).unwrap_err();
    assert!(matches!(e, CompanionError::GetpropFailed(_)));
    assert_eq!(e.message(), "getprop failed for ro.x");
}

#[test]
fn both_outputs_are_joined() {
    assert_eq!(combine_output("out", ""), "out");
    assert_eq!(combine_output("out", " \n"), "out");
    assert_eq!(combine_output("out\n", "err\n"), "out\nerr\n");
    assert_eq!(combine_output("out", "err"), "out\nerr");
    assert_eq!(combine_output("", "err"), "\nerr");
}

#[test]
fn wm_is_run_by_its_path_first() {
    match run_wm_density(DensityArg::Report, ToolRun::Ended(output(true, b"x\n", b"y"))) {
        WmStep::Done(Ok(text)) => assert_eq!(text, "x\ny"),
        other => panic!("{:?}", other),
    }
    match run_wm_density(DensityArg::Reset, ToolRun::NotStarted("no such file".to_string())) {
        WmStep::RunFallback { first_error } => assert_eq!(first_error, "no such file"),
        other => panic!("{:?}", other),
    }
    match run_wm_density(DensityArg::To(99), ToolRun::Ended(output(false, b"x", b" bad density \n"))) {
        WmStep::Done(Err(e)) => {
            assert!(matches!(e, CompanionError::WmFailed { .. }));
            assert_eq!(
                e.message(),
                "wm density [\"99\"] failed with status exit status: 255: bad density"
            );
        }
        other => panic!("{:?}", other),
    }
}

#[test]
fn wm_falls_back_to_its_name() {
    let first = "no such file".to_string();
    let text = run_wm_fallback(
        DensityArg::Report,
        first.clone(),
        ToolRun::Ended(output(true, b"Physical density: 420\n", b"")),
    );
    assert_eq!(text.unwrap(), "Physical density: 420\n");
    let e = run_wm_fallback(
        DensityArg::Report,
        first,
        ToolRun::NotStarted("permission denied".to_string()),
    )
    .unwrap_err();
    assert!(matches!(e, CompanionError::WmUnavailable { .. }));
    assert_eq!(
        e.message(),
        "failed to execute /system/bin/wm (no such file) or wm (permission denied)"
    );
    let e = wm_density_text(DensityArg::Report, &output(false, b"", b"")).unwrap_err();
    assert_eq!(e.message(), "wm density [] failed with status exit status: 255: ");
}

#[test]
fn the_override_is_read_from_the_report() {
    let read = |s: &str| query_density_override(s).unwrap();
    assert_eq!(read("Physical density: 420\n"), None);
    assert_eq!(read("Physical density: 420\nOverride density: 320\n"), Some(320));
    assert_eq!(read("  OVERRIDE Density :  320  \r\n"), Some(320));
    assert_eq!(read("Override density: reset"), None);
    assert_eq!(read("Override density: Reset"), None);
    assert_eq!(read("Override density: 0"), None);
    assert_eq!(read("Override density:"), None);
    // Only the first such line counts.
    assert_eq!(read("Override density: 0\nOverride density: 320"), None);
    assert_eq!(read("Override density 320"), None);
    assert_eq!(read("Override density: 00"), Some(0));
    assert_eq!(read(""), None);
}

#[test]
fn every_density_is_read_back() {
    for dpi in [1, 9, 10, 120, 320, 640, u32::MAX] {
        let word = set_density(Some(dpi)).args().pop().unwrap();
        let report = format!("Physical density: 420\nOverride density: {}\n", word);
        assert_eq!(query_density_override(&report).unwrap(), Some(dpi));
    }
}

#[test]
fn an_override_that_is_no_number() {
    let e = query_density_override("Override density: 320dpi").unwrap_err();
    assert!(matches!(e, CompanionError::InvalidDensity { .. }));
    assert_eq!(
        e.message(),
        "invalid Override density value '320dpi': invalid digit found in string"
    );
    let e = query_density_override("Override density: 4294967296").unwrap_err();
    assert_eq!(
        e.message(),
        "invalid Override density value '4294967296': number too large to fit in target type"
    );
}

#[test]
fn messages_of_property_errors() {
    assert_eq!(
        CompanionError::ApiUnavailable("no contexts".to_string()).message(),
        "failed to initialize system property API: no contexts"
    );
    assert_eq!(
        CompanionError::SetFailed { key: "ro.x".to_string(), cause: "full".to_string() }.message(),
        "resetprop set failed for ro.x: full"
    );
    assert_eq!(
        CompanionError::DeleteFailed("ro.x".to_string()).message(),
        "resetprop delete failed for ro.x"
    );
}
