use device_faker::config::{AppConfig, Config};
use device_faker::hooks::{field_str, hook_build_fields, hook_version_fields, FieldValue, FieldWrite};
use device_faker::string_map::StringMap;

fn text(s: &str) -> Option<String> {
    Some(s.to_string())
}

fn shown(writes: &[FieldWrite]) -> Vec<(String, String)> {
    writes
        .iter()
        .map(|w| {
            let value = match &w.value {
                FieldValue::Text(s) => s.clone(),
                FieldValue::Int(n) => format!("#{}", n),
            };
            (w.field.to_string(), value)
        })
        .collect()
}

#[test]
fn marks_of_hooked_fields() {
    assert_eq!(field_str(&None), None);
    assert_eq!(field_str(&text("")), None);
    assert_eq!(field_str(&text("__DELETE__")), None);
    assert_eq!(field_str(&text("__EMPTY__")), Some(""));
    assert_eq!(field_str(&text("x")), Some("x"));
}

#[test]
fn fields_are_written_in_order() {
    let c = Config {
        default_force_denylist_unmount: false,
        debug: false,
        templates: StringMap::new(),
        apps: vec![AppConfig {
            package: "a".to_string(),
            manufacturer: text("Google"),
            brand: text("google"),
            marketname: text("never hooked"),
            model: text("Pixel"),
            name: None,
            device: text("__EMPTY__"),
            product: text("caiman"),
            hardware: text("__DELETE__"),
            board: text("b"),
            soc_model: text("Tensor"),
            fingerprint: text("f"),
            build_id: text("id"),
            display_id: text("display"),
            incremental: text("inc"),
            security_patch: text("2025-01-05"),
            characteristics: None,
            android_version: text("15"),
            sdk_int: Some(u32::MAX),
            dpi: None,
            custom_props: None,
            force_denylist_unmount: None,
            hide_maps: None,
            companion_resetprop: None,
        }],
        default_hide_maps: Vec::new(),
    };
    let m = c.get_merged_config("a").unwrap();
    let hooks = hook_build_fields(&m);
    let expected: Vec<(String, String)> = [
        ("MANUFACTURER", "Google"),
        ("BRAND", "google"),
        ("MODEL", "Pixel"),
        ("DEVICE", ""),
        ("PRODUCT", "caiman"),
        ("BOARD", "b"),
        ("SOC_MODEL", "Tensor"),
        ("FINGERPRINT", "f"),
        ("ID", "id"),
        ("DISPLAY", "display"),
    ]
    .iter()
    .map(|(f, v)| (f.to_string(), v.to_string()))
    .collect();
    assert_eq!(shown(&hooks.build), expected);
    let version: Vec<(String, String)> = [
        ("RELEASE", "15"),
        ("SDK_INT", "#-1"),
        ("INCREMENTAL", "inc"),
        ("SECURITY_PATCH", "2025-01-05"),
    ]
        .iter()
        .map(|(f, v)| (f.to_string(), v.to_string()))
        .collect();
    assert_eq!(shown(&hooks.version), version);
    assert_eq!(shown(&hook_version_fields(&m)), version);

    // A hooked field shows what its property shows.
    let map = Config::build_merged_property_map(&m);
    assert_eq!(map.value_of("ro.product.brand"), Some(&"google".to_string()));
    assert_eq!(map.value_of("ro.product.device"), Some(&"".to_string()));
    assert_eq!(
        map.value_of("ro.build.version.security_patch"),
        Some(&"2025-01-05".to_string())
    );
}
