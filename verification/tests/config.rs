use device_faker::config::{AppConfig, Config, DeviceTemplate};
use device_faker::profile::{
    fill_profile_default, field_value, has_profile_value, valid_dpi, MergedAppConfig,
};
use device_faker::string_map::{PropertyMap, StringMap};

fn text(s: &str) -> Option<String> {
    Some(s.to_string())
}

fn app(package: &str) -> AppConfig {
    AppConfig {
        package: package.to_string(),
        manufacturer: None,
        brand: None,
        marketname: None,
        model: None,
        name: None,
        device: None,
        product: None,
        hardware: None,
        board: None,
        soc_model: None,
        fingerprint: None,
        build_id: None,
        display_id: None,
        incremental: None,
        security_patch: None,
        characteristics: None,
        android_version: None,
        sdk_int: None,
        dpi: None,
        custom_props: None,
        force_denylist_unmount: None,
        hide_maps: None,
        companion_resetprop: None,
    }
}

fn template(packages: &[&str]) -> DeviceTemplate {
    DeviceTemplate {
        packages: packages.iter().map(|p| p.to_string()).collect(),
        manufacturer: None,
        brand: None,
        marketname: None,
        model: None,
        name: None,
        device: None,
        product: None,
        hardware: None,
        board: None,
        soc_model: None,
        fingerprint: None,
        build_id: None,
        display_id: None,
        incremental: None,
        security_patch: None,
        characteristics: None,
        android_version: None,
        sdk_int: None,
        dpi: None,
        custom_props: None,
        force_denylist_unmount: None,
        hide_maps: None,
        companion_resetprop: None,
    }
}

fn config() -> Config {
    Config {
        default_force_denylist_unmount: false,
        debug: false,
        templates: StringMap::new(),
        apps: Vec::new(),
        default_hide_maps: Vec::new(),
    }
}

fn merged(app: AppConfig) -> MergedAppConfig {
    let mut c = config();
    let package = app.package.clone();
    c.apps.push(app);
    c.get_merged_config(&package).unwrap()
}

const FINGERPRINT: &str = "Xiaomi/houji/houji:15/AQ3A.240627.003/OS2.0:user/release-keys";

#[test]
fn density_outside_of_the_range_is_ignored() {
    assert_eq!(valid_dpi(Some(119)), None);
    assert_eq!(valid_dpi(Some(120)), Some(120));
    assert_eq!(valid_dpi(Some(640)), Some(640));
    assert_eq!(valid_dpi(Some(641)), None);
    assert_eq!(valid_dpi(None), None);
    let mut a = app("a");
    a.dpi = Some(900);
    assert_eq!(merged(a).dpi, None);
    let mut a = app("a");
    a.dpi = Some(320);
    assert_eq!(merged(a).dpi, Some(320));
}

#[test]
fn values_of_fields() {
    assert!(!has_profile_value(&None));
    assert!(!has_profile_value(&text("")));
    assert!(has_profile_value(&text("x")));
    assert!(has_profile_value(&text("__DELETE__")));
    assert_eq!(field_value(&None), None);
    assert_eq!(field_value(&text("")), None);
    assert_eq!(field_value(&text("__DELETE__")), None);
    assert_eq!(field_value(&text("__EMPTY__")), text(""));
    assert_eq!(field_value(&text("Pixel")), text("Pixel"));
}

#[test]
fn defaults_fill_only_what_is_missing() {
    let mut target = text("");
    fill_profile_default(&mut target, "a".to_string());
    assert_eq!(target, text("a"));
    fill_profile_default(&mut target, "b".to_string());
    assert_eq!(target, text("a"));
    let mut target = None;
    fill_profile_default(&mut target, "c".to_string());
    assert_eq!(target, text("c"));
}

#[test]
fn direct_configuration_comes_before_templates() {
    let mut c = config();
    let mut a = app("com.game");
    a.model = text("direct");
    c.apps.push(a);
    let mut second = app("com.game");
    second.model = text("shadowed");
    c.apps.push(second);
    let mut t = template(&["com.other", "com.game"]);
    t.model = text("from template");
    c.templates.insert("phone".to_string(), t);

    assert_eq!(c.get_app_config("com.game").unwrap().model, text("direct"));
    assert!(c.get_app_config("com.other").is_none());
    assert_eq!(
        c.find_template_for_package("com.other").unwrap().model,
        text("from template")
    );
    assert!(c.find_template_for_package("com.none").is_none());
    assert_eq!(c.get_merged_config("com.game").unwrap().model, text("direct"));
    assert_eq!(
        c.get_merged_config("com.other").unwrap().model,
        text("from template")
    );
    assert!(c.get_merged_config("com.none").is_none());
}

#[test]
fn the_first_template_that_lists_a_package_counts() {
    let mut c = config();
    let mut first = template(&["com.game"]);
    first.brand = text("first");
    let mut second = template(&["com.game"]);
    second.brand = text("second");
    c.templates.insert("a".to_string(), first);
    c.templates.insert("b".to_string(), second);
    assert_eq!(c.get_merged_config("com.game").unwrap().brand, text("first"));
}

#[test]
fn settings_are_inherited() {
    let mut c = config();
    c.default_force_denylist_unmount = true;
    c.default_hide_maps = vec!["lineage".to_string()];
    c.apps.push(app("a"));
    let mut own = app("b");
    own.force_denylist_unmount = Some(false);
    own.hide_maps = Some(Vec::new());
    own.companion_resetprop = Some(true);
    c.apps.push(own);
    let mut t = template(&["c"]);
    t.force_denylist_unmount = Some(false);
    t.dpi = Some(10);
    c.templates.insert("t".to_string(), t);

    let a = c.get_merged_config("a").unwrap();
    assert!(a.force_denylist_unmount);
    assert_eq!(a.hide_maps, vec!["lineage".to_string()]);
    assert!(!a.companion_resetprop);
    let b = c.get_merged_config("b").unwrap();
    assert!(!b.force_denylist_unmount);
    assert!(b.hide_maps.is_empty());
    assert!(b.companion_resetprop);
    let t = c.get_merged_config("c").unwrap();
    assert!(!t.force_denylist_unmount);
    assert_eq!(t.hide_maps, vec!["lineage".to_string()]);
    assert_eq!(t.dpi, None);
}

#[test]
fn a_fingerprint_completes_the_profile() {
    let mut a = app("a");
    a.fingerprint = text(FINGERPRINT);
    let m = merged(a);
    assert_eq!(m.brand, text("Xiaomi"));
    assert_eq!(m.product, text("houji"));
    assert_eq!(m.name, text("houji"));
    assert_eq!(m.device, text("houji"));
    assert_eq!(m.android_version, text("15"));
    assert_eq!(m.build_id, text("AQ3A.240627.003"));
    assert_eq!(m.incremental, text("OS2.0"));
    let custom = m.custom_props.unwrap();
    assert_eq!(custom.len(), 3);
    assert_eq!(custom.value_of("ro.build.version.incremental"), Some(&"OS2.0".to_string()));
    assert_eq!(custom.value_of("ro.build.type"), Some(&"user".to_string()));
    assert_eq!(custom.value_of("ro.build.tags"), Some(&"release-keys".to_string()));
}

#[test]
fn what_is_set_is_kept() {
    let mut custom = PropertyMap::new();
    custom.set("ro.build.type", "eng");
    let mut a = app("a");
    a.fingerprint = text(FINGERPRINT);
    a.brand = text("Redmi");
    a.device = text("__DELETE__");
    a.build_id = text("");
    a.custom_props = Some(custom);
    let m = merged(a);
    assert_eq!(m.brand, text("Redmi"));
    assert_eq!(m.device, text("__DELETE__"));
    assert_eq!(m.build_id, text("AQ3A.240627.003"));
    let custom = m.custom_props.unwrap();
    assert_eq!(custom.value_of("ro.build.type"), Some(&"eng".to_string()));
    assert_eq!(custom.value_of("ro.build.tags"), Some(&"release-keys".to_string()));
}

#[test]
fn an_increment_that_is_set_is_not_overridden() {
    let mut a = app("a");
    a.fingerprint = text(FINGERPRINT);
    a.incremental = text("mine");
    let m = merged(a);
    assert_eq!(m.incremental, text("mine"));
    let map = Config::build_merged_property_map(&m);
    assert_eq!(map.value_of("ro.build.version.incremental"), Some(&"mine".to_string()));
    assert_eq!(m.custom_props.unwrap().value_of("ro.build.version.incremental"), None);

    let mut custom = PropertyMap::new();
    custom.set("ro.build.version.incremental", "custom");
    let mut a = app("a");
    a.fingerprint = text(FINGERPRINT);
    a.custom_props = Some(custom);
    let m = merged(a);
    assert_eq!(m.incremental, text("OS2.0"));
    assert_eq!(
        m.custom_props.unwrap().value_of("ro.build.version.incremental"),
        Some(&"custom".to_string())
    );
}

#[test]
fn the_increment_of_the_fingerprint_reaches_all_copies() {
    let mut a = app("a");
    a.fingerprint = text(FINGERPRINT);
    let map = Config::build_merged_property_map(&merged(a));
    assert_eq!(map.value_of("ro.build.version.incremental"), Some(&"OS2.0".to_string()));
    assert_eq!(map.value_of("ro.odm.build.version.incremental"), Some(&"OS2.0".to_string()));
}

#[test]
fn a_malformed_fingerprint_completes_nothing() {
    let mut a = app("a");
    a.fingerprint = text("Xiaomi/houji:15/AQ3A/OS2.0:user/release-keys");
    let m = merged(a);
    assert_eq!(m.brand, None);
    assert!(m.custom_props.is_none());
    assert_eq!(m.fingerprint, text("Xiaomi/houji:15/AQ3A/OS2.0:user/release-keys"));
}

#[test]
fn product_and_name_agree() {
    let mut a = app("a");
    a.name = text("cheetah");
    let m = merged(a);
    assert_eq!(m.product, text("cheetah"));
    assert_eq!(m.device, text("cheetah"));
    let mut a = app("a");
    a.product = text("panther");
    a.device = text("p10");
    let m = merged(a);
    assert_eq!(m.name, text("panther"));
    assert_eq!(m.device, text("p10"));
    // The code that is set wins over that of the fingerprint, whichever field sets it.
    let mut a = app("a");
    a.name = text("cheetah");
    a.fingerprint = text("google/raven/rvd:13/TQ1A/932:user/release-keys");
    let m = merged(a);
    assert_eq!(m.name, text("cheetah"));
    assert_eq!(m.product, text("cheetah"));
    assert_eq!(m.device, text("rvd"));
    assert_eq!(
        Config::build_merged_property_map(&m).value_of("ro.product.name"),
        Some(&"cheetah".to_string())
    );
    // Where both are set, both stay.
    let mut a = app("a");
    a.product = text("panther");
    a.name = text("cheetah");
    let m = merged(a);
    assert_eq!(m.product, text("panther"));
    assert_eq!(m.name, text("cheetah"));
}

#[test]
fn completing_twice_changes_nothing() {
    let mut a = app("a");
    a.fingerprint = text(FINGERPRINT);
    let mut m = merged(a);
    let before = format!("{:?}", m);
    m.complete_device_profile();
    assert_eq!(format!("{:?}", m), before);
}
