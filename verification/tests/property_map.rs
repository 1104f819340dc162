use device_faker::config::{AppConfig, Config};
use device_faker::profile::MergedAppConfig;
use device_faker::properties::{
    build_names, delete_build_family, delete_product_family, expand_known_custom_property,
    insert_build_family, insert_product_family, known_family_names, product_names,
};
use device_faker::string_map::{PropertyMap, StringMap};

fn text(s: &str) -> Option<String> {
    Some(s.to_string())
}

fn blank() -> MergedAppConfig {
    let c = Config {
        default_force_denylist_unmount: false,
        debug: false,
        templates: StringMap::new(),
        apps: vec![AppConfig {
            package: "a".to_string(),
            manufacturer: None,
            brand: None,
            marketname: None,
            model: None,
            name: None,
            device: None,
            product: None,
            hardware: None,
            board: None,
            soc_model: None,
            fingerprint: None,
            build_id: None,
            display_id: None,
            incremental: None,
            security_patch: None,
            characteristics: None,
            android_version: None,
            sdk_int: None,
            dpi: None,
            custom_props: None,
            force_denylist_unmount: None,
            hide_maps: None,
            companion_resetprop: None,
        }],
        default_hide_maps: Vec::new(),
    };
    c.get_merged_config("a").unwrap()
}

fn value<'a>(map: &'a PropertyMap, name: &str) -> Option<&'a str> {
    map.value_of(name).map(|s| s.as_str())
}

const MODEL_FAMILY: [&str; 7] = [
    "ro.product.model",
    "ro.product.odm.model",
    "ro.product.vendor.model",
    "ro.product.system.model",
    "ro.product.system_ext.model",
    "ro.product.product.model",
    "ro.product.bootimage.model",
];

const ID_FAMILY: [&str; 10] = [
    "ro.build.id",
    "ro.system.build.id",
    "ro.system_ext.build.id",
    "ro.product.build.id",
    "ro.vendor.build.id",
    "ro.odm.build.id",
    "ro.bootimage.build.id",
    "ro.system_dlkm.build.id",
    "ro.vendor_dlkm.build.id",
    "ro.odm_dlkm.build.id",
];

#[test]
fn families_have_a_copy_for_each_partition() {
    assert_eq!(product_names("model"), MODEL_FAMILY.to_vec());
    assert_eq!(build_names("id"), ID_FAMILY.to_vec());

    let mut map = PropertyMap::new();
    insert_product_family(&mut map, "model", "Pixel 9");
    assert_eq!(map.len(), 7);
    for name in MODEL_FAMILY {
        assert_eq!(value(&map, name), Some("Pixel 9"));
    }
    insert_build_family(&mut map, "id", "AP4A");
    assert_eq!(map.len(), 17);
    for name in ID_FAMILY {
        assert_eq!(value(&map, name), Some("AP4A"));
    }

    let mut list = vec!["first".to_string()];
    delete_product_family(&mut list, "model");
    delete_build_family(&mut list, "id");
    assert_eq!(list.len(), 18);
    assert_eq!(list[0], "first");
    assert_eq!(list[1..8], MODEL_FAMILY);
    assert_eq!(list[8..], ID_FAMILY);
}

#[test]
fn only_known_custom_properties_spread() {
    assert_eq!(known_family_names("ro.product.model"), MODEL_FAMILY.to_vec());
    assert_eq!(known_family_names("ro.build.id"), ID_FAMILY.to_vec());
    assert!(known_family_names("ro.product.vendor.model").is_empty());
    let mut map = PropertyMap::new();
    expand_known_custom_property(&mut map, "ro.build.id", "X");
    assert_eq!(map.len(), 10);
    expand_known_custom_property(&mut map, "ro.product.board", "Y");
    expand_known_custom_property(&mut map, "debug.any", "Y");
    assert_eq!(map.len(), 10);
    expand_known_custom_property(&mut map, "ro.product.marketname", "Z");
    assert_eq!(map.len(), 17);
    assert_eq!(value(&map, "ro.product.vendor.marketname"), Some("Z"));
    expand_known_custom_property(&mut map, "ro.build.version.sdk", "35");
    assert_eq!(value(&map, "ro.odm_dlkm.build.version.sdk"), Some("35"));
}

#[test]
fn an_empty_profile_sets_and_deletes_nothing() {
    let m = blank();
    assert!(Config::build_merged_property_map(&m).is_empty());
    assert!(Config::build_delete_props_list(&m).is_empty());
}

#[test]
fn every_field_reaches_its_properties() {
    let mut m = blank();
    m.manufacturer = text("Google");
    m.brand = text("google");
    m.marketname = text("Pixel 9 Pro");
    m.model = text("GP4BC");
    m.product = text("caiman");
    m.device = text("caiman_d");
    m.hardware = text("caiman_h");
    m.board = text("caiman_b");
    m.soc_model = text("Tensor G4");
    m.fingerprint = text("f");
    m.build_id = text("AP4A");
    m.display_id = text("AP4A.display");
    m.incremental = text("1234");
    m.security_patch = text("2025-01-05");
    m.characteristics = text("nosdcard");
    m.android_version = text("15");
    m.sdk_int = Some(35);
    let map = Config::build_merged_property_map(&m);
    // Six families of products, six of builds, and eight single properties.
    assert_eq!(map.len(), 6 * 7 + 6 * 10 + 8);
    assert_eq!(value(&map, "ro.product.manufacturer"), Some("Google"));
    assert_eq!(value(&map, "ro.product.odm.brand"), Some("google"));
    assert_eq!(value(&map, "ro.vendor.oplus.market.name"), Some("Pixel 9 Pro"));
    assert_eq!(value(&map, "ro.product.system.model"), Some("GP4BC"));
    assert_eq!(value(&map, "ro.product.name"), Some("caiman"));
    assert_eq!(value(&map, "ro.build.product"), Some("caiman"));
    assert_eq!(value(&map, "ro.product.bootimage.device"), Some("caiman_d"));
    assert_eq!(value(&map, "ro.hardware"), Some("caiman_h"));
    assert_eq!(value(&map, "ro.product.board"), Some("caiman_b"));
    assert_eq!(value(&map, "ro.product.vendor.board"), None);
    assert_eq!(value(&map, "ro.soc.model"), Some("Tensor G4"));
    assert_eq!(value(&map, "ro.vendor.build.fingerprint"), Some("f"));
    assert_eq!(value(&map, "ro.build.id"), Some("AP4A"));
    assert_eq!(value(&map, "ro.build.display.id"), Some("AP4A.display"));
    assert_eq!(value(&map, "ro.product.build.version.incremental"), Some("1234"));
    assert_eq!(value(&map, "ro.vendor.build.version.security_patch"), Some("2025-01-05"));
    assert_eq!(value(&map, "ro.vendor.build.security_patch"), Some("2025-01-05"));
    assert_eq!(value(&map, "ro.build.characteristics"), Some("nosdcard"));
    assert_eq!(value(&map, "ro.build.version.release"), Some("15"));
    assert_eq!(value(&map, "ro.build.version.sdk"), Some("35"));
    assert!(Config::build_delete_props_list(&m).is_empty());
}

#[test]
fn marks_decide_what_is_set() {
    let mut m = blank();
    m.model = text("");
    m.brand = text("__DELETE__");
    m.hardware = text("__EMPTY__");
    let map = Config::build_merged_property_map(&m);
    assert_eq!(map.len(), 1);
    assert_eq!(value(&map, "ro.hardware"), Some(""));
}

#[test]
fn the_name_stands_in_for_the_product() {
    let mut m = blank();
    m.product = text("__DELETE__");
    m.name = text("cheetah");
    let map = Config::build_merged_property_map(&m);
    assert_eq!(value(&map, "ro.product.name"), Some("cheetah"));
    assert_eq!(value(&map, "ro.build.product"), Some("cheetah"));
    assert_eq!(map.len(), 8);
}

#[test]
fn custom_properties_come_last() {
    let mut custom = PropertyMap::new();
    custom.set("ro.product.vendor.model", "exact");
    custom.set("ro.product.model", "spread");
    custom.set("debug.flag", "__EMPTY__");
    custom.set("debug.gone", "__DELETE__");
    custom.set("debug.nothing", "");
    custom.set("ro.build.id", "");
    let mut m = blank();
    m.model = text("field");
    m.build_id = text("kept");
    m.custom_props = Some(custom);
    let map = Config::build_merged_property_map(&m);
    assert_eq!(value(&map, "ro.product.model"), Some("spread"));
    assert_eq!(value(&map, "ro.product.odm.model"), Some("spread"));
    assert_eq!(value(&map, "ro.product.vendor.model"), Some("exact"));
    assert_eq!(value(&map, "debug.flag"), Some(""));
    assert_eq!(value(&map, "debug.gone"), None);
    // An empty text is as good as none.
    assert_eq!(value(&map, "debug.nothing"), None);
    assert_eq!(value(&map, "ro.build.id"), Some("kept"));
    assert_eq!(map.len(), 7 + 10 + 1);
    assert_eq!(Config::build_delete_props_list(&m), vec!["debug.gone".to_string()]);
}

#[test]
fn deletions_mirror_the_families() {
    let mut m = blank();
    m.brand = text("__DELETE__");
    assert_eq!(Config::build_delete_props_list(&m), product_names("brand"));

    let mut m = blank();
    m.manufacturer = text("__DELETE__");
    m.model = text("__DELETE__");
    m.name = text("__DELETE__");
    m.device = text("__DELETE__");
    m.marketname = text("__DELETE__");
    m.fingerprint = text("__DELETE__");
    m.build_id = text("__DELETE__");
    m.display_id = text("__DELETE__");
    m.incremental = text("__DELETE__");
    m.security_patch = text("__DELETE__");
    m.characteristics = text("__DELETE__");
    m.hardware = text("__DELETE__");
    m.board = text("__DELETE__");
    m.soc_model = text("__DELETE__");
    m.android_version = text("__DELETE__");
    let list = Config::build_delete_props_list(&m);
    let mut expected: Vec<String> = Vec::new();
    expected.extend(product_names("manufacturer"));
    expected.extend(product_names("model"));
    expected.extend(product_names("name"));
    expected.push("ro.build.product".to_string());
    expected.extend(product_names("device"));
    expected.extend(product_names("marketname"));
    expected.push("ro.vendor.oplus.market.name".to_string());
    expected.extend(build_names("fingerprint"));
    expected.extend(build_names("id"));
    expected.push("ro.build.display.id".to_string());
    expected.extend(build_names("version.incremental"));
    expected.extend(build_names("version.security_patch"));
    expected.push("ro.vendor.build.security_patch".to_string());
    expected.push("ro.build.characteristics".to_string());
    expected.push("ro.hardware".to_string());
    expected.push("ro.product.board".to_string());
    expected.push("ro.soc.model".to_string());
    expected.extend(build_names("version.release"));
    assert_eq!(list, expected);
    // What is deleted is not set.
    assert!(Config::build_merged_property_map(&m).is_empty());
}

#[test]
fn a_marked_custom_property_takes_its_family_with_it() {
    let mut custom = PropertyMap::new();
    custom.set("ro.product.model", "__DELETE__");
    let mut m = blank();
    m.custom_props = Some(custom);
    assert_eq!(Config::build_delete_props_list(&m), MODEL_FAMILY.to_vec());
    assert!(Config::build_merged_property_map(&m).is_empty());

    // Members that other custom properties speak of are left to those.
    let mut custom = PropertyMap::new();
    custom.set("ro.product.vendor.model", "exact");
    custom.set("ro.product.odm.model", "__DELETE__");
    custom.set("ro.product.system.model", "");
    custom.set("ro.product.model", "__DELETE__");
    let mut m = blank();
    m.custom_props = Some(custom);
    assert_eq!(
        Config::build_delete_props_list(&m),
        vec![
            "ro.product.odm.model",
            "ro.product.model",
            "ro.product.system.model",
            "ro.product.system_ext.model",
            "ro.product.product.model",
            "ro.product.bootimage.model",
        ]
    );
    let map = Config::build_merged_property_map(&m);
    assert_eq!(map.len(), 1);
    assert_eq!(value(&map, "ro.product.vendor.model"), Some("exact"));
}

#[test]
fn the_product_code_is_deleted_through_either_field() {
    let mut expected = product_names("name");
    expected.push("ro.build.product".to_string());
    let mut m = blank();
    m.product = text("__DELETE__");
    assert_eq!(Config::build_delete_props_list(&m), expected);
    let mut m = blank();
    m.name = text("__DELETE__");
    assert_eq!(Config::build_delete_props_list(&m), expected);
    let mut m = blank();
    m.product = text("__DELETE__");
    m.name = text("__DELETE__");
    assert_eq!(Config::build_delete_props_list(&m), expected);
    // A name that gives the code keeps it.
    let mut m = blank();
    m.product = text("__DELETE__");
    m.name = text("cheetah");
    assert!(Config::build_delete_props_list(&m).is_empty());
}

#[test]
fn maps_keep_the_order_of_their_keys() {
    let mut map = PropertyMap::new();
    map.set("b", "1");
    map.set("a", "2");
    map.set("b", "3");
    map.set_absent("a", "4");
    map.set_absent("c", "5");
    assert_eq!(map.len(), 3);
    assert_eq!(map.key_at(0), "b");
    assert_eq!(map.value_at(0), "3");
    assert_eq!(map.key_at(1), "a");
    assert_eq!(map.value_at(1), "2");
    assert_eq!(map.key_at(2), "c");
    assert!(map.contains_key("c"));
    assert!(!map.contains_key("d"));
    let copy = map.clone();
    assert_eq!(format!("{:?}", copy), format!("{:?}", map));
}
