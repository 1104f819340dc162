use device_faker::areas::{
    areas_to_probe, context_area_path, cow_serial_area, is_build_area, mapping_holding,
    mapping_of_path, other_areas, CowRanges, PrivatePlan,
};
use device_faker::cow::{
    check_cow_request, CowCheck, CowSpoof, CowStep, KeyOutcome, PrefixCache,
};
use device_faker::insert::{sibling_probes, target_areas, verify_insert};
use device_faker::maps::{
    collect_prop_area_mappings, unmap_prop_areas, PropAreaMapping, PropRange,
};
use device_faker::patch::{AreaEvent, AreaStep, PatchExisting, PatchResult};
use device_faker::string_map::PropertyMap;

const MAPS: &str = "\
7f0000000000-7f0000020000 r--s 00000000 00:12 17   /dev/__properties__/properties_serial
7f0000020000-7f0000040000 r--s 00001000 00:12 18   /dev/__properties__/u:object_r:build_prop:s0
7f0000040000-7f0000060000 r--s 00000000 00:12 19   /dev/__properties__/u:object_r:build_odm_prop:s0
7f0000060000-7f0000060040 r--s 00000000 00:12 20   /dev/__properties__/u:object_r:build_vendor_prop:s0
7f0000080000-7f00000a0000 r--s 00000000 00:12 21   /dev/__properties__/u:object_r:default_prop:s0
7f00000a0000-7f00000c0000 r--s 00000000 00:12 22   /dev/__properties__/u:object_r:radio_prop:s0
7f00000c0000-7f00000e0000 r--p 00000000 00:00 0
7f00000e0000-7f0000100000 r--p 00000000 fe:00 99   /system/lib64/libc.so
zz-7f0000100000 r--p 00000000 fe:00 99   /dev/__properties__/bad_range
7f0000100000-7f0000120000 r--p xyz fe:00 99   /dev/__properties__/bad_offset
";

fn mappings() -> Vec<PropAreaMapping> {
    collect_prop_area_mappings(MAPS)
}

fn patterns(list: &[&str]) -> Vec<String> {
    list.iter().map(|s| s.to_string()).collect()
}

#[test]
fn mappings_are_read() {
    let m = mappings();
    assert_eq!(m.len(), 6);
    assert_eq!(m[0].start, 0x7f0000000000);
    assert_eq!(m[0].end, 0x7f0000020000);
    assert_eq!(m[0].offset, 0);
    assert_eq!(m[0].path, "/dev/__properties__/properties_serial");
    assert_eq!(m[1].offset, 0x1000);
    assert_eq!(m[5].path, "/dev/__properties__/u:object_r:radio_prop:s0");
    assert!(collect_prop_area_mappings("").is_empty());
    // A path in which the directory only occurs further on is another file.
    assert!(collect_prop_area_mappings("1-2 r 0 0 0 /x/dev/__properties__/y").is_empty());
}

#[test]
fn ranges_to_unmap() {
    let ranges = unmap_prop_areas(&patterns(&["radio_prop", "libc"]), MAPS);
    assert_eq!(ranges, vec![PropRange { start: 0x7f00000a0000, end: 0x7f00000c0000 }]);
    assert_eq!(ranges[0].size(), 0x20000);
    assert!(unmap_prop_areas(&Vec::new(), MAPS).is_empty());
    // Only the path is looked at, and it has to be that of a property area.
    assert!(unmap_prop_areas(&patterns(&["r--s", "7f00", "xyz", "zz"]), MAPS).is_empty());
    let elsewhere = "1-2 r--s 0 0:0 1 /x/dev/__properties__/radio_prop\n";
    assert!(unmap_prop_areas(&patterns(&["radio_prop"]), elsewhere).is_empty());
    // A path may hold spaces, and the columns before it do not matter.
    let short = "1-2 /dev/__properties__/radio_prop (deleted)\n";
    assert_eq!(
        unmap_prop_areas(&patterns(&["deleted"]), short),
        vec![PropRange { start: 1, end: 2 }]
    );
    assert!(unmap_prop_areas(&patterns(&["radio"]), "/dev/__properties__/radio_prop").is_empty());
    // The offset does not matter, and a range that is none is passed over.
    let ranges = unmap_prop_areas(&patterns(&["bad_"]), MAPS);
    assert_eq!(ranges, vec![PropRange { start: 0x7f0000100000, end: 0x7f0000120000 }]);
    assert_eq!(unmap_prop_areas(&patterns(&[""]), MAPS).len(), 7);
}

#[test]
fn areas_of_build_properties() {
    assert!(is_build_area("/dev/__properties__/u:object_r:build_prop:s0"));
    assert!(is_build_area("build_odm_prop"));
    assert!(is_build_area("build_vendor_prop"));
    assert!(is_build_area("x_default_prop"));
    assert!(!is_build_area("/dev/__properties__/u:object_r:radio_prop:s0"));
    let m = mappings();
    assert_eq!(areas_to_probe(&m), vec![1, 2, 4]);
    assert_eq!(other_areas(&m, 0x7f0000020010), vec![2, 4]);
    assert_eq!(other_areas(&m, 0), vec![1, 2, 4]);
    // A mapping that ends before it starts is never looked into.
    let reversed = vec![PropAreaMapping {
        start: 0x9000,
        end: 0x1000,
        path: "/dev/__properties__/u:object_r:build_prop:s0".to_string(),
        offset: 0,
    }];
    assert!(areas_to_probe(&reversed).is_empty());
    assert!(other_areas(&reversed, 0).is_empty());
    assert_eq!(mapping_holding(&m, 0x7f0000020000), Some(1));
    assert_eq!(mapping_holding(&m, 0x7f000003ffff), Some(1));
    assert_eq!(mapping_holding(&m, 0x7f0000060040), None);
    assert_eq!(mapping_of_path(&m, "/dev/__properties__/u:object_r:default_prop:s0"), Some(4));
    assert_eq!(mapping_of_path(&m, "/dev/null"), None);
    assert_eq!(cow_serial_area(&m), Some(0));
    assert_eq!(cow_serial_area(&Vec::new()), None);
    assert_eq!(
        target_areas(&m, &patterns(&["/dev/null", "/dev/__properties__/properties_serial"])),
        vec![0]
    );
}

#[test]
fn routes_lead_to_property_areas() {
    let inside = "/dev/__properties__/u:object_r:build_prop:s0".to_string();
    assert_eq!(context_area_path(Some(inside.clone())), Some(inside));
    assert_eq!(context_area_path(Some("/data/props".to_string())), None);
    assert_eq!(context_area_path(None), None);
}

#[test]
fn an_area_is_made_private_once() {
    let m = mappings();
    let mut ranges = CowRanges::new();
    assert_eq!(ranges.ensure_prop_area_private(0x7f0000020010, &m), PrivatePlan::Remap(1));
    assert_eq!(ranges.ensure_prop_area_private(0x10, &m), PrivatePlan::NotMapped);
    ranges.record(&m[1]);
    assert_eq!(ranges.ensure_prop_area_private(0x7f0000020010, &m), PrivatePlan::Already);
    assert_eq!(ranges.ensure_prop_area_private(0x7f000003ffff, &m), PrivatePlan::Already);
    assert_eq!(ranges.ensure_prop_area_private(0x7f0000040000, &m), PrivatePlan::Remap(2));
    ranges.clear();
    assert_eq!(ranges.ensure_prop_area_private(0x7f0000020010, &m), PrivatePlan::Remap(1));
    let odd = vec![PropAreaMapping { start: 0, end: 9, path: "a\0b".to_string(), offset: 0 }];
    assert_eq!(ranges.ensure_prop_area_private(3, &odd), PrivatePlan::InvalidPath);
}

#[test]
fn siblings_by_prefix() {
    assert_eq!(
        sibling_probes("ro.product"),
        vec!["ro.product.model", "ro.product.device", "ro.product.brand"]
    );
    assert_eq!(sibling_probes("ro.product.odm").len(), 3);
    assert_eq!(
        sibling_probes("ro.build.version"),
        vec!["ro.build.display.id", "ro.build.fingerprint"]
    );
    assert_eq!(sibling_probes("ro.vendor"), vec!["ro.vendor.build.fingerprint"]);
    assert_eq!(sibling_probes("ro.hardware"), vec!["ro.hardware"]);
    assert_eq!(sibling_probes("persist.sys"), vec!["persist.sys.timezone"]);
    assert_eq!(sibling_probes("ro.products"), vec!["ro.build.id", "ro.product.model"]);
    assert_eq!(sibling_probes("debug"), vec!["ro.product.model", "ro.build.id"]);
    assert_eq!(sibling_probes("persistent"), vec!["ro.product.model", "ro.build.id"]);
}

#[test]
fn serial_numbers_of_new_properties() {
    let flag = 1 << 16;
    assert!(verify_insert(5 << 24, flag, 5));
    assert!(verify_insert(5 << 24 | 0xfffe, flag, 5));
    assert!(!verify_insert(5 << 24, flag, 6));
    assert!(verify_insert(flag | 60 << 24, flag, 92));
    assert!(!verify_insert(flag | 60 << 24, flag, 91));
}

#[test]
fn results_of_a_change() {
    let m = mappings();
    let at = 0x7f0000020010;
    // Each list of events leads to the result behind it.
    let cases: Vec<(bool, Vec<AreaEvent>, PatchResult)> = vec![
        (true, vec![AreaEvent::Absent], PatchResult::NotThere),
        (true, vec![AreaEvent::Address(at), AreaEvent::Failed], PatchResult::NotThere),
        (true, vec![AreaEvent::Address(1), AreaEvent::Done], PatchResult::NoMapping),
        (
            true,
            vec![AreaEvent::Address(at), AreaEvent::Done, AreaEvent::Failed],
            PatchResult::AreaFailed,
        ),
        (
            true,
            vec![AreaEvent::Address(at), AreaEvent::Done, AreaEvent::Done, AreaEvent::Failed],
            PatchResult::AreaFailed,
        ),
        (
            true,
            vec![AreaEvent::Address(at), AreaEvent::Done, AreaEvent::Done, AreaEvent::Absent],
            PatchResult::NotThere,
        ),
        (
            false,
            vec![AreaEvent::Address(at), AreaEvent::Done, AreaEvent::Done, AreaEvent::Offset(8)],
            PatchResult::SerialUnavailable,
        ),
        (
            true,
            vec![
                AreaEvent::Address(at),
                AreaEvent::Done,
                AreaEvent::Done,
                AreaEvent::Offset(8),
                AreaEvent::Failed,
            ],
            PatchResult::UpdateFailed,
        ),
    ];
    for (serial, events, result) in cases {
        let mut patch = PatchExisting::new("ro.x", serial);
        for event in events {
            assert_eq!(patch.cow_patch_existing(), None);
            patch.report(&m, event);
        }
        assert_eq!(patch.cow_patch_existing(), Some(result));
        assert_eq!(patch.next_step(&m), AreaStep::Finished);
    }
    let patch = PatchExisting::new("ro\0x", true);
    assert_eq!(patch.cow_patch_existing(), Some(PatchResult::InvalidName));
}

#[test]
fn a_property_is_changed_wherever_it_is() {
    let m = mappings();
    let mut patch = PatchExisting::new("ro.x", true);
    let mut steps = Vec::new();
    // The second area cannot be made private; the third one holds the property.
    let events = [
        AreaEvent::Address(0x7f0000020010),
        AreaEvent::Done,
        AreaEvent::Done,
        AreaEvent::Offset(8),
        AreaEvent::Done,
        AreaEvent::Failed,
        AreaEvent::Done,
        AreaEvent::Done,
        AreaEvent::Offset(16),
        AreaEvent::Failed,
    ];
    for event in events {
        steps.push(patch.next_step(&m));
        patch.report(&m, event);
    }
    assert_eq!(
        steps,
        vec![
            AreaStep::Lookup,
            AreaStep::MakePrivate(0x7f0000020010),
            AreaStep::Open(1),
            AreaStep::Find,
            AreaStep::Update(8),
            AreaStep::MakePrivate(0x7f0000040000),
            AreaStep::MakePrivate(0x7f0000080000),
            AreaStep::Open(4),
            AreaStep::Find,
            AreaStep::Update(16),
        ]
    );
    assert_eq!(patch.cow_patch_existing(), Some(PatchResult::Patched));
}

/// A process: which properties each area holds.
struct Process {
    areas: Vec<Vec<&'static str>>,
    open: usize,
    private: Vec<usize>,
    updated: Vec<(usize, String)>,
    inserted: Vec<(usize, String)>,
    routes: bool,
}

impl Process {
    fn run(&mut self, mut cow: CowSpoof) -> CowSpoof {
        let m = mappings();
        loop {
            let step = match cow.next_step() {
                CowStep::Finished => return cow,
                CowStep::Route(key) => {
                    let found = if !self.routes {
                        None
                    } else if key == "ro.hidden" {
                        Some("/dev/__properties__/u:object_r:hidden_prop:s0".to_string())
                    } else {
                        Some(m[4].path.clone())
                    };
                    cow.report_route(found);
                    continue;
                }
                CowStep::Area(step) => step,
            };
            let event = match step {
                AreaStep::Lookup => {
                    let key = cow.key();
                    match self.areas.iter().position(|a| a.contains(&key.as_str())) {
                        Some(i) => AreaEvent::Address(m[i].start + 16),
                        None => AreaEvent::Absent,
                    }
                }
                AreaStep::MakePrivate(addr) => {
                    self.private.push(mapping_holding(&m, addr).unwrap());
                    AreaEvent::Done
                }
                AreaStep::Open(i) => {
                    self.open = i;
                    AreaEvent::Done
                }
                AreaStep::Find => {
                    let key = cow.key();
                    let added = self.inserted.iter().any(|(i, k)| *i == self.open && *k == key);
                    if added || self.areas[self.open].contains(&key.as_str()) {
                        AreaEvent::Offset(16)
                    } else {
                        AreaEvent::Absent
                    }
                }
                AreaStep::FindSibling(k) => {
                    let name = &cow.siblings()[k];
                    if self.areas[self.open].contains(&name.as_str()) {
                        AreaEvent::Offset(32)
                    } else {
                        AreaEvent::Absent
                    }
                }
                AreaStep::Update(_) => {
                    if cow.value() == "too long" {
                        AreaEvent::Failed
                    } else {
                        self.updated.push((self.open, cow.key()));
                        AreaEvent::Done
                    }
                }
                AreaStep::Insert => {
                    if cow.value() == "too long" {
                        AreaEvent::Failed
                    } else {
                        self.inserted.push((self.open, cow.key()));
                        AreaEvent::Done
                    }
                }
                AreaStep::ReadSerial(_) => AreaEvent::Serial((cow.value().len() as u32) << 24),
                AreaStep::Finished => panic!("an area step that is none"),
            };
            cow.report(event);
        }
    }
}

fn process(routes: bool) -> Process {
    Process {
        areas: vec![
            vec![],
            vec!["ro.product.model", "ro.build.id"],
            vec!["ro.product.model"],
            vec![],
            vec!["ro.product.brand"],
            vec!["ro.radio"],
        ],
        open: 0,
        private: Vec::new(),
        updated: Vec::new(),
        inserted: Vec::new(),
        routes,
    }
}

#[test]
fn properties_are_changed_or_added_in_the_process() {
    let mut props = PropertyMap::new();
    props.set("ro.product.model", "Pixel");
    props.set("ro.product.nickname", "p");
    props.set("ro.build.id", "too long");
    props.set("ro.product.codename", "too long");
    props.set("ro.radio", "r");
    let cow =
        CowSpoof::apply_cow_spoof(props, mappings(), true, 1 << 16, PrefixCache::new());
    let mut p = process(false);
    let cow = p.run(cow);
    assert_eq!(
        *cow.outcomes(),
        vec![
            KeyOutcome::Patched,
            KeyOutcome::Inserted,
            KeyOutcome::Failed,
            KeyOutcome::Unfound,
            KeyOutcome::Patched,
        ]
    );
    assert_eq!(
        p.updated,
        vec![
            (1, "ro.product.model".to_string()),
            (2, "ro.product.model".to_string()),
            (5, "ro.radio".to_string()),
        ]
    );
    // The areas in which a sibling was found.
    assert_eq!(
        p.inserted,
        vec![
            (1, "ro.product.nickname".to_string()),
            (2, "ro.product.nickname".to_string()),
            (4, "ro.product.nickname".to_string()),
        ]
    );
    assert_eq!(
        cow.unfound(),
        vec![
            ("ro.build.id".to_string(), "too long".to_string()),
            ("ro.product.codename".to_string(), "too long".to_string()),
        ]
    );
    let cache = cow.into_cache();
    assert_eq!(cache.get("ro.product").unwrap().len(), 3);
    assert!(cache.get("ro.build").is_none());
}

#[test]
fn a_known_prefix_is_not_searched_again() {
    let mut cache = PrefixCache::new();
    cache.insert("ro.product".to_string(), vec![mappings()[4].path.clone(), "/gone".to_string()]);
    let mut props = PropertyMap::new();
    props.set("ro.product.nickname", "p");
    let cow = CowSpoof::apply_cow_spoof(props, mappings(), true, 1 << 16, cache);
    let mut p = process(false);
    let cow = p.run(cow);
    assert_eq!(*cow.outcomes(), vec![KeyOutcome::Inserted]);
    assert_eq!(p.private, vec![4]);
    assert!(cow.unfound().is_empty());
}

#[test]
fn the_route_of_a_property_decides() {
    let mut props = PropertyMap::new();
    props.set("ro.hidden", "h");
    props.set("ro.product.nickname", "p");
    let cow =
        CowSpoof::apply_cow_spoof(props, mappings(), true, 1 << 16, PrefixCache::new());
    let mut p = process(true);
    let cow = p.run(cow);
    assert_eq!(*cow.outcomes(), vec![KeyOutcome::Skipped, KeyOutcome::Inserted]);
    assert_eq!(p.inserted, vec![(4, "ro.product.nickname".to_string())]);
    // What the process cannot see is left to nobody.
    assert!(cow.unfound().is_empty());
}

#[test]
fn nothing_to_change() {
    let none = PropertyMap::new();
    let mut some = PropertyMap::new();
    some.set("a", "b");
    assert_eq!(check_cow_request(&none, false), CowCheck::Nothing);
    assert_eq!(check_cow_request(&some, false), CowCheck::Unavailable);
    assert_eq!(check_cow_request(&some, true), CowCheck::Proceed);
    let cow =
        CowSpoof::apply_cow_spoof(none, Vec::new(), false, 1 << 16, PrefixCache::new());
    assert!(matches!(cow.next_step(), CowStep::Finished));
    assert!(cow.unfound().is_empty());
}
