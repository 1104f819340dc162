//! The configuration: which app is told what about the device.

use vstd::prelude::*;

use crate::profile::{
    custom_pairs, is_blank, kept_dpi, law_custom_properties_are_kept, law_set_fields_are_kept,
    valid_dpi, MergedAppConfig, Profile,
};
use crate::string_map::{distinct_keys, has_key, lookup, PropertyMap, StringMap};
use crate::text;

verus! {

/// A device to show to the apps of a list.
#[derive(Debug, Clone)]
pub struct DeviceTemplate {
    /// The packages that are shown this device.
    pub packages: Vec<String>,
    pub manufacturer: Option<String>,
    pub brand: Option<String>,
    pub marketname: Option<String>,
    pub model: Option<String>,
    pub name: Option<String>,
    pub device: Option<String>,
    pub product: Option<String>,
    pub hardware: Option<String>,
    pub board: Option<String>,
    /// The SoC model: `Build.SOC_MODEL` and `ro.soc.model`.
    pub soc_model: Option<String>,
    pub fingerprint: Option<String>,
    pub build_id: Option<String>,
    /// The version that is shown: `Build.DISPLAY` and `ro.build.display.id`.
    pub display_id: Option<String>,
    /// The build increment: `Build.VERSION.INCREMENTAL` and `ro.build.version.incremental`.
    pub incremental: Option<String>,
    /// The date of the security patch level: `Build.VERSION.SECURITY_PATCH` and
    /// `ro.build.version.security_patch` with its copies.
    pub security_patch: Option<String>,
    pub characteristics: Option<String>,
    /// The Android version, such as `15`.
    pub android_version: Option<String>,
    /// The SDK level, such as 35.
    pub sdk_int: Option<u32>,
    /// The display density to set for as long as the app is in the foreground.
    pub dpi: Option<u32>,
    /// Properties to set by name.
    pub custom_props: Option<PropertyMap>,
    /// Whether module mounts are hidden from the app. The global default where it is not set.
    pub force_denylist_unmount: Option<bool>,
    /// The patterns of property mappings to remove. The global default where it is not set.
    pub hide_maps: Option<Vec<String>>,
    /// Whether all properties go to the companion process.
    pub companion_resetprop: Option<bool>,
}

/// A device to show to one app.
#[derive(Debug, Clone)]
pub struct AppConfig {
    pub package: String,
    pub manufacturer: Option<String>,
    pub brand: Option<String>,
    pub marketname: Option<String>,
    pub model: Option<String>,
    pub name: Option<String>,
    pub device: Option<String>,
    pub product: Option<String>,
    pub hardware: Option<String>,
    pub board: Option<String>,
    /// The SoC model: `Build.SOC_MODEL` and `ro.soc.model`.
    pub soc_model: Option<String>,
    pub fingerprint: Option<String>,
    pub build_id: Option<String>,
    /// The version that is shown: `Build.DISPLAY` and `ro.build.display.id`.
    pub display_id: Option<String>,
    /// The build increment: `Build.VERSION.INCREMENTAL` and `ro.build.version.incremental`.
    pub incremental: Option<String>,
    /// The date of the security patch level: `Build.VERSION.SECURITY_PATCH` and
    /// `ro.build.version.security_patch` with its copies.
    pub security_patch: Option<String>,
    pub characteristics: Option<String>,
    /// The Android version, such as `15`.
    pub android_version: Option<String>,
    /// The SDK level, such as 35.
    pub sdk_int: Option<u32>,
    /// The display density to set for as long as the app is in the foreground.
    pub dpi: Option<u32>,
    /// Properties to set by name.
    pub custom_props: Option<PropertyMap>,
    /// Whether module mounts are hidden from the app. The global default where it is not set.
    pub force_denylist_unmount: Option<bool>,
    /// The patterns of property mappings to remove. The global default where it is not set.
    pub hide_maps: Option<Vec<String>>,
    /// Whether all properties go to the companion process.
    pub companion_resetprop: Option<bool>,
}

/// The whole configuration.
#[derive(Debug)]
pub struct Config {
    /// Whether module mounts are hidden from apps that do not say otherwise.
    pub default_force_denylist_unmount: bool,
    /// Whether a log is written.
    pub debug: bool,
    /// The device templates by name.
    pub templates: StringMap<DeviceTemplate>,
    /// The settings of single apps.
    pub apps: Vec<AppConfig>,
    /// The patterns of property mappings to remove from apps that do not say otherwise.
    pub default_hide_maps: Vec<String>,
}

/// A copy of optional custom properties.
fn copy_custom(props: &Option<PropertyMap>) -> (out: Option<PropertyMap>)
    ensures
        custom_pairs(out) == custom_pairs(*props),
{
    match props {
        Some(props) => Some(props.clone()),
        None => None,
    }
}

impl AppConfig {
    /// The profile that the app asks for, before anything is filled in.
    pub open spec fn profile(self, config: Config) -> Profile {
        Profile {
            manufacturer: text::opt_view(self.manufacturer),
            brand: text::opt_view(self.brand),
            marketname: text::opt_view(self.marketname),
            model: text::opt_view(self.model),
            name: text::opt_view(self.name),
            device: text::opt_view(self.device),
            product: text::opt_view(self.product),
            hardware: text::opt_view(self.hardware),
            board: text::opt_view(self.board),
            soc_model: text::opt_view(self.soc_model),
            fingerprint: text::opt_view(self.fingerprint),
            build_id: text::opt_view(self.build_id),
            display_id: text::opt_view(self.display_id),
            incremental: text::opt_view(self.incremental),
            security_patch: text::opt_view(self.security_patch),
            characteristics: text::opt_view(self.characteristics),
            android_version: text::opt_view(self.android_version),
            sdk_int: self.sdk_int,
            dpi: kept_dpi(self.dpi),
            custom_props: custom_pairs(self.custom_props),
            force_denylist_unmount: match self.force_denylist_unmount {
                Some(b) => b,
                None => config.default_force_denylist_unmount,
            },
            hide_maps: match self.hide_maps {
                Some(patterns) => text::views(patterns@),
                None => text::views(config.default_hide_maps@),
            },
            companion_resetprop: match self.companion_resetprop {
                Some(b) => b,
                None => false,
            },
        }
    }

    /// Merges the app with the global defaults.
    fn merged(&self, config: &Config) -> (out: MergedAppConfig)
        ensures
            out@ == self.profile(*config),
    {
        MergedAppConfig {
            manufacturer: text::copy_opt(&self.manufacturer),
            brand: text::copy_opt(&self.brand),
            marketname: text::copy_opt(&self.marketname),
            model: text::copy_opt(&self.model),
            name: text::copy_opt(&self.name),
            device: text::copy_opt(&self.device),
            product: text::copy_opt(&self.product),
            hardware: text::copy_opt(&self.hardware),
            board: text::copy_opt(&self.board),
            soc_model: text::copy_opt(&self.soc_model),
            fingerprint: text::copy_opt(&self.fingerprint),
            build_id: text::copy_opt(&self.build_id),
            display_id: text::copy_opt(&self.display_id),
            incremental: text::copy_opt(&self.incremental),
            security_patch: text::copy_opt(&self.security_patch),
            characteristics: text::copy_opt(&self.characteristics),
            android_version: text::copy_opt(&self.android_version),
            sdk_int: self.sdk_int,
            dpi: valid_dpi(self.dpi),
            custom_props: copy_custom(&self.custom_props),
            force_denylist_unmount: match self.force_denylist_unmount {
                Some(b) => b,
                None => config.default_force_denylist_unmount,
            },
            hide_maps: match &self.hide_maps {
                Some(patterns) => text::copy_list(patterns),
                None => text::copy_list(&config.default_hide_maps),
            },
            companion_resetprop: match self.companion_resetprop {
                Some(b) => b,
                None => false,
            },
        }
    }
}

impl DeviceTemplate {
    /// The profile that the template asks for, before anything is filled in.
    pub open spec fn profile(self, config: Config) -> Profile {
        Profile {
            manufacturer: text::opt_view(self.manufacturer),
            brand: text::opt_view(self.brand),
            marketname: text::opt_view(self.marketname),
            model: text::opt_view(self.model),
            name: text::opt_view(self.name),
            device: text::opt_view(self.device),
            product: text::opt_view(self.product),
            hardware: text::opt_view(self.hardware),
            board: text::opt_view(self.board),
            soc_model: text::opt_view(self.soc_model),
            fingerprint: text::opt_view(self.fingerprint),
            build_id: text::opt_view(self.build_id),
            display_id: text::opt_view(self.display_id),
            incremental: text::opt_view(self.incremental),
            security_patch: text::opt_view(self.security_patch),
            characteristics: text::opt_view(self.characteristics),
            android_version: text::opt_view(self.android_version),
            sdk_int: self.sdk_int,
            dpi: kept_dpi(self.dpi),
            custom_props: custom_pairs(self.custom_props),
            force_denylist_unmount: match self.force_denylist_unmount {
                Some(b) => b,
                None => config.default_force_denylist_unmount,
            },
            hide_maps: match self.hide_maps {
                Some(patterns) => text::views(patterns@),
                None => text::views(config.default_hide_maps@),
            },
            companion_resetprop: match self.companion_resetprop {
                Some(b) => b,
                None => false,
            },
        }
    }

    /// Merges the template with the global defaults.
    fn merged(&self, config: &Config) -> (out: MergedAppConfig)
        ensures
            out@ == self.profile(*config),
    {
        MergedAppConfig {
            manufacturer: text::copy_opt(&self.manufacturer),
            brand: text::copy_opt(&self.brand),
            marketname: text::copy_opt(&self.marketname),
            model: text::copy_opt(&self.model),
            name: text::copy_opt(&self.name),
            device: text::copy_opt(&self.device),
            product: text::copy_opt(&self.product),
            hardware: text::copy_opt(&self.hardware),
            board: text::copy_opt(&self.board),
            soc_model: text::copy_opt(&self.soc_model),
            fingerprint: text::copy_opt(&self.fingerprint),
            build_id: text::copy_opt(&self.build_id),
            display_id: text::copy_opt(&self.display_id),
            incremental: text::copy_opt(&self.incremental),
            security_patch: text::copy_opt(&self.security_patch),
            characteristics: text::copy_opt(&self.characteristics),
            android_version: text::copy_opt(&self.android_version),
            sdk_int: self.sdk_int,
            dpi: valid_dpi(self.dpi),
            custom_props: copy_custom(&self.custom_props),
            force_denylist_unmount: match self.force_denylist_unmount {
                Some(b) => b,
                None => config.default_force_denylist_unmount,
            },
            hide_maps: match &self.hide_maps {
                Some(patterns) => text::copy_list(patterns),
                None => text::copy_list(&config.default_hide_maps),
            },
            companion_resetprop: match self.companion_resetprop {
                Some(b) => b,
                None => false,
            },
        }
    }
}

// ---------------------------------------------------------------------------
// Which settings are for a package
// ---------------------------------------------------------------------------

impl AppConfig {
    /// The settings are for the package.
    pub open spec fn is_for(self, package: Seq<char>) -> bool {
        self.package@ == package
    }
}

impl DeviceTemplate {
    /// The template lists the package.
    pub open spec fn is_for(self, package: Seq<char>) -> bool {
        text::views(self.packages@).contains(package)
    }

    /// Whether the template lists the package.
    fn lists(&self, package: &str) -> (yes: bool)
        ensures
            yes == self.is_for(package@),
    {
        let mut i: usize = 0;
        while i < self.packages.len()
            invariant
                i <= self.packages@.len(),
                forall|j: int| 0 <= j < i ==> (#[trigger] self.packages@[j])@ != package@,
            decreases self.packages@.len() - i,
        {
            if text::same(&self.packages[i], package) {
                assert(text::views(self.packages@)[i as int] == package@);
                return true;
            }
            i = i + 1;
        }
        assert forall|j: int| 0 <= j < text::views(self.packages@).len() implies text::views(
            self.packages@,
        )[j] != package@ by {
            assert(self.packages@[j]@ != package@);
        }
        false
    }
}

impl Config {
    /// The first settings of a single app for the package are at position `i`.
    pub open spec fn first_app(self, package: Seq<char>, i: int) -> bool {
        &&& 0 <= i < self.apps@.len()
        &&& self.apps@[i].is_for(package)
        &&& forall|j: int| 0 <= j < i ==> !(#[trigger] self.apps@[j]).is_for(package)
    }

    /// The settings of a single app for the package: the first ones where there are several.
    pub open spec fn app_for(self, package: Seq<char>) -> Option<AppConfig> {
        if exists|i: int| self.first_app(package, i) {
            Some(self.apps@[choose|i: int| self.first_app(package, i)])
        } else {
            None
        }
    }

    /// The first template that lists the package is at position `i`.
    pub open spec fn first_template(self, package: Seq<char>, i: int) -> bool {
        &&& 0 <= i < self.templates.entries().len()
        &&& self.templates.entries()[i].1.is_for(package)
        &&& forall|j: int|
            0 <= j < i ==> !(#[trigger] self.templates.entries()[j]).1.is_for(package)
    }

    /// The template that lists the package: the first one where there are several.
    pub open spec fn template_for(self, package: Seq<char>) -> Option<DeviceTemplate> {
        if exists|i: int| self.first_template(package, i) {
            Some(self.templates.entries()[choose|i: int| self.first_template(package, i)].1)
        } else {
            None
        }
    }

    /// The completed profile for the package: that of its own settings, else that of the
    /// template that lists it.
    pub open spec fn profile_for(self, package: Seq<char>) -> Option<Profile> {
        match self.app_for(package) {
            Some(app) => Some(app.profile(self).completed()),
            None => match self.template_for(package) {
                Some(template) => Some(template.profile(self).completed()),
                None => None,
            },
        }
    }

    /// The settings of a single app for the package.
    pub fn get_app_config(&self, package_name: &str) -> (out: Option<&AppConfig>)
        ensures
            match out {
                Some(app) => self.app_for(package_name@) == Some(*app) && app.is_for(package_name@),
                None => {
                    &&& self.app_for(package_name@) is None
                    &&& forall|i: int|
                        0 <= i < self.apps@.len() ==> !(#[trigger] self.apps@[i]).is_for(
                            package_name@,
                        )
                },
            },
    {
        let mut i: usize = 0;
        while i < self.apps.len()
            invariant
                i <= self.apps@.len(),
                forall|j: int| 0 <= j < i ==> !(#[trigger] self.apps@[j]).is_for(package_name@),
            decreases self.apps@.len() - i,
        {
            if text::same(&self.apps[i].package, package_name) {
                proof {
                    assert(self.first_app(package_name@, i as int));
                    let k = choose|k: int| self.first_app(package_name@, k);
                    assert(self.first_app(package_name@, k));
                    assert(k == i);
                }
                return Some(&self.apps[i]);
            }
            assert(!self.apps@[i as int].is_for(package_name@));
            i = i + 1;
        }
        None
    }

    /// The template that lists the package.
    pub fn find_template_for_package(&self, package_name: &str) -> (out: Option<&DeviceTemplate>)
        ensures
            match out {
                Some(t) => self.template_for(package_name@) == Some(*t) && t.is_for(package_name@),
                None => {
                    &&& self.template_for(package_name@) is None
                    &&& forall|i: int|
                        0 <= i < self.templates.entries().len()
                            ==> !(#[trigger] self.templates.entries()[i]).1.is_for(package_name@)
                },
            },
    {
        let n = self.templates.len();
        let mut i: usize = 0;
        while i < n
            invariant
                n == self.templates.entries().len(),
                i <= n,
                forall|j: int|
                    0 <= j < i ==> !(#[trigger] self.templates.entries()[j]).1.is_for(
                        package_name@,
                    ),
            decreases n - i,
        {
            let template = self.templates.value_at(i);
            if template.lists(package_name) {
                proof {
                    assert(self.first_template(package_name@, i as int));
                    let k = choose|k: int| self.first_template(package_name@, k);
                    assert(self.first_template(package_name@, k));
                    assert(k == i);
                }
                return Some(template);
            }
            assert(!self.templates.entries()[i as int].1.is_for(package_name@));
            i = i + 1;
        }
        None
    }

    /// The completed profile for the package.
    pub fn get_merged_config(&self, package_name: &str) -> (out: Option<MergedAppConfig>)
        ensures
            match out {
                Some(merged) => self.profile_for(package_name@) == Some(merged@),
                None => self.profile_for(package_name@) is None,
            },
    {
        if let Some(app) = self.get_app_config(package_name) {
            let mut merged = app.merged(self);
            merged.complete_device_profile();
            return Some(merged);
        }
        if let Some(template) = self.find_template_for_package(package_name) {
            let mut merged = template.merged(self);
            merged.complete_device_profile();
            return Some(merged);
        }
        None
    }
}


// ---------------------------------------------------------------------------
// What reaches an app
// ---------------------------------------------------------------------------

/// An app with settings of its own is told what the first of them say, whatever the templates
/// say: each field that is set, the defaults of the configuration for the three switches that are
/// not, and a density only within the supported range.
pub proof fn law_settings_of_an_app_reach_it(config: Config, package: Seq<char>, i: int)
    requires
        0 <= i < config.apps@.len(),
        config.apps@[i].package@ == package,
        forall|j: int| 0 <= j < i ==> (#[trigger] config.apps@[j]).package@ != package,
        config.apps@[i].custom_props matches Some(props) ==> distinct_keys(props.pairs()),
    ensures
        ({
            let app = config.apps@[i];
            match config.profile_for(package) {
                Some(p) => {
                    &&& p.manufacturer == text::opt_view(app.manufacturer)
                    &&& p.marketname == text::opt_view(app.marketname)
                    &&& p.model == text::opt_view(app.model)
                    &&& p.hardware == text::opt_view(app.hardware)
                    &&& p.board == text::opt_view(app.board)
                    &&& p.soc_model == text::opt_view(app.soc_model)
                    &&& p.fingerprint == text::opt_view(app.fingerprint)
                    &&& p.display_id == text::opt_view(app.display_id)
                    &&& p.security_patch == text::opt_view(app.security_patch)
                    &&& p.characteristics == text::opt_view(app.characteristics)
                    &&& !is_blank(text::opt_view(app.brand)) ==> p.brand
                        == text::opt_view(app.brand)
                    &&& !is_blank(text::opt_view(app.product)) ==> p.product
                        == text::opt_view(app.product)
                    &&& !is_blank(text::opt_view(app.name)) ==> p.name == text::opt_view(app.name)
                    &&& !is_blank(text::opt_view(app.device)) ==> p.device
                        == text::opt_view(app.device)
                    &&& !is_blank(text::opt_view(app.android_version)) ==> p.android_version
                        == text::opt_view(app.android_version)
                    &&& !is_blank(text::opt_view(app.build_id)) ==> p.build_id
                        == text::opt_view(app.build_id)
                    &&& !is_blank(text::opt_view(app.incremental)) ==> p.incremental
                        == text::opt_view(app.incremental)
                    &&& p.sdk_int == app.sdk_int
                    &&& p.dpi == match app.dpi {
                    Some(dpi) => if 120 <= dpi && dpi <= 640 {
                        Some(dpi)
                    } else {
                        None
                    },
                    None => None,
                }
                    &&& app.custom_props matches Some(props) ==> p.custom_props is Some && forall|
                    n: Seq<char>,
                |
                    has_key(props.pairs(), n) ==> #[trigger] lookup(p.custom_props->0, n)
                        == lookup(props.pairs(), n)
                    &&& p.force_denylist_unmount == match app.force_denylist_unmount {
                    Some(own) => own,
                    None => config.default_force_denylist_unmount,
                }
                    &&& p.hide_maps == match app.hide_maps {
                    Some(own) => text::views(own@),
                    None => text::views(config.default_hide_maps@),
                }
                    &&& p.companion_resetprop == match app.companion_resetprop {
                    Some(own) => own,
                    None => false,
                }
                },
                None => false,
            }
        }),
{
    assert(config.first_app(package, i));
    let k = choose|k: int| config.first_app(package, k);
    assert(config.first_app(package, k));
    assert(k == i);
    let app = config.apps@[i];
    let start = app.profile(config);
    lemma_what_stays(start);
    if let Some(props) = app.custom_props {
        assert forall|n: Seq<char>| has_key(props.pairs(), n) implies #[trigger] lookup(
            start.completed().custom_props->0,
            n,
        ) == lookup(props.pairs(), n) by {
            law_custom_properties_are_kept(start, n);
        }
        assert(start.completed().custom_props is Some);
    }
}

/// An app without settings of its own is told what the first template says that lists it, in the
/// same way. An app that nothing speaks of has no profile.
pub proof fn law_template_of_an_app_reaches_it(config: Config, package: Seq<char>, i: int)
    requires
        forall|j: int|
            0 <= j < config.apps@.len() ==> (#[trigger] config.apps@[j]).package@ != package,
        forall|j: int|
            0 <= j < i && j < config.templates.entries().len() ==> !text::views(
                (#[trigger] config.templates.entries()[j]).1.packages@,
            ).contains(package),
        0 <= i <= config.templates.entries().len(),
        i < config.templates.entries().len() ==> {
            &&& text::views(config.templates.entries()[i].1.packages@).contains(package)
            &&& config.templates.entries()[i].1.custom_props matches Some(props) ==> distinct_keys(
                props.pairs(),
            )
        },
    ensures
        i == config.templates.entries().len() ==> config.profile_for(package) is None,
        i < config.templates.entries().len() ==> {
            let template = config.templates.entries()[i].1;
            match config.profile_for(package) {
                Some(p) => {
                    &&& p.manufacturer == text::opt_view(template.manufacturer)
                    &&& p.marketname == text::opt_view(template.marketname)
                    &&& p.model == text::opt_view(template.model)
                    &&& p.hardware == text::opt_view(template.hardware)
                    &&& p.board == text::opt_view(template.board)
                    &&& p.soc_model == text::opt_view(template.soc_model)
                    &&& p.fingerprint == text::opt_view(template.fingerprint)
                    &&& p.display_id == text::opt_view(template.display_id)
                    &&& p.security_patch == text::opt_view(template.security_patch)
                    &&& p.characteristics == text::opt_view(template.characteristics)
                    &&& !is_blank(text::opt_view(template.brand)) ==> p.brand
                        == text::opt_view(template.brand)
                    &&& !is_blank(text::opt_view(template.product)) ==> p.product
                        == text::opt_view(template.product)
                    &&& !is_blank(text::opt_view(template.name)) ==> p.name
                        == text::opt_view(template.name)
                    &&& !is_blank(text::opt_view(template.device)) ==> p.device
                        == text::opt_view(template.device)
                    &&& !is_blank(text::opt_view(template.android_version)) ==> p.android_version
                        == text::opt_view(template.android_version)
                    &&& !is_blank(text::opt_view(template.build_id)) ==> p.build_id
                        == text::opt_view(template.build_id)
                    &&& !is_blank(text::opt_view(template.incremental)) ==> p.incremental
                        == text::opt_view(template.incremental)
                    &&& p.sdk_int == template.sdk_int
                    &&& p.dpi == match template.dpi {
                    Some(dpi) => if 120 <= dpi && dpi <= 640 {
                        Some(dpi)
                    } else {
                        None
                    },
                    None => None,
                }
                    &&& template.custom_props matches Some(props) ==> p.custom_props is Some && forall|
                    n: Seq<char>,
                |
                    has_key(props.pairs(), n) ==> #[trigger] lookup(p.custom_props->0, n)
                        == lookup(props.pairs(), n)
                    &&& p.force_denylist_unmount == match template.force_denylist_unmount {
                    Some(own) => own,
                    None => config.default_force_denylist_unmount,
                }
                    &&& p.hide_maps == match template.hide_maps {
                    Some(own) => text::views(own@),
                    None => text::views(config.default_hide_maps@),
                }
                    &&& p.companion_resetprop == match template.companion_resetprop {
                    Some(own) => own,
                    None => false,
                }
                },
                None => false,
            }
        },
{
    assert(config.app_for(package) is None) by {
        if exists|k: int| config.first_app(package, k) {
            let k = choose|k: int| config.first_app(package, k);
            assert(config.apps@[k].package@ != package);
        }
    }
    if i < config.templates.entries().len() {
        assert(config.first_template(package, i));
        let k = choose|k: int| config.first_template(package, k);
        assert(config.first_template(package, k));
        assert(k == i);
        let template = config.templates.entries()[i].1;
        let start = template.profile(config);
        lemma_what_stays(start);
        if let Some(props) = template.custom_props {
            assert forall|n: Seq<char>| has_key(props.pairs(), n) implies #[trigger] lookup(
                start.completed().custom_props->0,
                n,
            ) == lookup(props.pairs(), n) by {
                law_custom_properties_are_kept(start, n);
            }
            assert(start.completed().custom_props is Some);
        }
    } else if exists|k: int| config.first_template(package, k) {
        let k = choose|k: int| config.first_template(package, k);
        assert(config.first_template(package, k));
        assert(!text::views(config.templates.entries()[k].1.packages@).contains(package));
    }
}

/// What completing a profile leaves as it is.
proof fn lemma_what_stays(start: Profile)
    ensures
        (Profile {
            brand: start.brand,
            product: start.product,
            name: start.name,
            device: start.device,
            android_version: start.android_version,
            build_id: start.build_id,
            incremental: start.incremental,
            custom_props: start.custom_props,
            ..start.completed()
        }) == start,
        !is_blank(start.brand) ==> start.completed().brand == start.brand,
        !is_blank(start.product) ==> start.completed().product == start.product,
        !is_blank(start.name) ==> start.completed().name == start.name,
        !is_blank(start.device) ==> start.completed().device == start.device,
        !is_blank(start.android_version) ==> start.completed().android_version
            == start.android_version,
        !is_blank(start.build_id) ==> start.completed().build_id == start.build_id,
        !is_blank(start.incremental) ==> start.completed().incremental == start.incremental,
{
    law_set_fields_are_kept(start);
}

} // verus!
