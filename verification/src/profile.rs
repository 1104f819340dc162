//! The device profile of one app: what it is told about the device it runs on.

use vstd::prelude::*;

use crate::fingerprint::{
    fingerprint_of, law_only_fingerprints_are_read, Fingerprint, FingerprintParts,
};
use crate::string_map::{
    law_put_absent_then_lookup, lemma_put_absent_keeps, put_absent, PropertyMap,
};
use crate::text;

verus! {

/// The lowest display density that can be asked for.
pub const DPI_MIN: u32 = 120;

/// The highest display density that can be asked for.
pub const DPI_MAX: u32 = 640;

/// A density within the supported range.
pub open spec fn dpi_in_range(dpi: u32) -> bool {
    DPI_MIN <= dpi <= DPI_MAX
}

/// A density within the supported range, and none in place of any other.
pub open spec fn kept_dpi(value: Option<u32>) -> Option<u32> {
    match value {
        Some(dpi) => if dpi_in_range(dpi) {
            Some(dpi)
        } else {
            None
        },
        None => None,
    }
}

/// Drops a density outside the supported range.
pub fn valid_dpi(value: Option<u32>) -> (out: Option<u32>)
    ensures
        out == kept_dpi(value),
{
    match value {
        Some(dpi) => if DPI_MIN <= dpi && dpi <= DPI_MAX {
            Some(dpi)
        } else {
            None
        },
        None => None,
    }
}

/// A profile field that says something.
pub open spec fn has_value(value: Option<Seq<char>>) -> bool {
    value matches Some(v) && v.len() > 0
}

/// A profile field that asks for the property to be deleted.
pub open spec fn is_delete(value: Option<Seq<char>>) -> bool {
    value == Some("__DELETE__"@)
}

/// The value that a profile field stands for: none where it is unset, empty or marked for
/// deletion, and the empty text where it is marked as empty.
pub open spec fn effective(value: Option<Seq<char>>) -> Option<Seq<char>> {
    match value {
        Some(v) => if v.len() == 0 || v == "__DELETE__"@ {
            None
        } else if v == "__EMPTY__"@ {
            Some(Seq::empty())
        } else {
            Some(v)
        },
        None => None,
    }
}

/// Whether a profile field says something.
pub fn has_profile_value(value: &Option<String>) -> (yes: bool)
    ensures
        yes == has_value(text::opt_view(*value)),
{
    match value {
        Some(v) => !v.as_str().is_empty(),
        None => false,
    }
}

/// Gives a profile field a value, unless it has one.
pub fn fill_profile_default(target: &mut Option<String>, value: String)
    ensures
        text::opt_view(*final(target)) == filled(text::opt_view(*old(target)), Some(value@)),
{
    if !has_profile_value(target) {
        *target = Some(value);
    }
}

/// Whether a profile field is marked for deletion.
pub fn marked_delete(value: &Option<String>) -> (yes: bool)
    ensures
        yes == is_delete(text::opt_view(*value)),
{
    match value {
        Some(v) => text::same(v, "__DELETE__"),
        None => false,
    }
}

/// The value that a text of a profile stands for.
pub fn text_value(raw: &str) -> (out: Option<String>)
    ensures
        text::opt_view(out) == effective(Some(raw@)),
{
    if raw.is_empty() || text::same(raw, "__DELETE__") {
        None
    } else if text::same(raw, "__EMPTY__") {
        Some(String::new())
    } else {
        Some(raw.to_string())
    }
}

/// The value that a profile field stands for.
pub fn field_value(field: &Option<String>) -> (out: Option<String>)
    ensures
        text::opt_view(out) == effective(text::opt_view(*field)),
{
    match field {
        Some(value) => text_value(value.as_str()),
        None => None,
    }
}

/// A field with the default in place of a missing or empty value.
pub open spec fn filled(target: Option<Seq<char>>, default: Option<Seq<char>>) -> Option<
    Seq<char>,
> {
    if !has_value(target) && default is Some {
        default
    } else {
        target
    }
}

/// A field with the value of another in place of a missing or empty one.
pub open spec fn copied(target: Option<Seq<char>>, source: Option<Seq<char>>) -> Option<Seq<char>> {
    if !has_value(target) && has_value(source) {
        source
    } else {
        target
    }
}

/// The device profile of one app, its texts as sequences of characters.
#[verifier::ext_equal]
pub struct Profile {
    pub manufacturer: Option<Seq<char>>,
    pub brand: Option<Seq<char>>,
    pub marketname: Option<Seq<char>>,
    pub model: Option<Seq<char>>,
    pub name: Option<Seq<char>>,
    pub device: Option<Seq<char>>,
    pub product: Option<Seq<char>>,
    pub hardware: Option<Seq<char>>,
    pub board: Option<Seq<char>>,
    pub soc_model: Option<Seq<char>>,
    pub fingerprint: Option<Seq<char>>,
    pub build_id: Option<Seq<char>>,
    pub display_id: Option<Seq<char>>,
    pub incremental: Option<Seq<char>>,
    pub security_patch: Option<Seq<char>>,
    pub characteristics: Option<Seq<char>>,
    pub android_version: Option<Seq<char>>,
    pub sdk_int: Option<u32>,
    pub dpi: Option<u32>,
    pub custom_props: Option<Seq<(Seq<char>, Seq<char>)>>,
    pub force_denylist_unmount: bool,
    pub hide_maps: Seq<Seq<char>>,
    pub companion_resetprop: bool,
}

/// The entries of optional custom properties.
pub open spec fn custom_pairs(props: Option<PropertyMap>) -> Option<
    Seq<(Seq<char>, Seq<char>)>,
> {
    match props {
        Some(props) => Some(props.pairs()),
        None => None,
    }
}

impl Profile {
    /// The fields of its fingerprint, where that is in the standard form.
    pub open spec fn parsed_fingerprint(self) -> Option<Fingerprint> {
        match self.fingerprint {
            Some(f) => fingerprint_of(f),
            None => None,
        }
    }

    /// The profile with its missing fields taken from its fingerprint. The product code is missing
    /// only where neither `product` nor `name` gives it.
    pub open spec fn with_fingerprint(self) -> Profile {
        match self.parsed_fingerprint() {
            Some(f) => Profile {
                brand: filled(self.brand, Some(f.brand)),
                product: filled(copied(self.product, self.name), Some(f.product)),
                device: filled(self.device, Some(f.device)),
                android_version: filled(self.android_version, Some(f.release)),
                build_id: filled(self.build_id, Some(f.build_id)),
                incremental: filled(self.incremental, Some(f.incremental)),
                ..self
            },
            None => self,
        }
    }

    /// The profile with product, name and device filled in from one another: `product` and
    /// `name` both stand for the product code, and a device without a code takes it too.
    pub open spec fn with_product_code(self) -> Profile {
        let product = copied(self.product, self.name);
        Profile {
            product,
            name: copied(self.name, product),
            device: copied(self.device, product),
            ..self
        }
    }

    /// The custom properties with the increment, the type and the tags of the build as the
    /// fingerprint has them, where they do not name them already. The increment is left out where
    /// the profile sets it itself: as a custom property it would override that.
    pub open spec fn custom_with_fingerprint(self) -> Option<Seq<(Seq<char>, Seq<char>)>> {
        match self.parsed_fingerprint() {
            Some(f) => {
                let props = match self.custom_props {
                    Some(props) => props,
                    None => Seq::empty(),
                };
                let incremented = if has_value(self.incremental) {
                    props
                } else {
                    put_absent(props, "ro.build.version.incremental"@, f.incremental)
                };
                Some(
                    put_absent(
                        put_absent(incremented, "ro.build.type"@, f.build_type),
                        "ro.build.tags"@,
                        f.tags,
                    ),
                )
            },
            None => self.custom_props,
        }
    }

    /// The profile with everything filled in that follows from what is set.
    pub open spec fn completed(self) -> Profile {
        Profile {
            custom_props: self.custom_with_fingerprint(),
            ..self.with_fingerprint().with_product_code()
        }
    }
}

/// What an app is told about the device, after its own settings and the defaults are merged.
#[derive(Debug, Clone)]
pub struct MergedAppConfig {
    pub manufacturer: Option<String>,
    pub brand: Option<String>,
    pub marketname: Option<String>,
    pub model: Option<String>,
    pub name: Option<String>,
    pub device: Option<String>,
    pub product: Option<String>,
    pub hardware: Option<String>,
    pub board: Option<String>,
    pub soc_model: Option<String>,
    pub fingerprint: Option<String>,
    pub build_id: Option<String>,
    /// The version that is shown: `Build.DISPLAY` and `ro.build.display.id`.
    pub display_id: Option<String>,
    /// The build increment: `Build.VERSION.INCREMENTAL` and `ro.build.version.incremental`.
    pub incremental: Option<String>,
    /// The date of the security patch level: `Build.VERSION.SECURITY_PATCH` and
    /// `ro.build.version.security_patch` with its copies.
    pub security_patch: Option<String>,
    pub characteristics: Option<String>,
    pub android_version: Option<String>,
    pub sdk_int: Option<u32>,
    /// The display density to set, within the supported range.
    pub dpi: Option<u32>,
    pub custom_props: Option<PropertyMap>,
    pub force_denylist_unmount: bool,
    /// The patterns of property mappings to remove from the process's map.
    pub hide_maps: Vec<String>,
    /// Whether all properties go to the companion process.
    pub companion_resetprop: bool,
}

impl View for MergedAppConfig {
    type V = Profile;

    open spec fn view(&self) -> Profile {
        Profile {
            manufacturer: text::opt_view(self.manufacturer),
            brand: text::opt_view(self.brand),
            marketname: text::opt_view(self.marketname),
            model: text::opt_view(self.model),
            name: text::opt_view(self.name),
            device: text::opt_view(self.device),
            product: text::opt_view(self.product),
            hardware: text::opt_view(self.hardware),
            board: text::opt_view(self.board),
            soc_model: text::opt_view(self.soc_model),
            fingerprint: text::opt_view(self.fingerprint),
            build_id: text::opt_view(self.build_id),
            display_id: text::opt_view(self.display_id),
            incremental: text::opt_view(self.incremental),
            security_patch: text::opt_view(self.security_patch),
            characteristics: text::opt_view(self.characteristics),
            android_version: text::opt_view(self.android_version),
            sdk_int: self.sdk_int,
            dpi: self.dpi,
            custom_props: custom_pairs(self.custom_props),
            force_denylist_unmount: self.force_denylist_unmount,
            hide_maps: text::views(self.hide_maps@),
            companion_resetprop: self.companion_resetprop,
        }
    }
}

/// Gives a profile field the value of another, unless it has one.
fn copy_default(target: &mut Option<String>, source: &Option<String>)
    ensures
        text::opt_view(*final(target)) == copied(
            text::opt_view(*old(target)),
            text::opt_view(*source),
        ),
{
    if !has_profile_value(target) && has_profile_value(source) {
        *target = text::copy_opt(source);
    }
}

impl MergedAppConfig {
    /// Fills in what follows from the fields that are set. A field that is set stays as it is.
    pub fn complete_device_profile(&mut self)
        ensures
            final(self)@ == old(self)@.completed(),
    {
        let ghost start = self@;
        let parsed = match &self.fingerprint {
            Some(f) => FingerprintParts::parse(f),
            None => None,
        };
        let own_incremental = has_profile_value(&self.incremental);
        match &parsed {
            Some(parts) => {
                fill_profile_default(&mut self.brand, parts.brand.clone());
                copy_default(&mut self.product, &self.name);
                fill_profile_default(&mut self.product, parts.product.clone());
                fill_profile_default(&mut self.device, parts.device.clone());
                fill_profile_default(&mut self.android_version, parts.release.clone());
                fill_profile_default(&mut self.build_id, parts.build_id.clone());
                fill_profile_default(&mut self.incremental, parts.incremental.clone());
            },
            None => {},
        }
        assert(self@ =~= start.with_fingerprint());
        let ghost second = self@;
        copy_default(&mut self.product, &self.name);
        copy_default(&mut self.name, &self.product);
        copy_default(&mut self.device, &self.product);
        assert(self@ =~= second.with_product_code());
        match parsed {
            Some(parts) => {
                let mut props = match &self.custom_props {
                    Some(props) => props.clone(),
                    None => PropertyMap::new(),
                };
                assert(start.custom_props is None ==> props.pairs() =~= Seq::<
                    (Seq<char>, Seq<char>),
                >::empty());
                if !own_incremental {
                    props.set_absent("ro.build.version.incremental", &parts.incremental);
                }
                props.set_absent("ro.build.type", &parts.build_type);
                props.set_absent("ro.build.tags", &parts.tags);
                self.custom_props = Some(props);
            },
            None => {},
        }
        assert(self@ =~= start.completed());
    }
}

// ---------------------------------------------------------------------------
// What completing a profile keeps
// ---------------------------------------------------------------------------

/// A field that is set is never replaced, neither by the fingerprint nor by another field.
pub proof fn law_set_fields_are_kept(p: Profile)
    ensures
        has_value(p.brand) ==> p.completed().brand == p.brand,
        has_value(p.product) ==> p.completed().product == p.product,
        has_value(p.name) ==> p.completed().name == p.name,
        has_value(p.device) ==> p.completed().device == p.device,
        has_value(p.android_version) ==> p.completed().android_version == p.android_version,
        has_value(p.build_id) ==> p.completed().build_id == p.build_id,
        has_value(p.incremental) ==> p.completed().incremental == p.incremental,
        (Profile {
            brand: p.brand,
            product: p.product,
            name: p.name,
            device: p.device,
            android_version: p.android_version,
            build_id: p.build_id,
            incremental: p.incremental,
            custom_props: p.custom_props,
            ..p.completed()
        }) == p,
{
}

/// Product and name agree on whether there is a product code, and are the same code unless
/// each was set on its own. A code that one of them gives wins over that of the fingerprint.
pub proof fn law_product_and_name_agree(p: Profile)
    ensures
        has_value(p.completed().product) == has_value(p.completed().name),
        has_value(p.completed().product) ==> has_value(p.completed().device),
        !(has_value(p.product) && has_value(p.name)) && has_value(p.completed().product)
            ==> p.completed().product == p.completed().name,
{
}

/// Completing a profile a second time changes nothing.
pub proof fn law_completing_is_idempotent(p: Profile)
    ensures
        p.completed().completed() == p.completed(),
{
    let once = p.completed();
    if let Some(f) = p.parsed_fingerprint() {
        let props = match p.custom_props {
            Some(props) => props,
            None => Seq::empty(),
        };
        let incremented = if has_value(p.incremental) {
            props
        } else {
            put_absent(props, "ro.build.version.incremental"@, f.incremental)
        };
        let typed = put_absent(incremented, "ro.build.type"@, f.build_type);
        lemma_put_absent_keeps(incremented, "ro.build.type"@, f.build_type, "ro.build.type"@);
        lemma_put_absent_keeps(typed, "ro.build.tags"@, f.tags, "ro.build.type"@);
        lemma_put_absent_keeps(typed, "ro.build.tags"@, f.tags, "ro.build.tags"@);
        assert(f.wf()) by {
            let s = p.fingerprint->0;
            let g = choose|g: Fingerprint| #[trigger] g.wf() && g.text() == s;
            assert(g.wf());
        }
        assert(has_value(once.incremental));
        assert(once.custom_with_fingerprint() == once.custom_props);
    }
    assert(once.completed() =~= once);
}

/// A custom property that is set keeps its value when the profile is completed.
pub proof fn law_custom_properties_are_kept(p: Profile, name: Seq<char>)
    requires
        p.custom_props is Some,
        crate::string_map::distinct_keys(p.custom_props->0),
        crate::string_map::has_key(p.custom_props->0, name),
    ensures
        p.completed().custom_props is Some,
        crate::string_map::lookup(p.completed().custom_props->0, name)
            == crate::string_map::lookup(p.custom_props->0, name),
{
    if let Some(f) = p.parsed_fingerprint() {
        let props = p.custom_props->0;
        let key = "ro.build.version.incremental"@;
        let incremented = if has_value(p.incremental) {
            props
        } else {
            put_absent(props, key, f.incremental)
        };
        let typed = put_absent(incremented, "ro.build.type"@, f.build_type);
        law_put_absent_then_lookup(props, key, f.incremental, name);
        lemma_put_absent_keeps(props, key, f.incremental, name);
        law_put_absent_then_lookup(incremented, "ro.build.type"@, f.build_type, name);
        lemma_put_absent_keeps(incremented, "ro.build.type"@, f.build_type, name);
        law_put_absent_then_lookup(typed, "ro.build.tags"@, f.tags, name);
    }
}

// ---------------------------------------------------------------------------
// What completing a profile adds
// ---------------------------------------------------------------------------

/// A field that is not set or is empty.
pub open spec fn is_blank(value: Option<Seq<char>>) -> bool {
    value is None || value->0.len() == 0
}

/// Where the fingerprint is one, a missing field takes its own part of it: the brand, the device,
/// the release, the build and the increment each their own, and the product code where neither
/// `product` nor `name` gives one. Fields that are there stay.
pub proof fn law_missing_fields_come_from_the_fingerprint(p: Profile, f: Fingerprint)
    requires
        p.fingerprint is Some,
        fingerprint_of(p.fingerprint->0) == Some(f),
    ensures
        p.completed().brand == if is_blank(p.brand) {
            Some(f.brand)
        } else {
            p.brand
        },
        is_blank(p.product) && is_blank(p.name) ==> p.completed().product == Some(f.product)
            && p.completed().name == Some(f.product),
        is_blank(p.product) && !is_blank(p.name) ==> p.completed().product == p.name
            && p.completed().name == p.name,
        !is_blank(p.product) && is_blank(p.name) ==> p.completed().product == p.product
            && p.completed().name == p.product,
        !is_blank(p.product) && !is_blank(p.name) ==> p.completed().product == p.product
            && p.completed().name == p.name,
        p.completed().device == if is_blank(p.device) {
            Some(f.device)
        } else {
            p.device
        },
        p.completed().android_version == if is_blank(p.android_version) {
            Some(f.release)
        } else {
            p.android_version
        },
        p.completed().build_id == if is_blank(p.build_id) {
            Some(f.build_id)
        } else {
            p.build_id
        },
        p.completed().incremental == if is_blank(p.incremental) {
            Some(f.incremental)
        } else {
            p.incremental
        },
        (Profile {
            brand: p.brand,
            product: p.product,
            name: p.name,
            device: p.device,
            android_version: p.android_version,
            build_id: p.build_id,
            incremental: p.incremental,
            custom_props: p.custom_props,
            ..p.completed()
        }) == p,
{
    law_only_fingerprints_are_read(p.fingerprint->0);
}

/// Where there is no fingerprint to read, only the product code is filled in: `product` and
/// `name` take it from each other, and a missing device takes it too.
pub proof fn law_without_fingerprint(p: Profile)
    requires
        p.fingerprint is None || fingerprint_of(p.fingerprint->0) is None,
    ensures
        is_blank(p.product) && !is_blank(p.name) ==> p.completed().product == p.name
            && p.completed().name == p.name,
        !is_blank(p.product) && is_blank(p.name) ==> p.completed().product == p.product
            && p.completed().name == p.product,
        is_blank(p.product) == is_blank(p.name) ==> p.completed().product == p.product
            && p.completed().name == p.name,
        p.completed().device == if !is_blank(p.device) {
            p.device
        } else if !is_blank(p.product) {
            p.product
        } else if !is_blank(p.name) {
            p.name
        } else {
            p.device
        },
        (Profile { product: p.product, name: p.name, device: p.device, ..p.completed() }) == p,
{
}

/// Completing gives the custom properties the type and the tags of the fingerprint's build, and
/// its increment unless the profile sets one, each where there is no custom property of that
/// name. It adds no other.
pub proof fn law_custom_properties_of_the_fingerprint(p: Profile, f: Fingerprint, n: Seq<char>)
    requires
        p.fingerprint is Some,
        fingerprint_of(p.fingerprint->0) == Some(f),
        p.custom_props is Some ==> crate::string_map::distinct_keys(p.custom_props->0),
    ensures
        p.completed().custom_props is Some,
        crate::string_map::lookup(p.completed().custom_props->0, n) == if p.custom_props is Some
            && crate::string_map::has_key(p.custom_props->0, n) {
            crate::string_map::lookup(p.custom_props->0, n)
        } else if n == "ro.build.type"@ {
            Some(f.build_type)
        } else if n == "ro.build.tags"@ {
            Some(f.tags)
        } else if n == "ro.build.version.incremental"@ && is_blank(p.incremental) {
            Some(f.incremental)
        } else {
            None
        },
{
    let key = "ro.build.version.incremental"@;
    let props: Seq<(Seq<char>, Seq<char>)> = match p.custom_props {
        Some(props) => props,
        None => Seq::empty(),
    };
    let incremented = if is_blank(p.incremental) {
        put_absent(props, key, f.incremental)
    } else {
        props
    };
    let typed = put_absent(incremented, "ro.build.type"@, f.build_type);
    reveal_strlit("ro.build.version.incremental");
    reveal_strlit("ro.build.type");
    reveal_strlit("ro.build.tags");
    assert("ro.build.version.incremental"@.len() == 28 && "ro.build.type"@.len() == 13
        && "ro.build.tags"@.len() == 13);
    assert("ro.build.type"@[10] == 'y' && "ro.build.tags"@[10] == 'a');
    law_put_absent_then_lookup(props, key, f.incremental, n);
    lemma_put_absent_keeps(props, key, f.incremental, n);
    law_put_absent_then_lookup(incremented, "ro.build.type"@, f.build_type, n);
    lemma_put_absent_keeps(incremented, "ro.build.type"@, f.build_type, n);
    law_put_absent_then_lookup(typed, "ro.build.tags"@, f.tags, n);
}

/// What the text of a field stands for. The empty text and the mark `__DELETE__` stand for no
/// value, the mark `__EMPTY__` for the empty text, and every other text for itself.
pub proof fn law_marks(v: Seq<char>)
    ensures
        effective(None) is None,
        effective(Some(Seq::<char>::empty())) is None,
        effective(Some("__DELETE__"@)) is None,
        effective(Some("__EMPTY__"@)) == Some(Seq::<char>::empty()),
        v.len() > 0 && v != "__DELETE__"@ && v != "__EMPTY__"@ ==> effective(Some(v)) == Some(v),
        is_delete(Some(v)) <==> v == "__DELETE__"@,
        !is_delete(None),
{
    reveal_strlit("__DELETE__");
    reveal_strlit("__EMPTY__");
    assert("__DELETE__"@.len() == 10 && "__EMPTY__"@.len() == 9);
}

/// A density from 120 to 640 is kept, and any other is dropped.
pub proof fn law_supported_densities(dpi: u32)
    ensures
        120 <= dpi <= 640 ==> kept_dpi(Some(dpi)) == Some(dpi),
        dpi < 120 || 640 < dpi ==> kept_dpi(Some(dpi)) is None,
        kept_dpi(None) is None,
{
}

} // verus!
