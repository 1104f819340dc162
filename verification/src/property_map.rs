//! The system properties that a profile sets, and those that it deletes.

use vstd::prelude::*;

use crate::config::Config;
use crate::number;
use crate::profile::{
    effective, field_value, has_profile_value, has_value, is_delete, marked_delete, text_value,
    MergedAppConfig, Profile,
};
use crate::properties::{
    build_family, build_names, delete_build_family, delete_product_family,
    expand_known_custom_property, known_family, known_family_names, lemma_put_all_add,
    product_family, product_names, put_all, same_value, set_all,
};
use crate::string_map::{lookup, PropertyMap};
use crate::text;

verus! {

// ---------------------------------------------------------------------------
// Names behind the fields
// ---------------------------------------------------------------------------

/// The properties of the market name: its family, and the one that OPPO devices read.
pub open spec fn marketname_names() -> Seq<Seq<char>> {
    product_family("marketname"@).push("ro.vendor.oplus.market.name"@)
}

/// The properties of the product code.
pub open spec fn product_code_names() -> Seq<Seq<char>> {
    product_family("name"@).push("ro.build.product"@)
}

/// The properties of the security patch level: its family, and the copy of the vendor
/// partition under a shorter name.
pub open spec fn security_patch_names() -> Seq<Seq<char>> {
    build_family("version.security_patch"@).push("ro.vendor.build.security_patch"@)
}

/// Assigns the value, where there is one, to each name.
pub open spec fn value_pairs(value: Option<Seq<char>>, names: Seq<Seq<char>>) -> Seq<
    (Seq<char>, Seq<char>),
> {
    match value {
        Some(v) => same_value(names, v),
        None => Seq::empty(),
    }
}

/// Assigns what a field stands for to each name.
pub open spec fn field_pairs(field: Option<Seq<char>>, names: Seq<Seq<char>>) -> Seq<
    (Seq<char>, Seq<char>),
> {
    value_pairs(effective(field), names)
}

/// The names, where the field is marked for deletion.
pub open spec fn marked_names(field: Option<Seq<char>>, names: Seq<Seq<char>>) -> Seq<
    Seq<char>,
> {
    if is_delete(field) {
        names
    } else {
        Seq::empty()
    }
}

/// The value that a custom property is set to, by the same marks as a field.
pub open spec fn custom_value(raw: Seq<char>) -> Option<Seq<char>> {
    effective(Some(raw))
}

/// The assignments to the families behind custom properties of known names.
pub open spec fn expanded(props: Seq<(Seq<char>, Seq<char>)>) -> Seq<(Seq<char>, Seq<char>)>
    decreases props.len(),
{
    if props.len() == 0 {
        Seq::empty()
    } else {
        expanded(props.drop_last()) + value_pairs(
            custom_value(props.last().1),
            known_family(props.last().0),
        )
    }
}

/// The assignments to the custom properties themselves.
pub open spec fn exact(props: Seq<(Seq<char>, Seq<char>)>) -> Seq<(Seq<char>, Seq<char>)>
    decreases props.len(),
{
    if props.len() == 0 {
        Seq::empty()
    } else {
        exact(props.drop_last()) + value_pairs(
            custom_value(props.last().1),
            seq![props.last().0],
        )
    }
}

/// Whether the mark on the custom property `key` deletes a member of its family: the property
/// itself, and every other one that no custom property speaks of.
pub open spec fn falls_with(
    props: Seq<(Seq<char>, Seq<char>)>,
    key: Seq<char>,
    name: Seq<char>,
) -> bool {
    name == key || !has_value(lookup(props, name))
}

/// Those of some names that the mark on the custom property `key` deletes, in order.
pub open spec fn falling(
    props: Seq<(Seq<char>, Seq<char>)>,
    key: Seq<char>,
    names: Seq<Seq<char>>,
) -> Seq<Seq<char>>
    decreases names.len(),
{
    if names.len() == 0 {
        Seq::empty()
    } else {
        let before = falling(props, key, names.drop_last());
        if falls_with(props, key, names.last()) {
            before.push(names.last())
        } else {
            before
        }
    }
}

/// What the mark on the custom property `key` deletes: its family where its name is known, and
/// otherwise the property itself.
pub open spec fn deleted_by(props: Seq<(Seq<char>, Seq<char>)>, key: Seq<char>) -> Seq<Seq<char>> {
    if known_family(key).len() == 0 {
        seq![key]
    } else {
        falling(props, key, known_family(key))
    }
}

/// What the marks on some of the custom properties delete.
pub open spec fn marked_in(
    props: Seq<(Seq<char>, Seq<char>)>,
    part: Seq<(Seq<char>, Seq<char>)>,
) -> Seq<Seq<char>>
    decreases part.len(),
{
    if part.len() == 0 {
        Seq::empty()
    } else if part.last().1 == "__DELETE__"@ {
        marked_in(props, part.drop_last()) + deleted_by(props, part.last().0)
    } else {
        marked_in(props, part.drop_last())
    }
}

/// What the marks on custom properties delete. It mirrors how their values spread.
pub open spec fn custom_deletions(props: Seq<(Seq<char>, Seq<char>)>) -> Seq<Seq<char>> {
    marked_in(props, props)
}

impl Profile {
    /// The product code: `product`, else `name`.
    pub open spec fn product_code(self) -> Option<Seq<char>> {
        match effective(self.product) {
            Some(v) => Some(v),
            None => effective(self.name),
        }
    }

    /// The field that tells whether the product code is deleted: `name`, else `product`.
    pub open spec fn product_mark(self) -> Option<Seq<char>> {
        if has_value(self.name) {
            self.name
        } else {
            self.product
        }
    }

    /// The SDK level in decimal.
    pub open spec fn sdk_text(self) -> Option<Seq<char>> {
        match self.sdk_int {
            Some(n) => Some(number::decimal(n as nat)),
            None => None,
        }
    }

    /// The custom properties, of which there may be none.
    pub open spec fn custom(self) -> Seq<(Seq<char>, Seq<char>)> {
        match self.custom_props {
            Some(props) => props,
            None => Seq::empty(),
        }
    }

    /// The assignments that name the product.
    pub open spec fn product_assignments(self) -> Seq<(Seq<char>, Seq<char>)> {
        field_pairs(self.manufacturer, product_family("manufacturer"@))
            + field_pairs(self.brand, product_family("brand"@))
            + field_pairs(self.marketname, marketname_names())
            + field_pairs(self.model, product_family("model"@))
            + value_pairs(self.product_code(), product_code_names())
            + field_pairs(self.device, product_family("device"@))
    }

    /// The assignments that name the hardware. None of these properties has copies.
    pub open spec fn hardware_assignments(self) -> Seq<(Seq<char>, Seq<char>)> {
        field_pairs(self.hardware, seq!["ro.hardware"@])
            + field_pairs(self.board, seq!["ro.product.board"@])
            + field_pairs(self.soc_model, seq!["ro.soc.model"@])
    }

    /// The assignments that name the build.
    pub open spec fn build_assignments(self) -> Seq<(Seq<char>, Seq<char>)> {
        field_pairs(self.fingerprint, build_family("fingerprint"@))
            + field_pairs(self.build_id, build_family("id"@))
            + field_pairs(self.display_id, seq!["ro.build.display.id"@])
            + field_pairs(self.incremental, build_family("version.incremental"@))
            + field_pairs(self.security_patch, security_patch_names())
            + field_pairs(self.characteristics, seq!["ro.build.characteristics"@])
            + field_pairs(self.android_version, build_family("version.release"@))
            + value_pairs(self.sdk_text(), build_family("version.sdk"@))
    }

    /// The assignments of the fields, in order.
    pub open spec fn field_assignments(self) -> Seq<(Seq<char>, Seq<char>)> {
        self.product_assignments() + self.hardware_assignments() + self.build_assignments()
    }

    /// All assignments, in order: the fields, then the families behind custom properties,
    /// and last the custom properties themselves.
    pub open spec fn assignments(self) -> Seq<(Seq<char>, Seq<char>)> {
        self.field_assignments() + expanded(self.custom()) + exact(self.custom())
    }

    /// The properties that the profile sets.
    pub open spec fn property_map(self) -> Seq<(Seq<char>, Seq<char>)> {
        put_all(Seq::empty(), self.assignments())
    }

    /// The properties that the fields marked for deletion stand for.
    pub open spec fn field_deletions(self) -> Seq<Seq<char>> {
        marked_names(self.brand, product_family("brand"@))
            + marked_names(self.manufacturer, product_family("manufacturer"@))
            + marked_names(self.model, product_family("model"@))
            + marked_names(self.product_mark(), product_code_names())
            + marked_names(self.device, product_family("device"@))
            + marked_names(self.marketname, marketname_names())
            + marked_names(self.fingerprint, build_family("fingerprint"@))
            + marked_names(self.build_id, build_family("id"@))
            + marked_names(self.display_id, seq!["ro.build.display.id"@])
            + marked_names(self.incremental, build_family("version.incremental"@))
            + marked_names(self.security_patch, security_patch_names())
            + marked_names(self.characteristics, seq!["ro.build.characteristics"@])
            + marked_names(self.hardware, seq!["ro.hardware"@])
            + marked_names(self.board, seq!["ro.product.board"@])
            + marked_names(self.soc_model, seq!["ro.soc.model"@])
            + marked_names(self.android_version, build_family("version.release"@))
    }

    /// The properties that the profile deletes.
    pub open spec fn deletions(self) -> Seq<Seq<char>> {
        self.field_deletions() + custom_deletions(self.custom())
    }
}

// ---------------------------------------------------------------------------
// Carrying the assignments out
// ---------------------------------------------------------------------------

fn one_name(name: &str) -> (out: Vec<String>)
    ensures
        text::views(out@) == seq![name@],
{
    let mut out: Vec<String> = Vec::new();
    out.push(name.to_string());
    assert(text::views(out@) =~= seq![name@]);
    out
}

fn push_name(names: &mut Vec<String>, name: &str)
    ensures
        text::views(final(names)@) == text::views(old(names)@).push(name@),
{
    let ghost before = names@;
    let name = name.to_string();
    let ghost n = name;
    names.push(name);
    assert(text::views(before.push(n)) =~= text::views(before).push(n@));
}

fn marketname_list() -> (out: Vec<String>)
    ensures
        text::views(out@) == marketname_names(),
{
    let mut out = product_names("marketname");
    push_name(&mut out, "ro.vendor.oplus.market.name");
    out
}

fn product_code_list() -> (out: Vec<String>)
    ensures
        text::views(out@) == product_code_names(),
{
    let mut out = product_names("name");
    push_name(&mut out, "ro.build.product");
    out
}

fn security_patch_list() -> (out: Vec<String>)
    ensures
        text::views(out@) == security_patch_names(),
{
    let mut out = build_names("version.security_patch");
    push_name(&mut out, "ro.vendor.build.security_patch");
    out
}

/// The product code of a profile.
fn product_code(merged: &MergedAppConfig) -> (out: Option<String>)
    ensures
        text::opt_view(out) == merged@.product_code(),
{
    match field_value(&merged.product) {
        Some(product) => Some(product),
        None => field_value(&merged.name),
    }
}

/// The SDK level of a profile in decimal.
fn sdk_text(merged: &MergedAppConfig) -> (out: Option<String>)
    ensures
        text::opt_view(out) == merged@.sdk_text(),
{
    match merged.sdk_int {
        Some(n) => Some(number::decimal_text(n)),
        None => None,
    }
}

/// Gives a value, where there is one, to each name.
fn set_field(map: &mut PropertyMap, value: &Option<String>, names: &Vec<String>)
    ensures
        final(map).pairs() == put_all(
            old(map).pairs(),
            value_pairs(text::opt_view(*value), text::views(names@)),
        ),
{
    if let Some(v) = value {
        set_all(map, names, v);
    }
}

/// Sets what names the product.
fn set_product_fields(map: &mut PropertyMap, merged: &MergedAppConfig)
    ensures
        final(map).pairs() == put_all(old(map).pairs(), merged@.product_assignments()),
{
    let ghost p = merged@;
    let ghost start = map.pairs();
    let ghost mut done: Seq<(Seq<char>, Seq<char>)> = Seq::empty();
    let names = product_names("manufacturer");
    set_field(map, &field_value(&merged.manufacturer), &names);
    proof {
        let step = field_pairs(p.manufacturer, product_family("manufacturer"@));
        lemma_put_all_add(start, done, step);
        done = done + step;
    }
    let names = product_names("brand");
    set_field(map, &field_value(&merged.brand), &names);
    proof {
        let step = field_pairs(p.brand, product_family("brand"@));
        lemma_put_all_add(start, done, step);
        done = done + step;
    }
    let names = marketname_list();
    set_field(map, &field_value(&merged.marketname), &names);
    proof {
        let step = field_pairs(p.marketname, marketname_names());
        lemma_put_all_add(start, done, step);
        done = done + step;
    }
    let names = product_names("model");
    set_field(map, &field_value(&merged.model), &names);
    proof {
        let step = field_pairs(p.model, product_family("model"@));
        lemma_put_all_add(start, done, step);
        done = done + step;
    }
    let names = product_code_list();
    set_field(map, &product_code(merged), &names);
    proof {
        let step = value_pairs(p.product_code(), product_code_names());
        lemma_put_all_add(start, done, step);
        done = done + step;
    }
    let names = product_names("device");
    set_field(map, &field_value(&merged.device), &names);
    proof {
        let step = field_pairs(p.device, product_family("device"@));
        lemma_put_all_add(start, done, step);
        done = done + step;
    }
    assert(done =~= p.product_assignments());
}

/// Sets what names the hardware.
fn set_hardware_fields(map: &mut PropertyMap, merged: &MergedAppConfig)
    ensures
        final(map).pairs() == put_all(old(map).pairs(), merged@.hardware_assignments()),
{
    let ghost p = merged@;
    let ghost start = map.pairs();
    let ghost mut done: Seq<(Seq<char>, Seq<char>)> = Seq::empty();
    let names = one_name("ro.hardware");
    set_field(map, &field_value(&merged.hardware), &names);
    proof {
        let step = field_pairs(p.hardware, seq!["ro.hardware"@]);
        lemma_put_all_add(start, done, step);
        done = done + step;
    }
    let names = one_name("ro.product.board");
    set_field(map, &field_value(&merged.board), &names);
    proof {
        let step = field_pairs(p.board, seq!["ro.product.board"@]);
        lemma_put_all_add(start, done, step);
        done = done + step;
    }
    let names = one_name("ro.soc.model");
    set_field(map, &field_value(&merged.soc_model), &names);
    proof {
        let step = field_pairs(p.soc_model, seq!["ro.soc.model"@]);
        lemma_put_all_add(start, done, step);
        done = done + step;
    }
    assert(done =~= p.hardware_assignments());
}

/// Sets what names the build.
fn set_build_fields(map: &mut PropertyMap, merged: &MergedAppConfig)
    ensures
        final(map).pairs() == put_all(old(map).pairs(), merged@.build_assignments()),
{
    let ghost p = merged@;
    let ghost start = map.pairs();
    let ghost mut done: Seq<(Seq<char>, Seq<char>)> = Seq::empty();
    let names = build_names("fingerprint");
    set_field(map, &field_value(&merged.fingerprint), &names);
    proof {
        let step = field_pairs(p.fingerprint, build_family("fingerprint"@));
        lemma_put_all_add(start, done, step);
        done = done + step;
    }
    let names = build_names("id");
    set_field(map, &field_value(&merged.build_id), &names);
    proof {
        let step = field_pairs(p.build_id, build_family("id"@));
        lemma_put_all_add(start, done, step);
        done = done + step;
    }
    let names = one_name("ro.build.display.id");
    set_field(map, &field_value(&merged.display_id), &names);
    proof {
        let step = field_pairs(p.display_id, seq!["ro.build.display.id"@]);
        lemma_put_all_add(start, done, step);
        done = done + step;
    }
    let names = build_names("version.incremental");
    set_field(map, &field_value(&merged.incremental), &names);
    proof {
        let step = field_pairs(p.incremental, build_family("version.incremental"@));
        lemma_put_all_add(start, done, step);
        done = done + step;
    }
    let names = security_patch_list();
    set_field(map, &field_value(&merged.security_patch), &names);
    proof {
        let step = field_pairs(p.security_patch, security_patch_names());
        lemma_put_all_add(start, done, step);
        done = done + step;
    }
    let names = one_name("ro.build.characteristics");
    set_field(map, &field_value(&merged.characteristics), &names);
    proof {
        let step = field_pairs(p.characteristics, seq!["ro.build.characteristics"@]);
        lemma_put_all_add(start, done, step);
        done = done + step;
    }
    let names = build_names("version.release");
    set_field(map, &field_value(&merged.android_version), &names);
    proof {
        let step = field_pairs(p.android_version, build_family("version.release"@));
        lemma_put_all_add(start, done, step);
        done = done + step;
    }
    let names = build_names("version.sdk");
    set_field(map, &sdk_text(merged), &names);
    proof {
        let step = value_pairs(p.sdk_text(), build_family("version.sdk"@));
        lemma_put_all_add(start, done, step);
        done = done + step;
    }
    assert(done =~= p.build_assignments());
}

/// Sets the families behind custom properties of known names.
fn set_expanded(map: &mut PropertyMap, props: &PropertyMap)
    ensures
        final(map).pairs() == put_all(old(map).pairs(), expanded(props.pairs())),
{
    let ghost start = map.pairs();
    let ghost pairs = props.pairs();
    let n = props.len();
    let mut i: usize = 0;
    assert(pairs.take(0) =~= Seq::<(Seq<char>, Seq<char>)>::empty());
    while i < n
        invariant
            i <= n,
            n == pairs.len(),
            pairs == props.pairs(),
            map.pairs() == put_all(start, expanded(pairs.take(i as int))),
        decreases n - i,
    {
        let ghost before = expanded(pairs.take(i as int));
        let key = props.key_at(i);
        let raw = props.value_at(i);
        proof {
            assert(pairs[i as int] == (key@, raw@));
            assert(pairs.take(i + 1).drop_last() =~= pairs.take(i as int));
            assert(pairs.take(i + 1).last() == pairs[i as int]);
        }
        if let Some(value) = text_value(raw) {
            expand_known_custom_property(map, key, &value);
            proof {
                lemma_put_all_add(start, before, same_value(known_family(key@), value@));
            }
        } else {
            assert(before + Seq::<(Seq<char>, Seq<char>)>::empty() =~= before);
        }
        i = i + 1;
    }
    assert(pairs.take(i as int) =~= pairs);
}

/// Sets the custom properties themselves.
fn set_exact(map: &mut PropertyMap, props: &PropertyMap)
    ensures
        final(map).pairs() == put_all(old(map).pairs(), exact(props.pairs())),
{
    let ghost start = map.pairs();
    let ghost pairs = props.pairs();
    let n = props.len();
    let mut i: usize = 0;
    assert(pairs.take(0) =~= Seq::<(Seq<char>, Seq<char>)>::empty());
    while i < n
        invariant
            i <= n,
            n == pairs.len(),
            pairs == props.pairs(),
            map.pairs() == put_all(start, exact(pairs.take(i as int))),
        decreases n - i,
    {
        let ghost before = exact(pairs.take(i as int));
        let key = props.key_at(i);
        let raw = props.value_at(i);
        proof {
            assert(pairs[i as int] == (key@, raw@));
            assert(pairs.take(i + 1).drop_last() =~= pairs.take(i as int));
            assert(pairs.take(i + 1).last() == pairs[i as int]);
        }
        if let Some(value) = text_value(raw) {
            map.set(key, &value);
            proof {
                let step = same_value(seq![key@], value@);
                assert(step =~= seq![(key@, value@)]);
                assert((before + step).drop_last() =~= before);
                assert((before + step).last() == (key@, value@));
            }
        } else {
            assert(before + Seq::<(Seq<char>, Seq<char>)>::empty() =~= before);
        }
        i = i + 1;
    }
    assert(pairs.take(i as int) =~= pairs);
}

/// Puts a product family on the list, where the field is marked for deletion.
fn delete_product_field(out: &mut Vec<String>, field: &Option<String>, suffix: &str)
    ensures
        text::views(final(out)@) == text::views(old(out)@) + marked_names(
            text::opt_view(*field),
            product_family(suffix@),
        ),
{
    let ghost before = text::views(out@);
    if marked_delete(field) {
        delete_product_family(out, suffix);
    } else {
        assert(before + Seq::<Seq<char>>::empty() =~= before);
    }
}

/// Puts a product family and one more name on the list, where the field is marked for deletion.
fn delete_product_field_and(
    out: &mut Vec<String>,
    field: &Option<String>,
    suffix: &str,
    extra: &str,
)
    ensures
        text::views(final(out)@) == text::views(old(out)@) + marked_names(
            text::opt_view(*field),
            product_family(suffix@).push(extra@),
        ),
{
    let ghost before = text::views(out@);
    if marked_delete(field) {
        delete_product_family(out, suffix);
        push_name(out, extra);
        assert((before + product_family(suffix@)).push(extra@) =~= before + product_family(
            suffix@,
        ).push(extra@));
    } else {
        assert(before + Seq::<Seq<char>>::empty() =~= before);
    }
}

/// Puts a build family on the list, where the field is marked for deletion.
fn delete_build_field(out: &mut Vec<String>, field: &Option<String>, suffix: &str)
    ensures
        text::views(final(out)@) == text::views(old(out)@) + marked_names(
            text::opt_view(*field),
            build_family(suffix@),
        ),
{
    let ghost before = text::views(out@);
    if marked_delete(field) {
        delete_build_family(out, suffix);
    } else {
        assert(before + Seq::<Seq<char>>::empty() =~= before);
    }
}

/// Puts a build family and one more name on the list, where the field is marked for deletion.
fn delete_build_field_and(
    out: &mut Vec<String>,
    field: &Option<String>,
    suffix: &str,
    extra: &str,
)
    ensures
        text::views(final(out)@) == text::views(old(out)@) + marked_names(
            text::opt_view(*field),
            build_family(suffix@).push(extra@),
        ),
{
    let ghost before = text::views(out@);
    if marked_delete(field) {
        delete_build_family(out, suffix);
        push_name(out, extra);
        assert((before + build_family(suffix@)).push(extra@) =~= before + build_family(
            suffix@,
        ).push(extra@));
    } else {
        assert(before + Seq::<Seq<char>>::empty() =~= before);
    }
}

/// Puts a name on the list, where the field is marked for deletion.
fn delete_named(out: &mut Vec<String>, field: &Option<String>, name: &str)
    ensures
        text::views(final(out)@) == text::views(old(out)@) + marked_names(
            text::opt_view(*field),
            seq![name@],
        ),
{
    let ghost before = text::views(out@);
    if marked_delete(field) {
        push_name(out, name);
        assert(before.push(name@) =~= before + seq![name@]);
    } else {
        assert(before + Seq::<Seq<char>>::empty() =~= before);
    }
}

/// Puts what the mark on a custom property deletes on the list.
fn delete_marked(out: &mut Vec<String>, props: &PropertyMap, key: &str)
    ensures
        text::views(final(out)@) == text::views(old(out)@) + deleted_by(props.pairs(), key@),
{
    let ghost start = text::views(out@);
    let ghost pairs = props.pairs();
    let names = known_family_names(key);
    let ghost family = text::views(names@);
    if names.len() == 0 {
        push_name(out, key);
        assert(start.push(key@) =~= start + seq![key@]);
        return;
    }
    let mut i: usize = 0;
    assert(start + falling(pairs, key@, family.take(0)) =~= start);
    while i < names.len()
        invariant
            i <= names@.len(),
            family == text::views(names@),
            pairs == props.pairs(),
            text::views(out@) == start + falling(pairs, key@, family.take(i as int)),
        decreases names@.len() - i,
    {
        let ghost before = falling(pairs, key@, family.take(i as int));
        let name = names[i].as_str();
        proof {
            assert(family.take(i + 1).drop_last() =~= family.take(i as int));
            assert(family.take(i + 1).last() == name@);
        }
        let spoken_of = match props.value_of(name) {
            Some(raw) => !raw.as_str().is_empty(),
            None => false,
        };
        if text::same(name, key) || !spoken_of {
            push_name(out, name);
            assert((start + before).push(name@) =~= start + before.push(name@));
        }
        i = i + 1;
    }
    assert(family.take(i as int) =~= family);
}

/// Puts what the marks on custom properties delete on the list.
fn delete_custom(out: &mut Vec<String>, props: &PropertyMap)
    ensures
        text::views(final(out)@) == text::views(old(out)@) + custom_deletions(props.pairs()),
{
    let ghost start = text::views(out@);
    let ghost pairs = props.pairs();
    let n = props.len();
    let mut i: usize = 0;
    assert(pairs.take(0) =~= Seq::<(Seq<char>, Seq<char>)>::empty());
    assert(start + Seq::<Seq<char>>::empty() =~= start);
    while i < n
        invariant
            i <= n,
            n == pairs.len(),
            pairs == props.pairs(),
            text::views(out@) == start + marked_in(pairs, pairs.take(i as int)),
        decreases n - i,
    {
        let ghost before = marked_in(pairs, pairs.take(i as int));
        let key = props.key_at(i);
        let raw = props.value_at(i);
        proof {
            assert(pairs[i as int] == (key@, raw@));
            assert(pairs.take(i + 1).drop_last() =~= pairs.take(i as int));
            assert(pairs.take(i + 1).last() == pairs[i as int]);
        }
        if text::same(raw, "__DELETE__") {
            delete_marked(out, props, key);
            assert((start + before) + deleted_by(pairs, key@) =~= start + (before + deleted_by(
                pairs,
                key@,
            )));
        }
        i = i + 1;
    }
    assert(pairs.take(i as int) =~= pairs);
}

/// The field that tells whether the product code is deleted.
fn product_mark(merged: &MergedAppConfig) -> (out: &Option<String>)
    ensures
        text::opt_view(*out) == merged@.product_mark(),
{
    if has_profile_value(&merged.name) {
        &merged.name
    } else {
        &merged.product
    }
}

impl Config {
    /// The system properties that a profile sets.
    pub fn build_merged_property_map(merged: &MergedAppConfig) -> (out: PropertyMap)
        ensures
            out.pairs() == merged@.property_map(),
    {
        let ghost p = merged@;
        let ghost none: Seq<(Seq<char>, Seq<char>)> = Seq::empty();
        let mut map = PropertyMap::new();
        assert(map.pairs() =~= none);
        set_product_fields(&mut map, merged);
        set_hardware_fields(&mut map, merged);
        set_build_fields(&mut map, merged);
        proof {
            lemma_put_all_add(none, p.product_assignments(), p.hardware_assignments());
            lemma_put_all_add(
                none,
                p.product_assignments() + p.hardware_assignments(),
                p.build_assignments(),
            );
        }
        if let Some(props) = &merged.custom_props {
            set_expanded(&mut map, props);
            set_exact(&mut map, props);
        } else {
            assert(put_all(p.field_assignments(), none) == p.field_assignments());
        }
        proof {
            lemma_put_all_add(none, p.field_assignments(), expanded(p.custom()));
            lemma_put_all_add(
                none,
                p.field_assignments() + expanded(p.custom()),
                exact(p.custom()),
            );
        }
        map
    }

    /// The system properties that a profile deletes: for each field marked for deletion all
    /// the properties it stands for, and for each custom property marked for deletion its family,
    /// the members excepted that other custom properties speak of.
    pub fn build_delete_props_list(merged: &MergedAppConfig) -> (out: Vec<String>)
        ensures
            text::views(out@) == merged@.deletions(),
    {
        let ghost p = merged@;
        let ghost mut done: Seq<Seq<char>> = Seq::empty();
        let mut out: Vec<String> = Vec::new();
        assert(text::views(out@) =~= done);
        delete_product_field(&mut out, &merged.brand, "brand");
        proof {
            done = done + marked_names(p.brand, product_family("brand"@));
        }
        delete_product_field(&mut out, &merged.manufacturer, "manufacturer");
        proof {
            done = done + marked_names(p.manufacturer, product_family("manufacturer"@));
        }
        delete_product_field(&mut out, &merged.model, "model");
        proof {
            done = done + marked_names(p.model, product_family("model"@));
        }
        delete_product_field_and(&mut out, product_mark(merged), "name", "ro.build.product");
        proof {
            done = done + marked_names(p.product_mark(), product_code_names());
        }
        delete_product_field(&mut out, &merged.device, "device");
        proof {
            done = done + marked_names(p.device, product_family("device"@));
        }
        delete_product_field_and(&mut out, &merged.marketname, "marketname", "ro.vendor.oplus.market.name");
        proof {
            done = done + marked_names(p.marketname, marketname_names());
        }
        delete_build_field(&mut out, &merged.fingerprint, "fingerprint");
        proof {
            done = done + marked_names(p.fingerprint, build_family("fingerprint"@));
        }
        delete_build_field(&mut out, &merged.build_id, "id");
        proof {
            done = done + marked_names(p.build_id, build_family("id"@));
        }
        delete_named(&mut out, &merged.display_id, "ro.build.display.id");
        proof {
            done = done + marked_names(p.display_id, seq!["ro.build.display.id"@]);
        }
        delete_build_field(&mut out, &merged.incremental, "version.incremental");
        proof {
            done = done + marked_names(p.incremental, build_family("version.incremental"@));
        }
        delete_build_field_and(&mut out, &merged.security_patch, "version.security_patch", "ro.vendor.build.security_patch");
        proof {
            done = done + marked_names(p.security_patch, security_patch_names());
        }
        delete_named(&mut out, &merged.characteristics, "ro.build.characteristics");
        proof {
            done = done + marked_names(p.characteristics, seq!["ro.build.characteristics"@]);
        }
        delete_named(&mut out, &merged.hardware, "ro.hardware");
        proof {
            done = done + marked_names(p.hardware, seq!["ro.hardware"@]);
        }
        delete_named(&mut out, &merged.board, "ro.product.board");
        proof {
            done = done + marked_names(p.board, seq!["ro.product.board"@]);
        }
        delete_named(&mut out, &merged.soc_model, "ro.soc.model");
        proof {
            done = done + marked_names(p.soc_model, seq!["ro.soc.model"@]);
        }
        delete_build_field(&mut out, &merged.android_version, "version.release");
        proof {
            done = done + marked_names(p.android_version, build_family("version.release"@));
        }
        assert(done =~= p.field_deletions());
        if let Some(props) = &merged.custom_props {
            delete_custom(&mut out, props);
        } else {
            assert(done + Seq::<Seq<char>>::empty() =~= done);
        }
        out
    }
}

} // verus!
