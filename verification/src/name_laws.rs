//! What the fields and the custom properties of a profile do to each property, the properties by
//! their full names.

use vstd::prelude::*;

use crate::number;
use crate::profile::{effective, is_delete, Profile};
use crate::properties::{
    build_family, build_partitions, known_family, last_value, lemma_last_value_add,
    lemma_last_value_same, product_family, product_partitions,
};
use crate::property_laws::{
    deletes, law_custom_property_wins, law_field_properties_agree,
    law_known_custom_property_spreads, law_nothing_else_is_set, law_what_is_deleted,
    untouched_by_custom,
};
use crate::property_map::{custom_value, exact, expanded, value_pairs};
use crate::string_map::{distinct_keys, has_key, lemma_lookup_entry, lookup};

verus! {

/// The property `ro.product.<suffix>` or one of its copies.
pub open spec fn is_product_name(suffix: Seq<char>, n: Seq<char>) -> bool {
    ||| n == "ro.product."@ + suffix
    ||| n == "ro.product.odm."@ + suffix
    ||| n == "ro.product.vendor."@ + suffix
    ||| n == "ro.product.system."@ + suffix
    ||| n == "ro.product.system_ext."@ + suffix
    ||| n == "ro.product.product."@ + suffix
    ||| n == "ro.product.bootimage."@ + suffix
}

/// The property `ro.build.<suffix>` or one of its copies.
pub open spec fn is_build_name(suffix: Seq<char>, n: Seq<char>) -> bool {
    ||| n == "ro.build."@ + suffix
    ||| n == "ro.system.build."@ + suffix
    ||| n == "ro.system_ext.build."@ + suffix
    ||| n == "ro.product.build."@ + suffix
    ||| n == "ro.vendor.build."@ + suffix
    ||| n == "ro.odm.build."@ + suffix
    ||| n == "ro.bootimage.build."@ + suffix
    ||| n == "ro.system_dlkm.build."@ + suffix
    ||| n == "ro.vendor_dlkm.build."@ + suffix
    ||| n == "ro.odm_dlkm.build."@ + suffix
}

/// A custom property of the first name is also one of the second: the thirteen names that stand
/// for a whole family.
pub open spec fn spreads_to(key: Seq<char>, n: Seq<char>) -> bool {
    ||| key == "ro.product.manufacturer"@ && is_product_name("manufacturer"@, n)
    ||| key == "ro.product.brand"@ && is_product_name("brand"@, n)
    ||| key == "ro.product.model"@ && is_product_name("model"@, n)
    ||| key == "ro.product.name"@ && is_product_name("name"@, n)
    ||| key == "ro.product.device"@ && is_product_name("device"@, n)
    ||| key == "ro.product.marketname"@ && is_product_name("marketname"@, n)
    ||| key == "ro.build.fingerprint"@ && is_build_name("fingerprint"@, n)
    ||| key == "ro.build.id"@ && is_build_name("id"@, n)
    ||| key == "ro.build.version.release"@ && is_build_name("version.release"@, n)
    ||| key == "ro.build.version.sdk"@ && is_build_name("version.sdk"@, n)
    ||| key == "ro.build.version.incremental"@ && is_build_name("version.incremental"@, n)
    ||| key == "ro.build.type"@ && is_build_name("type"@, n)
    ||| key == "ro.build.tags"@ && is_build_name("tags"@, n)
}

/// The family of a product property has these seven members.
pub proof fn law_product_family_names(suffix: Seq<char>, n: Seq<char>)
    ensures
        product_family(suffix).contains(n) <==> is_product_name(suffix, n),
{
    reveal_strlit("ro.product.");
    reveal_strlit(".");
    reveal_strlit("odm");
    reveal_strlit("ro.product.odm.");
    reveal_strlit("vendor");
    reveal_strlit("ro.product.vendor.");
    reveal_strlit("system");
    reveal_strlit("ro.product.system.");
    reveal_strlit("system_ext");
    reveal_strlit("ro.product.system_ext.");
    reveal_strlit("product");
    reveal_strlit("ro.product.product.");
    reveal_strlit("bootimage");
    reveal_strlit("ro.product.bootimage.");
    let family = product_family(suffix);
    let ps = product_partitions();
    assert(family[0] == "ro.product."@ + suffix);
    assert(ps[0] == "odm"@);
    assert(family[1] =~= "ro.product.odm."@ + suffix);
    assert(ps[1] == "vendor"@);
    assert(family[2] =~= "ro.product.vendor."@ + suffix);
    assert(ps[2] == "system"@);
    assert(family[3] =~= "ro.product.system."@ + suffix);
    assert(ps[3] == "system_ext"@);
    assert(family[4] =~= "ro.product.system_ext."@ + suffix);
    assert(ps[4] == "product"@);
    assert(family[5] =~= "ro.product.product."@ + suffix);
    assert(ps[5] == "bootimage"@);
    assert(family[6] =~= "ro.product.bootimage."@ + suffix);
    if family.contains(n) {
        let i = choose|i: int| 0 <= i < family.len() && family[i] == n;
        assert(i == 0 || i == 1 || i == 2 || i == 3 || i == 4 || i == 5 || i == 6);
    }
}

/// The family of a build property has these ten members.
pub proof fn law_build_family_names(suffix: Seq<char>, n: Seq<char>)
    ensures
        build_family(suffix).contains(n) <==> is_build_name(suffix, n),
{
    reveal_strlit("ro.build.");
    reveal_strlit("ro.");
    reveal_strlit(".build.");
    reveal_strlit("system");
    reveal_strlit("ro.system.build.");
    reveal_strlit("system_ext");
    reveal_strlit("ro.system_ext.build.");
    reveal_strlit("product");
    reveal_strlit("ro.product.build.");
    reveal_strlit("vendor");
    reveal_strlit("ro.vendor.build.");
    reveal_strlit("odm");
    reveal_strlit("ro.odm.build.");
    reveal_strlit("bootimage");
    reveal_strlit("ro.bootimage.build.");
    reveal_strlit("system_dlkm");
    reveal_strlit("ro.system_dlkm.build.");
    reveal_strlit("vendor_dlkm");
    reveal_strlit("ro.vendor_dlkm.build.");
    reveal_strlit("odm_dlkm");
    reveal_strlit("ro.odm_dlkm.build.");
    let family = build_family(suffix);
    let ps = build_partitions();
    assert(family[0] == "ro.build."@ + suffix);
    assert(ps[0] == "system"@);
    assert(family[1] =~= "ro.system.build."@ + suffix);
    assert(ps[1] == "system_ext"@);
    assert(family[2] =~= "ro.system_ext.build."@ + suffix);
    assert(ps[2] == "product"@);
    assert(family[3] =~= "ro.product.build."@ + suffix);
    assert(ps[3] == "vendor"@);
    assert(family[4] =~= "ro.vendor.build."@ + suffix);
    assert(ps[4] == "odm"@);
    assert(family[5] =~= "ro.odm.build."@ + suffix);
    assert(ps[5] == "bootimage"@);
    assert(family[6] =~= "ro.bootimage.build."@ + suffix);
    assert(ps[6] == "system_dlkm"@);
    assert(family[7] =~= "ro.system_dlkm.build."@ + suffix);
    assert(ps[7] == "vendor_dlkm"@);
    assert(family[8] =~= "ro.vendor_dlkm.build."@ + suffix);
    assert(ps[8] == "odm_dlkm"@);
    assert(family[9] =~= "ro.odm_dlkm.build."@ + suffix);
    if family.contains(n) {
        let i = choose|i: int| 0 <= i < family.len() && family[i] == n;
        assert(i == 0 || i == 1 || i == 2 || i == 3 || i == 4 || i == 5 || i == 6 || i == 7 || i
            == 8 || i == 9);
    }
}

/// The custom properties that stand for a whole family are the thirteen of [`spreads_to`].
pub proof fn law_known_names(key: Seq<char>, n: Seq<char>)
    ensures
        known_family(key).contains(n) <==> spreads_to(key, n),
{
    law_product_family_names("manufacturer"@, n);
    law_product_family_names("brand"@, n);
    law_product_family_names("model"@, n);
    law_product_family_names("name"@, n);
    law_product_family_names("device"@, n);
    law_product_family_names("marketname"@, n);
    law_build_family_names("fingerprint"@, n);
    law_build_family_names("id"@, n);
    law_build_family_names("version.release"@, n);
    law_build_family_names("version.sdk"@, n);
    law_build_family_names("version.incremental"@, n);
    law_build_family_names("type"@, n);
    law_build_family_names("tags"@, n);
    reveal_strlit("ro.product.manufacturer");
    reveal_strlit("ro.product.brand");
    reveal_strlit("ro.product.model");
    reveal_strlit("ro.product.name");
    reveal_strlit("ro.product.device");
    reveal_strlit("ro.product.marketname");
    reveal_strlit("ro.build.fingerprint");
    reveal_strlit("ro.build.id");
    reveal_strlit("ro.build.version.release");
    reveal_strlit("ro.build.version.sdk");
    reveal_strlit("ro.build.version.incremental");
    reveal_strlit("ro.build.type");
    reveal_strlit("ro.build.tags");
    assert("ro.product.manufacturer"@.len() == 23);
    assert("ro.product.brand"@.len() == 16);
    assert("ro.product.model"@.len() == 16);
    assert("ro.product.name"@.len() == 15);
    assert("ro.product.device"@.len() == 17);
    assert("ro.product.marketname"@.len() == 21);
    assert("ro.build.fingerprint"@.len() == 20);
    assert("ro.build.id"@.len() == 11);
    assert("ro.build.version.release"@.len() == 24);
    assert("ro.build.version.sdk"@.len() == 20);
    assert("ro.build.version.incremental"@.len() == 28);
    assert("ro.build.type"@.len() == 13);
    assert("ro.build.tags"@.len() == 13);
    assert("ro.product.brand"@[11] == 'b' && "ro.product.model"@[11] == 'm');
    assert("ro.build.fingerprint"@[9] == 'f' && "ro.build.version.sdk"@[9] == 'v');
    assert("ro.build.type"@[10] == 'y' && "ro.build.tags"@[10] == 'a');
    assert(!Seq::<Seq<char>>::empty().contains(n));
}

/// No custom property that has a value is the property or spreads to it.
pub open spec fn left_alone(props: Seq<(Seq<char>, Seq<char>)>, n: Seq<char>) -> bool {
    forall|i: int|
        0 <= i < props.len() && effective(Some((#[trigger] props[i]).1)) is Some ==> props[i].0 != n
            && !spreads_to(props[i].0, n)
}

proof fn lemma_left_alone(props: Seq<(Seq<char>, Seq<char>)>, n: Seq<char>)
    requires
        left_alone(props, n),
    ensures
        last_value(expanded(props), n) is None,
        last_value(exact(props), n) is None,
    decreases props.len(),
{
    if props.len() > 0 {
        let front = props.drop_last();
        let (k, raw) = props.last();
        assert forall|i: int|
            0 <= i < front.len() && effective(Some((#[trigger] front[i]).1)) is Some implies front[i].0
            != n && !spreads_to(front[i].0, n) by {
            assert(props[i] == front[i]);
        }
        lemma_left_alone(front, n);
        lemma_last_value_add(expanded(front), value_pairs(custom_value(raw), known_family(k)), n);
        lemma_last_value_add(exact(front), value_pairs(custom_value(raw), seq![k]), n);
        assert(props[props.len() - 1] == (k, raw));
        law_known_names(k, n);
        if custom_value(raw) is Some {
            lemma_last_value_same(known_family(k), custom_value(raw)->0, n);
            lemma_last_value_same(seq![k], custom_value(raw)->0, n);
            assert(!seq![k].contains(n));
        }
    }
}

/// Where no custom property interferes, each property has the value of its own field, and has none
/// where the field has none. No field stands for any other property.
pub proof fn law_property_of_each_field(p: Profile, n: Seq<char>)
    requires
        left_alone(p.custom(), n),
    ensures
        is_product_name("manufacturer"@, n)
            ==> lookup(p.property_map(), n) == effective(p.manufacturer),
        is_product_name("brand"@, n) ==> lookup(p.property_map(), n) == effective(p.brand),
        is_product_name("marketname"@, n)
            || n == "ro.vendor.oplus.market.name"@ ==> lookup(p.property_map(), n) == effective(p.marketname),
        is_product_name("model"@, n) ==> lookup(p.property_map(), n) == effective(p.model),
        is_product_name("name"@, n)
            || n == "ro.build.product"@ ==> lookup(p.property_map(), n) == match effective(
            p.product,
        ) {
            Some(v) => Some(v),
            None => effective(p.name),
        },
        is_product_name("device"@, n) ==> lookup(p.property_map(), n) == effective(p.device),
        n == "ro.hardware"@ ==> lookup(p.property_map(), n) == effective(p.hardware),
        n == "ro.product.board"@ ==> lookup(p.property_map(), n) == effective(p.board),
        n == "ro.soc.model"@ ==> lookup(p.property_map(), n) == effective(p.soc_model),
        is_build_name("fingerprint"@, n)
            ==> lookup(p.property_map(), n) == effective(p.fingerprint),
        is_build_name("id"@, n) ==> lookup(p.property_map(), n) == effective(p.build_id),
        n == "ro.build.display.id"@ ==> lookup(p.property_map(), n) == effective(p.display_id),
        is_build_name("version.incremental"@, n)
            ==> lookup(p.property_map(), n) == effective(p.incremental),
        is_build_name("version.security_patch"@, n) || n
            == "ro.vendor.build.security_patch"@
                ==> lookup(p.property_map(), n) == effective(p.security_patch),
        n == "ro.build.characteristics"@
            ==> lookup(p.property_map(), n) == effective(p.characteristics),
        is_build_name("version.release"@, n)
            ==> lookup(p.property_map(), n) == effective(p.android_version),
        is_build_name("version.sdk"@, n) ==> lookup(p.property_map(), n) == match p.sdk_int {
            Some(level) => Some(number::decimal(level as nat)),
            None => None,
        },
        !(
        is_product_name("manufacturer"@, n) || is_product_name("brand"@, n)
            || is_product_name("marketname"@, n) || n == "ro.vendor.oplus.market.name"@
            || is_product_name("model"@, n) || is_product_name("name"@, n)
            || n == "ro.build.product"@ || is_product_name("device"@, n) || n == "ro.hardware"@
            || n == "ro.product.board"@ || n == "ro.soc.model"@
            || is_build_name("fingerprint"@, n) || is_build_name("id"@, n)
            || n == "ro.build.display.id"@ || is_build_name("version.incremental"@, n)
            || is_build_name("version.security_patch"@, n) || n
            == "ro.vendor.build.security_patch"@ || n == "ro.build.characteristics"@
                || is_build_name("version.release"@, n)
                || is_build_name("version.sdk"@, n)) ==> lookup(p.property_map(), n) is None,
{
    lemma_left_alone(p.custom(), n);
    lemma_last_value_add(expanded(p.custom()), exact(p.custom()), n);
    assert(untouched_by_custom(p, n));
    lemma_field_names(p, n);
    if exists|i: int| 0 <= i < p.fields().len() && (#[trigger] p.fields()[i]).1.contains(n) {
        if p.fields()[0].1.contains(n) {
            law_field_properties_agree(p, 0, n);
        }
        if p.fields()[1].1.contains(n) {
            law_field_properties_agree(p, 1, n);
        }
        if p.fields()[2].1.contains(n) {
            law_field_properties_agree(p, 2, n);
        }
        if p.fields()[3].1.contains(n) {
            law_field_properties_agree(p, 3, n);
        }
        if p.fields()[4].1.contains(n) {
            law_field_properties_agree(p, 4, n);
        }
        if p.fields()[5].1.contains(n) {
            law_field_properties_agree(p, 5, n);
        }
        if p.fields()[6].1.contains(n) {
            law_field_properties_agree(p, 6, n);
        }
        if p.fields()[7].1.contains(n) {
            law_field_properties_agree(p, 7, n);
        }
        if p.fields()[8].1.contains(n) {
            law_field_properties_agree(p, 8, n);
        }
        if p.fields()[9].1.contains(n) {
            law_field_properties_agree(p, 9, n);
        }
        if p.fields()[10].1.contains(n) {
            law_field_properties_agree(p, 10, n);
        }
        if p.fields()[11].1.contains(n) {
            law_field_properties_agree(p, 11, n);
        }
        if p.fields()[12].1.contains(n) {
            law_field_properties_agree(p, 12, n);
        }
        if p.fields()[13].1.contains(n) {
            law_field_properties_agree(p, 13, n);
        }
        if p.fields()[14].1.contains(n) {
            law_field_properties_agree(p, 14, n);
        }
        if p.fields()[15].1.contains(n) {
            law_field_properties_agree(p, 15, n);
        }
        if p.fields()[16].1.contains(n) {
            law_field_properties_agree(p, 16, n);
        }
    } else {
        law_nothing_else_is_set(p, n);
    }
}

/// The properties of each field of the table.
proof fn lemma_field_names(p: Profile, n: Seq<char>)
    ensures
        p.fields()[0].1.contains(n) <==> is_product_name("manufacturer"@, n),
        p.fields()[1].1.contains(n) <==> is_product_name("brand"@, n),
        p.fields()[2].1.contains(n) <==> is_product_name("marketname"@, n)
            || n == "ro.vendor.oplus.market.name"@,
        p.fields()[3].1.contains(n) <==> is_product_name("model"@, n),
        p.fields()[4].1.contains(n) <==> is_product_name("name"@, n) || n == "ro.build.product"@,
        p.fields()[5].1.contains(n) <==> is_product_name("device"@, n),
        p.fields()[6].1.contains(n) <==> n == "ro.hardware"@,
        p.fields()[7].1.contains(n) <==> n == "ro.product.board"@,
        p.fields()[8].1.contains(n) <==> n == "ro.soc.model"@,
        p.fields()[9].1.contains(n) <==> is_build_name("fingerprint"@, n),
        p.fields()[10].1.contains(n) <==> is_build_name("id"@, n),
        p.fields()[11].1.contains(n) <==> n == "ro.build.display.id"@,
        p.fields()[12].1.contains(n) <==> is_build_name("version.incremental"@, n),
        p.fields()[13].1.contains(n) <==> is_build_name("version.security_patch"@, n) || n
            == "ro.vendor.build.security_patch"@,
        p.fields()[14].1.contains(n) <==> n == "ro.build.characteristics"@,
        p.fields()[15].1.contains(n) <==> is_build_name("version.release"@, n),
        p.fields()[16].1.contains(n) <==> is_build_name("version.sdk"@, n),
        p.fields().len() == 17,
{
    law_product_family_names("manufacturer"@, n);
    law_product_family_names("brand"@, n);
    law_product_family_names("marketname"@, n);
    law_product_family_names("model"@, n);
    law_product_family_names("name"@, n);
    law_product_family_names("device"@, n);
    assert(seq!["ro.hardware"@][0] == "ro.hardware"@);
    assert(seq!["ro.product.board"@][0] == "ro.product.board"@);
    assert(seq!["ro.soc.model"@][0] == "ro.soc.model"@);
    law_build_family_names("fingerprint"@, n);
    law_build_family_names("id"@, n);
    assert(seq!["ro.build.display.id"@][0] == "ro.build.display.id"@);
    law_build_family_names("version.incremental"@, n);
    law_build_family_names("version.security_patch"@, n);
    assert(seq!["ro.build.characteristics"@][0] == "ro.build.characteristics"@);
    law_build_family_names("version.release"@, n);
    law_build_family_names("version.sdk"@, n);
    lemma_pushed(product_family("marketname"@), "ro.vendor.oplus.market.name"@, n);
    lemma_pushed(product_family("name"@), "ro.build.product"@, n);
    lemma_pushed(build_family("version.security_patch"@), "ro.vendor.build.security_patch"@, n);
}

proof fn lemma_pushed(names: Seq<Seq<char>>, extra: Seq<char>, n: Seq<char>)
    ensures
        names.push(extra).contains(n) <==> names.contains(n) || n == extra,
{
    let all = names.push(extra);
    if all.contains(n) {
        let i = choose|i: int| 0 <= i < all.len() && all[i] == n;
        if i < names.len() {
            assert(names[i] == n);
        }
    }
    if names.contains(n) {
        let i = choose|i: int| 0 <= i < names.len() && names[i] == n;
        assert(all[i] == n);
    }
    assert(all[names.len() as int] == extra);
}

/// A custom property with a value gives it to the property of its name and, where that is one of
/// the thirteen known ones, to each copy that no custom property with a value is about. The mark
/// for the empty text stands for that text.
pub proof fn law_custom_property_reaches(p: Profile, at: int, n: Seq<char>)
    requires
        distinct_keys(p.custom()),
        0 <= at < p.custom().len(),
        p.custom()[at].1.len() > 0,
        p.custom()[at].1 != "__DELETE__"@,
        n == p.custom()[at].0 || spreads_to(p.custom()[at].0, n) && (match lookup(p.custom(), n) {
            Some(own) => own.len() == 0 || own == "__DELETE__"@,
            None => true,
        }),
    ensures
        p.custom()[at].1 != "__EMPTY__"@ ==> lookup(p.property_map(), n) == Some(p.custom()[at].1),
        p.custom()[at].1 == "__EMPTY__"@ ==> lookup(p.property_map(), n) == Some(
            Seq::<char>::empty(),
        ),
{
    let (k, raw) = p.custom()[at];
    lemma_lookup_entry(p.custom(), at);
    law_known_names(k, n);
    if n == k {
        assert(has_key(p.custom(), n));
        law_custom_property_wins(p, n);
    } else {
        law_known_custom_property_spreads(p, at, n);
    }
}

/// A field that is marked for deletion deletes each of its properties, a custom property that is
/// marked deletes the property of its name and each copy that no custom property says anything
/// of, and nothing else is deleted. For the product code the mark is that of `name`, and that of
/// `product` where `name` says nothing.
pub proof fn law_deletion_of_each_field(p: Profile, n: Seq<char>)
    ensures
        p.deletions().contains(n) <==> {
            ||| p.brand == Some("__DELETE__"@) && is_product_name("brand"@, n)
            ||| p.manufacturer == Some("__DELETE__"@) && is_product_name("manufacturer"@, n)
            ||| p.model == Some("__DELETE__"@) && is_product_name("model"@, n)
            ||| (if p.name is Some && p.name->0.len() > 0 {
                p.name
            } else {
                p.product
            }) == Some("__DELETE__"@) && (is_product_name("name"@, n) || n == "ro.build.product"@)
            ||| p.device == Some("__DELETE__"@) && is_product_name("device"@, n)
            ||| p.marketname == Some("__DELETE__"@) && (is_product_name("marketname"@, n)
                || n == "ro.vendor.oplus.market.name"@)
            ||| p.fingerprint == Some("__DELETE__"@) && is_build_name("fingerprint"@, n)
            ||| p.build_id == Some("__DELETE__"@) && is_build_name("id"@, n)
            ||| p.display_id == Some("__DELETE__"@) && n == "ro.build.display.id"@
            ||| p.incremental == Some("__DELETE__"@) && is_build_name("version.incremental"@, n)
            ||| p.security_patch == Some("__DELETE__"@) && (is_build_name("version.security_patch"@, n)
                || n
            == "ro.vendor.build.security_patch"@)
            ||| p.characteristics == Some("__DELETE__"@) && n == "ro.build.characteristics"@
            ||| p.hardware == Some("__DELETE__"@) && n == "ro.hardware"@
            ||| p.board == Some("__DELETE__"@) && n == "ro.product.board"@
            ||| p.soc_model == Some("__DELETE__"@) && n == "ro.soc.model"@
            ||| p.android_version == Some("__DELETE__"@) && is_build_name("version.release"@, n)
            ||| exists|i: int|
                0 <= i < p.custom().len() && (#[trigger] p.custom()[i]).1 == "__DELETE__"@ && (n
                    == p.custom()[i].0 || spreads_to(p.custom()[i].0, n) && (match lookup(
                    p.custom(),
                    n,
                ) {
                    Some(own) => own.len() == 0,
                    None => true,
                }))
        },
{
    law_what_is_deleted(p, n);
    lemma_field_marks(p, n);
    let props = p.custom();
    assert forall|i: int| 0 <= i < props.len() implies deletes(props, #[trigger] props[i], n) == (
    props[i].1 == "__DELETE__"@ && (n == props[i].0 || spreads_to(props[i].0, n) && (match lookup(
        props,
        n,
    ) {
        Some(own) => own.len() == 0,
        None => true,
    }))) by {
        law_known_names(props[i].0, n);
    }
    if exists|i: int| 0 <= i < props.len() && deletes(props, #[trigger] props[i], n) {
        let i = choose|i: int| 0 <= i < props.len() && deletes(props, #[trigger] props[i], n);
        assert(props[i].1 == "__DELETE__"@);
    }
}

/// The marks of the fields.
proof fn lemma_field_marks(p: Profile, n: Seq<char>)
    ensures
        (exists|i: int|
            0 <= i < p.deletable().len() && is_delete((#[trigger] p.deletable()[i]).0)
                && p.deletable()[i].1.contains(n)) <==> {
            ||| p.brand == Some("__DELETE__"@) && is_product_name("brand"@, n)
            ||| p.manufacturer == Some("__DELETE__"@) && is_product_name("manufacturer"@, n)
            ||| p.model == Some("__DELETE__"@) && is_product_name("model"@, n)
            ||| (if p.name is Some && p.name->0.len() > 0 {
                p.name
            } else {
                p.product
            }) == Some("__DELETE__"@) && (is_product_name("name"@, n) || n == "ro.build.product"@)
            ||| p.device == Some("__DELETE__"@) && is_product_name("device"@, n)
            ||| p.marketname == Some("__DELETE__"@) && (is_product_name("marketname"@, n)
                || n == "ro.vendor.oplus.market.name"@)
            ||| p.fingerprint == Some("__DELETE__"@) && is_build_name("fingerprint"@, n)
            ||| p.build_id == Some("__DELETE__"@) && is_build_name("id"@, n)
            ||| p.display_id == Some("__DELETE__"@) && n == "ro.build.display.id"@
            ||| p.incremental == Some("__DELETE__"@) && is_build_name("version.incremental"@, n)
            ||| p.security_patch == Some("__DELETE__"@) && (is_build_name("version.security_patch"@, n)
                || n
            == "ro.vendor.build.security_patch"@)
            ||| p.characteristics == Some("__DELETE__"@) && n == "ro.build.characteristics"@
            ||| p.hardware == Some("__DELETE__"@) && n == "ro.hardware"@
            ||| p.board == Some("__DELETE__"@) && n == "ro.product.board"@
            ||| p.soc_model == Some("__DELETE__"@) && n == "ro.soc.model"@
            ||| p.android_version == Some("__DELETE__"@) && is_build_name("version.release"@, n)
        },
{
    lemma_deletable_names(p, n);
    let t = p.deletable();
    if exists|i: int| 0 <= i < t.len() && is_delete((#[trigger] t[i]).0) && t[i].1.contains(n) {
        let i = choose|i: int|
            0 <= i < t.len() && is_delete((#[trigger] t[i]).0) && t[i].1.contains(n);
        assert(i == 0 || i == 1 || i == 2 || i == 3 || i == 4 || i == 5 || i == 6 || i == 7
            || i == 8 || i == 9 || i == 10 || i == 11 || i == 12 || i == 13 || i == 14
            || i == 15);
    }
    assert(is_delete(t[0].0) && t[0].1.contains(n) ==> 0 <= 0 < t.len() && is_delete(t[0].0));
    assert(is_delete(t[1].0) && t[1].1.contains(n) ==> 0 <= 1 < t.len() && is_delete(t[1].0));
    assert(is_delete(t[2].0) && t[2].1.contains(n) ==> 0 <= 2 < t.len() && is_delete(t[2].0));
    assert(is_delete(t[3].0) && t[3].1.contains(n) ==> 0 <= 3 < t.len() && is_delete(t[3].0));
    assert(is_delete(t[4].0) && t[4].1.contains(n) ==> 0 <= 4 < t.len() && is_delete(t[4].0));
    assert(is_delete(t[5].0) && t[5].1.contains(n) ==> 0 <= 5 < t.len() && is_delete(t[5].0));
    assert(is_delete(t[6].0) && t[6].1.contains(n) ==> 0 <= 6 < t.len() && is_delete(t[6].0));
    assert(is_delete(t[7].0) && t[7].1.contains(n) ==> 0 <= 7 < t.len() && is_delete(t[7].0));
    assert(is_delete(t[8].0) && t[8].1.contains(n) ==> 0 <= 8 < t.len() && is_delete(t[8].0));
    assert(is_delete(t[9].0) && t[9].1.contains(n) ==> 0 <= 9 < t.len() && is_delete(t[9].0));
    assert(is_delete(t[10].0) && t[10].1.contains(n) ==> 0 <= 10 < t.len() && is_delete(t[10].0));
    assert(is_delete(t[11].0) && t[11].1.contains(n) ==> 0 <= 11 < t.len() && is_delete(t[11].0));
    assert(is_delete(t[12].0) && t[12].1.contains(n) ==> 0 <= 12 < t.len() && is_delete(t[12].0));
    assert(is_delete(t[13].0) && t[13].1.contains(n) ==> 0 <= 13 < t.len() && is_delete(t[13].0));
    assert(is_delete(t[14].0) && t[14].1.contains(n) ==> 0 <= 14 < t.len() && is_delete(t[14].0));
    assert(is_delete(t[15].0) && t[15].1.contains(n) ==> 0 <= 15 < t.len() && is_delete(t[15].0));
}

/// The properties of each field that can be marked.
proof fn lemma_deletable_names(p: Profile, n: Seq<char>)
    ensures
        p.deletable()[0].1.contains(n) <==> is_product_name("brand"@, n),
        p.deletable()[1].1.contains(n) <==> is_product_name("manufacturer"@, n),
        p.deletable()[2].1.contains(n) <==> is_product_name("model"@, n),
        p.deletable()[3].1.contains(n) <==> is_product_name("name"@, n) || n == "ro.build.product"@,
        p.deletable()[4].1.contains(n) <==> is_product_name("device"@, n),
        p.deletable()[5].1.contains(n) <==> is_product_name("marketname"@, n)
            || n == "ro.vendor.oplus.market.name"@,
        p.deletable()[6].1.contains(n) <==> is_build_name("fingerprint"@, n),
        p.deletable()[7].1.contains(n) <==> is_build_name("id"@, n),
        p.deletable()[8].1.contains(n) <==> n == "ro.build.display.id"@,
        p.deletable()[9].1.contains(n) <==> is_build_name("version.incremental"@, n),
        p.deletable()[10].1.contains(n) <==> is_build_name("version.security_patch"@, n) || n
            == "ro.vendor.build.security_patch"@,
        p.deletable()[11].1.contains(n) <==> n == "ro.build.characteristics"@,
        p.deletable()[12].1.contains(n) <==> n == "ro.hardware"@,
        p.deletable()[13].1.contains(n) <==> n == "ro.product.board"@,
        p.deletable()[14].1.contains(n) <==> n == "ro.soc.model"@,
        p.deletable()[15].1.contains(n) <==> is_build_name("version.release"@, n),
        p.deletable().len() == 16,
{
    lemma_field_names(p, n);
}


/// The custom properties of a profile all count, whatever else it says.
pub proof fn law_all_custom_properties_count(p: Profile)
    ensures
        p.custom_props matches Some(props) ==> p.custom() == props,
        p.custom_props is None ==> p.custom().len() == 0,
{
}

/// Each of the six product properties that a custom property can name gives its value to the copy
/// in each of the six partitions that have one, unless a custom property with a value is about
/// that copy itself.
pub proof fn law_custom_product_property_by_name(
    p: Profile,
    at: int,
    suffix: Seq<char>,
    partition: Seq<char>,
)
    requires
        distinct_keys(p.custom()),
        0 <= at < p.custom().len(),
        p.custom()[at].1.len() > 0,
        p.custom()[at].1 != "__DELETE__"@,
        p.custom()[at].1 != "__EMPTY__"@,
        ({
            ||| p.custom()[at].0 == "ro.product.manufacturer"@ && suffix == "manufacturer"@
            ||| p.custom()[at].0 == "ro.product.brand"@ && suffix == "brand"@
            ||| p.custom()[at].0 == "ro.product.model"@ && suffix == "model"@
            ||| p.custom()[at].0 == "ro.product.name"@ && suffix == "name"@
            ||| p.custom()[at].0 == "ro.product.device"@ && suffix == "device"@
            ||| p.custom()[at].0 == "ro.product.marketname"@ && suffix == "marketname"@
        }),
        ({
            ||| partition == "odm"@
            ||| partition == "vendor"@
            ||| partition == "system"@
            ||| partition == "system_ext"@
            ||| partition == "product"@
            ||| partition == "bootimage"@
        }),
        !has_key(p.custom(), "ro.product."@ + partition + "."@ + suffix),
    ensures
        lookup(p.property_map(), "ro.product."@ + partition + "."@ + suffix) == Some(
            p.custom()[at].1,
        ),
{
    let n = "ro.product."@ + partition + "."@ + suffix;
    reveal_strlit("ro.product.");
    reveal_strlit(".");
    reveal_strlit("odm");
    reveal_strlit("ro.product.odm.");
    assert("ro.product."@ + "odm"@ + "."@ =~= "ro.product.odm."@);
    reveal_strlit("vendor");
    reveal_strlit("ro.product.vendor.");
    assert("ro.product."@ + "vendor"@ + "."@ =~= "ro.product.vendor."@);
    reveal_strlit("system");
    reveal_strlit("ro.product.system.");
    assert("ro.product."@ + "system"@ + "."@ =~= "ro.product.system."@);
    reveal_strlit("system_ext");
    reveal_strlit("ro.product.system_ext.");
    assert("ro.product."@ + "system_ext"@ + "."@ =~= "ro.product.system_ext."@);
    reveal_strlit("product");
    reveal_strlit("ro.product.product.");
    assert("ro.product."@ + "product"@ + "."@ =~= "ro.product.product."@);
    reveal_strlit("bootimage");
    reveal_strlit("ro.product.bootimage.");
    assert("ro.product."@ + "bootimage"@ + "."@ =~= "ro.product.bootimage."@);
    assert(is_product_name(suffix, n));
    law_custom_property_reaches(p, at, n);
}

/// Each of the seven build properties that a custom property can name gives its value to the copy
/// in each of the nine partitions that have one, unless a custom property with a value is about
/// that copy itself.
pub proof fn law_custom_build_property_by_name(
    p: Profile,
    at: int,
    suffix: Seq<char>,
    partition: Seq<char>,
)
    requires
        distinct_keys(p.custom()),
        0 <= at < p.custom().len(),
        p.custom()[at].1.len() > 0,
        p.custom()[at].1 != "__DELETE__"@,
        p.custom()[at].1 != "__EMPTY__"@,
        ({
            ||| p.custom()[at].0 == "ro.build.fingerprint"@ && suffix == "fingerprint"@
            ||| p.custom()[at].0 == "ro.build.id"@ && suffix == "id"@
            ||| p.custom()[at].0 == "ro.build.version.release"@ && suffix == "version.release"@
            ||| p.custom()[at].0 == "ro.build.version.sdk"@ && suffix == "version.sdk"@
            ||| p.custom()[at].0 == "ro.build.version.incremental"@ && suffix == "version.incremental"@
            ||| p.custom()[at].0 == "ro.build.type"@ && suffix == "type"@
            ||| p.custom()[at].0 == "ro.build.tags"@ && suffix == "tags"@
        }),
        ({
            ||| partition == "system"@
            ||| partition == "system_ext"@
            ||| partition == "product"@
            ||| partition == "vendor"@
            ||| partition == "odm"@
            ||| partition == "bootimage"@
            ||| partition == "system_dlkm"@
            ||| partition == "vendor_dlkm"@
            ||| partition == "odm_dlkm"@
        }),
        !has_key(p.custom(), "ro."@ + partition + ".build."@ + suffix),
    ensures
        lookup(p.property_map(), "ro."@ + partition + ".build."@ + suffix) == Some(
            p.custom()[at].1,
        ),
{
    let n = "ro."@ + partition + ".build."@ + suffix;
    reveal_strlit("ro.");
    reveal_strlit(".build.");
    reveal_strlit("system");
    reveal_strlit("ro.system.build.");
    assert("ro."@ + "system"@ + ".build."@ =~= "ro.system.build."@);
    reveal_strlit("system_ext");
    reveal_strlit("ro.system_ext.build.");
    assert("ro."@ + "system_ext"@ + ".build."@ =~= "ro.system_ext.build."@);
    reveal_strlit("product");
    reveal_strlit("ro.product.build.");
    assert("ro."@ + "product"@ + ".build."@ =~= "ro.product.build."@);
    reveal_strlit("vendor");
    reveal_strlit("ro.vendor.build.");
    assert("ro."@ + "vendor"@ + ".build."@ =~= "ro.vendor.build."@);
    reveal_strlit("odm");
    reveal_strlit("ro.odm.build.");
    assert("ro."@ + "odm"@ + ".build."@ =~= "ro.odm.build."@);
    reveal_strlit("bootimage");
    reveal_strlit("ro.bootimage.build.");
    assert("ro."@ + "bootimage"@ + ".build."@ =~= "ro.bootimage.build."@);
    reveal_strlit("system_dlkm");
    reveal_strlit("ro.system_dlkm.build.");
    assert("ro."@ + "system_dlkm"@ + ".build."@ =~= "ro.system_dlkm.build."@);
    reveal_strlit("vendor_dlkm");
    reveal_strlit("ro.vendor_dlkm.build.");
    assert("ro."@ + "vendor_dlkm"@ + ".build."@ =~= "ro.vendor_dlkm.build."@);
    reveal_strlit("odm_dlkm");
    reveal_strlit("ro.odm_dlkm.build.");
    assert("ro."@ + "odm_dlkm"@ + ".build."@ =~= "ro.odm_dlkm.build."@);
    assert(is_build_name(suffix, n));
    law_custom_property_reaches(p, at, n);
}

} // verus!
