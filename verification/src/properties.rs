//! Families of system properties: a property and the copies of it that each partition exports.

use vstd::prelude::*;

use crate::string_map::{self, PropertyMap};
use crate::text;

verus! {

// ---------------------------------------------------------------------------
// Names
// ---------------------------------------------------------------------------

/// The partitions that export their own copy of `ro.product.*`.
pub open spec fn product_partitions() -> Seq<Seq<char>> {
    seq!["odm"@, "vendor"@, "system"@, "system_ext"@, "product"@, "bootimage"@]
}

/// The partitions that export their own build information, those of the dynamic kernel
/// modules among them.
pub open spec fn build_partitions() -> Seq<Seq<char>> {
    seq![
        "system"@,
        "system_ext"@,
        "product"@,
        "vendor"@,
        "odm"@,
        "bootimage"@,
        "system_dlkm"@,
        "vendor_dlkm"@,
        "odm_dlkm"@,
    ]
}

/// The copy of `ro.product.<suffix>` in a partition.
pub open spec fn product_copy(partition: Seq<char>, suffix: Seq<char>) -> Seq<char> {
    "ro.product."@ + partition + "."@ + suffix
}

/// The copy of `ro.build.<suffix>` in a partition.
pub open spec fn build_copy(partition: Seq<char>, suffix: Seq<char>) -> Seq<char> {
    "ro."@ + partition + ".build."@ + suffix
}

/// `ro.product.<suffix>` and its copies.
pub open spec fn product_family(suffix: Seq<char>) -> Seq<Seq<char>> {
    seq!["ro.product."@ + suffix] + product_partitions().map_values(
        |p: Seq<char>| product_copy(p, suffix),
    )
}

/// `ro.build.<suffix>` and its copies.
pub open spec fn build_family(suffix: Seq<char>) -> Seq<Seq<char>> {
    seq!["ro.build."@ + suffix] + build_partitions().map_values(
        |p: Seq<char>| build_copy(p, suffix),
    )
}

/// The partitions of [`product_partitions`].
fn product_partition_list() -> (out: Vec<&'static str>)
    ensures
        out@.map_values(|s: &'static str| s@) == product_partitions(),
{
    let out: Vec<&'static str> = vec![
        "odm",
        "vendor",
        "system",
        "system_ext",
        "product",
        "bootimage",
    ];
    assert(out@.map_values(|s: &'static str| s@) =~= product_partitions());
    out
}

/// The partitions of [`build_partitions`].
fn build_partition_list() -> (out: Vec<&'static str>)
    ensures
        out@.map_values(|s: &'static str| s@) == build_partitions(),
{
    let out: Vec<&'static str> = vec![
        "system",
        "system_ext",
        "product",
        "vendor",
        "odm",
        "bootimage",
        "system_dlkm",
        "vendor_dlkm",
        "odm_dlkm",
    ];
    assert(out@.map_values(|s: &'static str| s@) =~= build_partitions());
    out
}

/// The names of a product family.
pub fn product_names(suffix: &str) -> (out: Vec<String>)
    ensures
        text::views(out@) == product_family(suffix@),
{
    let partitions = product_partition_list();
    let mut out: Vec<String> = Vec::new();
    out.push(text::joined("ro.product.", suffix));
    assert(text::views(out@) =~= product_family(suffix@).take(1));
    let ghost names = product_family(suffix@);
    let mut i: usize = 0;
    while i < partitions.len()
        invariant
            i <= partitions@.len(),
            partitions@.map_values(|s: &'static str| s@) == product_partitions(),
            names == product_family(suffix@),
            text::views(out@) == names.take(i + 1),
        decreases partitions@.len() - i,
    {
        let ghost before = text::views(out@);
        let mut name = text::joined("ro.product.", partitions[i]);
        name.append(".");
        name.append(suffix);
        proof {
            assert(product_partitions()[i as int] == partitions@[i as int]@);
            assert(names[i + 1] == product_copy(product_partitions()[i as int], suffix@));
            assert(names.take(i + 2) =~= names.take(i + 1).push(names[i + 1]));
        }
        let ghost n = name@;
        out.push(name);
        assert(text::views(out@) =~= before.push(n));
        i = i + 1;
    }
    assert(partitions@.len() == product_partitions().len());
    assert(names.take(i + 1) =~= names);
    out
}

/// The names of a build family.
pub fn build_names(suffix: &str) -> (out: Vec<String>)
    ensures
        text::views(out@) == build_family(suffix@),
{
    let partitions = build_partition_list();
    let mut out: Vec<String> = Vec::new();
    out.push(text::joined("ro.build.", suffix));
    assert(text::views(out@) =~= build_family(suffix@).take(1));
    let ghost names = build_family(suffix@);
    let mut i: usize = 0;
    while i < partitions.len()
        invariant
            i <= partitions@.len(),
            partitions@.map_values(|s: &'static str| s@) == build_partitions(),
            names == build_family(suffix@),
            text::views(out@) == names.take(i + 1),
        decreases partitions@.len() - i,
    {
        let ghost before = text::views(out@);
        let mut name = text::joined("ro.", partitions[i]);
        name.append(".build.");
        name.append(suffix);
        proof {
            assert(build_partitions()[i as int] == partitions@[i as int]@);
            assert(names[i + 1] == build_copy(build_partitions()[i as int], suffix@));
            assert(names.take(i + 2) =~= names.take(i + 1).push(names[i + 1]));
        }
        let ghost n = name@;
        out.push(name);
        assert(text::views(out@) =~= before.push(n));
        i = i + 1;
    }
    assert(partitions@.len() == build_partitions().len());
    assert(names.take(i + 1) =~= names);
    out
}

// ---------------------------------------------------------------------------
// Assignments
// ---------------------------------------------------------------------------

/// Each of the names with the value.
pub open spec fn same_value(names: Seq<Seq<char>>, value: Seq<char>) -> Seq<
    (Seq<char>, Seq<char>),
> {
    names.map_values(|n: Seq<char>| (n, value))
}

/// The properties after a list of assignments has been carried out from left to right.
pub open spec fn put_all(
    entries: Seq<(Seq<char>, Seq<char>)>,
    list: Seq<(Seq<char>, Seq<char>)>,
) -> Seq<(Seq<char>, Seq<char>)>
    decreases list.len(),
{
    if list.len() == 0 {
        entries
    } else {
        let before = put_all(entries, list.drop_last());
        string_map::put(before, list.last().0, list.last().1)
    }
}

/// The value that the last assignment to `name` gives it.
pub open spec fn last_value(list: Seq<(Seq<char>, Seq<char>)>, name: Seq<char>) -> Option<
    Seq<char>,
>
    decreases list.len(),
{
    if list.len() == 0 {
        None
    } else if list.last().0 == name {
        Some(list.last().1)
    } else {
        last_value(list.drop_last(), name)
    }
}

/// Two lists of assignments one after the other are their concatenation.
pub proof fn lemma_put_all_add(
    entries: Seq<(Seq<char>, Seq<char>)>,
    a: Seq<(Seq<char>, Seq<char>)>,
    b: Seq<(Seq<char>, Seq<char>)>,
)
    ensures
        put_all(put_all(entries, a), b) == put_all(entries, a + b),
    decreases b.len(),
{
    if b.len() == 0 {
        assert(a + b =~= a);
    } else {
        lemma_put_all_add(entries, a, b.drop_last());
        assert((a + b).drop_last() =~= a + b.drop_last());
        assert((a + b).last() == b.last());
    }
}

/// A property has the value that was assigned to it last, and the one it had before where
/// none was assigned.
pub proof fn law_last_assignment_wins(
    entries: Seq<(Seq<char>, Seq<char>)>,
    list: Seq<(Seq<char>, Seq<char>)>,
    name: Seq<char>,
)
    requires
        string_map::distinct_keys(entries),
    ensures
        string_map::distinct_keys(put_all(entries, list)),
        string_map::lookup(put_all(entries, list), name) == match last_value(list, name) {
            Some(v) => Some(v),
            None => string_map::lookup(entries, name),
        },
    decreases list.len(),
{
    if list.len() > 0 {
        law_last_assignment_wins(entries, list.drop_last(), name);
        string_map::law_put_then_lookup(
            put_all(entries, list.drop_last()),
            list.last().0,
            list.last().1,
            name,
        );
    }
}

/// The last assignment in a concatenation.
pub proof fn lemma_last_value_add(
    a: Seq<(Seq<char>, Seq<char>)>,
    b: Seq<(Seq<char>, Seq<char>)>,
    name: Seq<char>,
)
    ensures
        last_value(a + b, name) == match last_value(b, name) {
            Some(v) => Some(v),
            None => last_value(a, name),
        },
    decreases b.len(),
{
    if b.len() == 0 {
        assert(a + b =~= a);
    } else {
        lemma_last_value_add(a, b.drop_last(), name);
        assert((a + b).drop_last() =~= a + b.drop_last());
        assert((a + b).last() == b.last());
    }
}

/// Assigning one value to several names gives that value to each of them and to no other.
pub proof fn lemma_last_value_same(names: Seq<Seq<char>>, value: Seq<char>, name: Seq<char>)
    ensures
        last_value(same_value(names, value), name) == if names.contains(name) {
            Some(value)
        } else {
            None
        },
    decreases names.len(),
{
    let list = same_value(names, value);
    if names.len() > 0 {
        assert(list.drop_last() =~= same_value(names.drop_last(), value));
        lemma_last_value_same(names.drop_last(), value, name);
        assert(list.last().0 == names.last());
        if names.contains(name) {
            let i = choose|i: int| 0 <= i < names.len() && names[i] == name;
            if i < names.len() - 1 {
                assert(names.drop_last()[i] == name);
            }
        }
        if names.drop_last().contains(name) {
            let i = choose|i: int|
                0 <= i < names.drop_last().len() && names.drop_last()[i] == name;
            assert(names[i] == name);
        }
        if names.last() == name {
            assert(names[names.len() - 1] == name);
        }
    }
}

/// Gives one value to several properties.
pub fn set_all(map: &mut PropertyMap, names: &Vec<String>, value: &str)
    ensures
        final(map).pairs() == put_all(
            old(map).pairs(),
            same_value(text::views(names@), value@),
        ),
{
    let ghost start = map.pairs();
    let ghost list = same_value(text::views(names@), value@);
    let mut i: usize = 0;
    assert(list.take(0) =~= Seq::<(Seq<char>, Seq<char>)>::empty());
    while i < names.len()
        invariant
            i <= names@.len(),
            list == same_value(text::views(names@), value@),
            map.pairs() == put_all(start, list.take(i as int)),
        decreases names@.len() - i,
    {
        map.set(&names[i], value);
        proof {
            assert(list.take(i + 1).drop_last() =~= list.take(i as int));
            assert(list.take(i + 1).last() == (names@[i as int]@, value@));
        }
        i = i + 1;
    }
    assert(list.take(i as int) =~= list);
}

/// Sets `ro.product.<suffix>` and all its copies, since a reader may be routed to any of them.
pub fn insert_product_family(map: &mut PropertyMap, suffix: &str, value: &str)
    ensures
        final(map).pairs() == put_all(
            old(map).pairs(),
            same_value(product_family(suffix@), value@),
        ),
{
    let names = product_names(suffix);
    set_all(map, &names, value);
}

/// Sets `ro.build.<suffix>` and all its copies.
pub fn insert_build_family(map: &mut PropertyMap, suffix: &str, value: &str)
    ensures
        final(map).pairs() == put_all(old(map).pairs(), same_value(build_family(suffix@), value@)),
{
    let names = build_names(suffix);
    set_all(map, &names, value);
}

/// Puts `ro.product.<suffix>` and all its copies on the list.
pub fn delete_product_family(delete_props: &mut Vec<String>, suffix: &str)
    ensures
        text::views(final(delete_props)@) == text::views(old(delete_props)@) + product_family(
            suffix@,
        ),
{
    let mut names = product_names(suffix);
    let ghost added = names@;
    let ghost before = delete_props@;
    delete_props.append(&mut names);
    assert(text::views(before + added) =~= text::views(before) + text::views(added));
}

/// Puts `ro.build.<suffix>` and all its copies on the list.
pub fn delete_build_family(delete_props: &mut Vec<String>, suffix: &str)
    ensures
        text::views(final(delete_props)@) == text::views(old(delete_props)@) + build_family(
            suffix@,
        ),
{
    let mut names = build_names(suffix);
    let ghost added = names@;
    let ghost before = delete_props@;
    delete_props.append(&mut names);
    assert(text::views(before + added) =~= text::views(before) + text::views(added));
}

// ---------------------------------------------------------------------------
// Custom properties
// ---------------------------------------------------------------------------

/// The family that stands behind a custom property of a known name.
pub open spec fn known_family(key: Seq<char>) -> Seq<Seq<char>> {
    if key == "ro.product.manufacturer"@ {
        product_family("manufacturer"@)
    } else if key == "ro.product.brand"@ {
        product_family("brand"@)
    } else if key == "ro.product.model"@ {
        product_family("model"@)
    } else if key == "ro.product.name"@ {
        product_family("name"@)
    } else if key == "ro.product.device"@ {
        product_family("device"@)
    } else if key == "ro.product.marketname"@ {
        product_family("marketname"@)
    } else if key == "ro.build.fingerprint"@ {
        build_family("fingerprint"@)
    } else if key == "ro.build.id"@ {
        build_family("id"@)
    } else if key == "ro.build.version.release"@ {
        build_family("version.release"@)
    } else if key == "ro.build.version.sdk"@ {
        build_family("version.sdk"@)
    } else if key == "ro.build.version.incremental"@ {
        build_family("version.incremental"@)
    } else if key == "ro.build.type"@ {
        build_family("type"@)
    } else if key == "ro.build.tags"@ {
        build_family("tags"@)
    } else {
        Seq::empty()
    }
}

/// The family of a custom property of a known name, and nothing for any other name.
pub fn known_family_names(key: &str) -> (out: Vec<String>)
    ensures
        text::views(out@) == known_family(key@),
{
    if text::same(key, "ro.product.manufacturer") {
        product_names("manufacturer")
    } else if text::same(key, "ro.product.brand") {
        product_names("brand")
    } else if text::same(key, "ro.product.model") {
        product_names("model")
    } else if text::same(key, "ro.product.name") {
        product_names("name")
    } else if text::same(key, "ro.product.device") {
        product_names("device")
    } else if text::same(key, "ro.product.marketname") {
        product_names("marketname")
    } else if text::same(key, "ro.build.fingerprint") {
        build_names("fingerprint")
    } else if text::same(key, "ro.build.id") {
        build_names("id")
    } else if text::same(key, "ro.build.version.release") {
        build_names("version.release")
    } else if text::same(key, "ro.build.version.sdk") {
        build_names("version.sdk")
    } else if text::same(key, "ro.build.version.incremental") {
        build_names("version.incremental")
    } else if text::same(key, "ro.build.type") {
        build_names("type")
    } else if text::same(key, "ro.build.tags") {
        build_names("tags")
    } else {
        let none: Vec<String> = Vec::new();
        assert(text::views(none@) =~= Seq::<Seq<char>>::empty());
        none
    }
}

/// Sets the whole family of a custom property of a known name. Any other name sets nothing.
pub fn expand_known_custom_property(map: &mut PropertyMap, key: &str, value: &str)
    ensures
        final(map).pairs() == put_all(old(map).pairs(), same_value(known_family(key@), value@)),
{
    let names = known_family_names(key);
    set_all(map, &names, value);
}

} // verus!
