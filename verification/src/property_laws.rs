//! What the property map of a profile promises as a whole.

use vstd::prelude::*;

use crate::fingerprint::Fingerprint;
use crate::profile::{effective, has_value, is_delete, Profile};
use crate::properties::{
    build_family, build_partitions, known_family, last_value, law_last_assignment_wins,
    lemma_last_value_add, lemma_last_value_same, product_family, product_partitions,
};
use crate::property_map::{
    custom_deletions, custom_value, deleted_by, exact, expanded, falling, falls_with, marked_in,
    marked_names, marketname_names, product_code_names, security_patch_names, value_pairs,
};
use crate::string_map::{
    distinct_keys, has_key, key_index, law_put_absent_then_lookup, lemma_put_absent_keeps, lookup,
    put_absent,
};

verus! {

// ---------------------------------------------------------------------------
// Telling the properties of different fields apart
// ---------------------------------------------------------------------------

/// The character of `n` that stands `k` places before its end.
spec fn from_end(n: Seq<char>, k: int) -> char {
    n[n.len() - k]
}

/// The three characters at the end of `n`.
spec fn ends(n: Seq<char>, a: char, b: char, c: char) -> bool {
    from_end(n, 3) == a && from_end(n, 2) == b && from_end(n, 1) == c
}

/// The number of the field that a property belongs to, told from the end of its name.
spec fn tag(n: Seq<char>) -> int {
    if ends(n, 'r', 'e', 'r') {
        0
    } else if ends(n, 'a', 'n', 'd') {
        1
    } else if ends(n, 'a', 'm', 'e') {
        if from_end(n, 5) == 't' || (from_end(n, 7) == 'e' && from_end(n, 6) == 't') {
            2
        } else {
            4
        }
    } else if ends(n, 'd', 'e', 'l') {
        if from_end(n, 7) == 'c' {
            8
        } else {
            3
        }
    } else if ends(n, 'u', 'c', 't') {
        4
    } else if ends(n, 'i', 'c', 'e') {
        5
    } else if ends(n, 'a', 'r', 'e') {
        6
    } else if ends(n, 'a', 'r', 'd') {
        7
    } else if ends(n, 'i', 'n', 't') {
        9
    } else if ends(n, '.', 'i', 'd') {
        if from_end(n, 4) == 'y' {
            11
        } else {
            10
        }
    } else if ends(n, 't', 'a', 'l') {
        12
    } else if ends(n, 't', 'c', 'h') {
        13
    } else if ends(n, 'i', 'c', 's') {
        14
    } else if ends(n, 'a', 's', 'e') {
        15
    } else if ends(n, 's', 'd', 'k') {
        16
    } else if ends(n, 'y', 'p', 'e') {
        17
    } else if ends(n, 'a', 'g', 's') {
        18
    } else {
        -1
    }
}

/// What stands before the suffix in a name of a product family.
proof fn lemma_product_stem(suffix: Seq<char>, n: Seq<char>)
    requires
        product_family(suffix).contains(n),
    ensures
        n.len() >= 11 + suffix.len(),
        forall|k: int| 1 <= k <= suffix.len() ==> from_end(n, k) == from_end(suffix, k),
        from_end(n, suffix.len() as int + 1) == '.',
        from_end(n, suffix.len() as int + 2) != 'c',
        from_end(n, suffix.len() as int + 2) == 't' ==> from_end(n, suffix.len() as int + 3) != 'e',
{
    reveal_strlit("ro.product.");
    reveal_strlit(".");
    reveal_strlit("odm");
    reveal_strlit("vendor");
    reveal_strlit("system");
    reveal_strlit("system_ext");
    reveal_strlit("product");
    reveal_strlit("bootimage");
    let i = choose|i: int| 0 <= i < product_family(suffix).len() && product_family(suffix)[i] == n;
    let ps = product_partitions();
    let stem = if i == 0 {
        "ro.product."@
    } else {
        "ro.product."@ + ps[i - 1] + "."@
    };
    assert(n =~= stem + suffix);
    let l = stem.len() as int;
    assert(stem[l - 1] == '.' && stem[l - 2] != 'c' && (stem[l - 2] == 't' ==> stem[l - 3] != 'e')
        && l >= 11) by {
        assert(i == 0 || i == 1 || i == 2 || i == 3 || i == 4 || i == 5 || i == 6);
    }
    assert(n[n.len() - suffix.len() - 1] == stem[l - 1]);
    assert(n[n.len() - suffix.len() - 2] == stem[l - 2]);
    assert(n[n.len() - suffix.len() - 3] == stem[l - 3]);
    assert forall|k: int| 1 <= k <= suffix.len() implies from_end(n, k) == from_end(suffix, k) by {
        assert(n[l + (suffix.len() - k)] == suffix[suffix.len() - k]);
    }
}

/// What stands before the suffix in a name of a build family.
proof fn lemma_build_stem(suffix: Seq<char>, n: Seq<char>)
    requires
        build_family(suffix).contains(n),
    ensures
        n.len() >= 9 + suffix.len(),
        forall|k: int| 1 <= k <= suffix.len() ==> from_end(n, k) == from_end(suffix, k),
        from_end(n, suffix.len() as int + 1) == '.',
        from_end(n, suffix.len() as int + 2) == 'd',
{
    reveal_strlit("ro.build.");
    reveal_strlit("ro.");
    reveal_strlit(".build.");
    let i = choose|i: int| 0 <= i < build_family(suffix).len() && build_family(suffix)[i] == n;
    let ps = build_partitions();
    let stem = if i == 0 {
        "ro.build."@
    } else {
        "ro."@ + ps[i - 1] + ".build."@
    };
    assert(n =~= stem + suffix);
    let l = stem.len() as int;
    assert(stem[l - 1] == '.' && stem[l - 2] == 'd' && l >= 9);
    assert(n[n.len() - suffix.len() - 1] == stem[l - 1]);
    assert(n[n.len() - suffix.len() - 2] == stem[l - 2]);
    assert forall|k: int| 1 <= k <= suffix.len() implies from_end(n, k) == from_end(suffix, k) by {
        assert(n[l + (suffix.len() - k)] == suffix[suffix.len() - k]);
    }
}

proof fn lemma_tag_manufacturer(n: Seq<char>)
    requires
        product_family("manufacturer"@).contains(n),
    ensures
        tag(n) == 0,
{
    reveal_strlit("manufacturer");
    lemma_product_stem("manufacturer"@, n);
}

proof fn lemma_tag_brand(n: Seq<char>)
    requires
        product_family("brand"@).contains(n),
    ensures
        tag(n) == 1,
{
    reveal_strlit("brand");
    lemma_product_stem("brand"@, n);
}

proof fn lemma_tag_marketname(n: Seq<char>)
    requires
        product_family("marketname"@).contains(n),
    ensures
        tag(n) == 2,
{
    reveal_strlit("marketname");
    lemma_product_stem("marketname"@, n);
}

proof fn lemma_tag_model(n: Seq<char>)
    requires
        product_family("model"@).contains(n),
    ensures
        tag(n) == 3,
{
    reveal_strlit("model");
    lemma_product_stem("model"@, n);
}

proof fn lemma_tag_name(n: Seq<char>)
    requires
        product_family("name"@).contains(n),
    ensures
        tag(n) == 4,
{
    reveal_strlit("name");
    lemma_product_stem("name"@, n);
}

proof fn lemma_tag_device(n: Seq<char>)
    requires
        product_family("device"@).contains(n),
    ensures
        tag(n) == 5,
{
    reveal_strlit("device");
    lemma_product_stem("device"@, n);
}

proof fn lemma_tag_fingerprint(n: Seq<char>)
    requires
        build_family("fingerprint"@).contains(n),
    ensures
        tag(n) == 9,
{
    reveal_strlit("fingerprint");
    lemma_build_stem("fingerprint"@, n);
}

proof fn lemma_tag_id(n: Seq<char>)
    requires
        build_family("id"@).contains(n),
    ensures
        tag(n) == 10,
{
    reveal_strlit("id");
    lemma_build_stem("id"@, n);
}

proof fn lemma_tag_version_incremental(n: Seq<char>)
    requires
        build_family("version.incremental"@).contains(n),
    ensures
        tag(n) == 12,
{
    reveal_strlit("version.incremental");
    lemma_build_stem("version.incremental"@, n);
}

proof fn lemma_tag_version_security_patch(n: Seq<char>)
    requires
        build_family("version.security_patch"@).contains(n),
    ensures
        tag(n) == 13,
{
    reveal_strlit("version.security_patch");
    lemma_build_stem("version.security_patch"@, n);
}

proof fn lemma_tag_version_release(n: Seq<char>)
    requires
        build_family("version.release"@).contains(n),
    ensures
        tag(n) == 15,
{
    reveal_strlit("version.release");
    lemma_build_stem("version.release"@, n);
}

proof fn lemma_tag_version_sdk(n: Seq<char>)
    requires
        build_family("version.sdk"@).contains(n),
    ensures
        tag(n) == 16,
{
    reveal_strlit("version.sdk");
    lemma_build_stem("version.sdk"@, n);
}

proof fn lemma_tag_type(n: Seq<char>)
    requires
        build_family("type"@).contains(n),
    ensures
        tag(n) == 17,
{
    reveal_strlit("type");
    lemma_build_stem("type"@, n);
}

proof fn lemma_tag_tags(n: Seq<char>)
    requires
        build_family("tags"@).contains(n),
    ensures
        tag(n) == 18,
{
    reveal_strlit("tags");
    lemma_build_stem("tags"@, n);
}

proof fn lemma_tag_singles()
    ensures
        tag("ro.vendor.oplus.market.name"@) == 2,
        tag("ro.build.product"@) == 4,
        tag("ro.hardware"@) == 6,
        tag("ro.product.board"@) == 7,
        tag("ro.soc.model"@) == 8,
        tag("ro.build.display.id"@) == 11,
        tag("ro.vendor.build.security_patch"@) == 13,
        tag("ro.build.characteristics"@) == 14,
{
    reveal_strlit("ro.vendor.oplus.market.name");
    reveal_strlit("ro.build.product");
    reveal_strlit("ro.hardware");
    reveal_strlit("ro.product.board");
    reveal_strlit("ro.soc.model");
    reveal_strlit("ro.build.display.id");
    reveal_strlit("ro.vendor.build.security_patch");
    reveal_strlit("ro.build.characteristics");
}

/// A name of a lengthened list is the new one or one of the old.
proof fn lemma_pushed(names: Seq<Seq<char>>, extra: Seq<char>, n: Seq<char>)
    requires
        names.push(extra).contains(n),
        n != extra,
    ensures
        names.contains(n),
{
    let i = choose|i: int| 0 <= i < names.push(extra).len() && names.push(extra)[i] == n;
    assert(names[i] == n);
}

// ---------------------------------------------------------------------------
// The fields as a table
// ---------------------------------------------------------------------------

impl Profile {
    /// Each field with its value and the properties that it stands for.
    pub open spec fn fields(self) -> Seq<(Option<Seq<char>>, Seq<Seq<char>>)> {
        seq![
            (effective(self.manufacturer), product_family("manufacturer"@)),
            (effective(self.brand), product_family("brand"@)),
            (effective(self.marketname), marketname_names()),
            (effective(self.model), product_family("model"@)),
            (self.product_code(), product_code_names()),
            (effective(self.device), product_family("device"@)),
            (effective(self.hardware), seq!["ro.hardware"@]),
            (effective(self.board), seq!["ro.product.board"@]),
            (effective(self.soc_model), seq!["ro.soc.model"@]),
            (effective(self.fingerprint), build_family("fingerprint"@)),
            (effective(self.build_id), build_family("id"@)),
            (effective(self.display_id), seq!["ro.build.display.id"@]),
            (effective(self.incremental), build_family("version.incremental"@)),
            (effective(self.security_patch), security_patch_names()),
            (effective(self.characteristics), seq!["ro.build.characteristics"@]),
            (effective(self.android_version), build_family("version.release"@)),
            (self.sdk_text(), build_family("version.sdk"@)),
        ]
    }
}

/// The assignments of the first fields of a table.
spec fn table_pairs(table: Seq<(Option<Seq<char>>, Seq<Seq<char>>)>) -> Seq<
    (Seq<char>, Seq<char>),
>
    decreases table.len(),
{
    if table.len() == 0 {
        Seq::empty()
    } else {
        table_pairs(table.drop_last()) + value_pairs(table.last().0, table.last().1)
    }
}

proof fn lemma_assoc(
    a: Seq<(Seq<char>, Seq<char>)>,
    b: Seq<(Seq<char>, Seq<char>)>,
    c: Seq<(Seq<char>, Seq<char>)>,
)
    ensures
        (a + b) + c == a + (b + c),
{
    assert((a + b) + c =~= a + (b + c));
}

proof fn lemma_table_product(p: Profile)
    ensures
        table_pairs(p.fields().take(6)) == p.product_assignments(),
{
    let t = p.fields();
    assert(t.take(0).len() == 0);
    lemma_table_step(t, 0);
    assert(Seq::<(Seq<char>, Seq<char>)>::empty() + value_pairs(t[0].0, t[0].1) =~= value_pairs(
        t[0].0,
        t[0].1,
    ));
    lemma_table_step(t, 1);
    lemma_table_step(t, 2);
    lemma_table_step(t, 3);
    lemma_table_step(t, 4);
    lemma_table_step(t, 5);
}

/// The assignments of the fields from `i` on, `k` of them.
spec fn run_pairs(t: Seq<(Option<Seq<char>>, Seq<Seq<char>>)>, i: int, k: nat) -> Seq<
    (Seq<char>, Seq<char>),
>
    decreases k,
{
    if k <= 1 {
        value_pairs(t[i].0, t[i].1)
    } else {
        run_pairs(t, i, (k - 1) as nat) + value_pairs(t[i + k - 1].0, t[i + k - 1].1)
    }
}

proof fn lemma_table_run(t: Seq<(Option<Seq<char>>, Seq<Seq<char>>)>, i: int, k: nat)
    requires
        0 <= i,
        1 <= k,
        i + k <= t.len(),
    ensures
        table_pairs(t.take(i + k)) == table_pairs(t.take(i)) + run_pairs(t, i, k),
    decreases k,
{
    if k == 1 {
        lemma_table_step(t, i);
    } else {
        lemma_table_run(t, i, (k - 1) as nat);
        lemma_table_step(t, i + k - 1);
        lemma_assoc(
            table_pairs(t.take(i)),
            run_pairs(t, i, (k - 1) as nat),
            value_pairs(t[i + k - 1].0, t[i + k - 1].1),
        );
    }
}

proof fn lemma_table_is_assignments(p: Profile)
    ensures
        table_pairs(p.fields()) == p.field_assignments(),
{
    let t = p.fields();
    lemma_table_product(p);
    lemma_table_run(t, 6, 3);
    lemma_table_run(t, 9, 8);
    assert(run_pairs(t, 6, 3) == p.hardware_assignments()) by {
        reveal_with_fuel(run_pairs, 3);
    }
    assert(run_pairs(t, 9, 8) == p.build_assignments()) by {
        reveal_with_fuel(run_pairs, 8);
    }
    assert(t.take(17) =~= t);
}

proof fn lemma_table_step(t: Seq<(Option<Seq<char>>, Seq<Seq<char>>)>, i: int)
    requires
        0 <= i < t.len(),
    ensures
        table_pairs(t.take(i + 1)) == table_pairs(t.take(i)) + value_pairs(t[i].0, t[i].1),
{
    assert(t.take(i + 1).drop_last() =~= t.take(i));
    assert(t.take(i + 1).last() == t[i]);
}

/// The properties of a field carry its number.
proof fn lemma_field_tag(p: Profile, i: int, n: Seq<char>)
    requires
        0 <= i < p.fields().len(),
        p.fields()[i].1.contains(n),
    ensures
        tag(n) == i,
{
    lemma_tag_singles();
    if i == 0 {
        lemma_tag_manufacturer(n);
    } else if i == 1 {
        lemma_tag_brand(n);
    } else if i == 2 {
        if n != "ro.vendor.oplus.market.name"@ {
            lemma_pushed(product_family("marketname"@), "ro.vendor.oplus.market.name"@, n);
            lemma_tag_marketname(n);
        }
    } else if i == 3 {
        lemma_tag_model(n);
    } else if i == 4 {
        if n != "ro.build.product"@ {
            lemma_pushed(product_family("name"@), "ro.build.product"@, n);
            lemma_tag_name(n);
        }
    } else if i == 5 {
        lemma_tag_device(n);
    } else if i == 6 {
        assert(n == seq!["ro.hardware"@][0]);
    } else if i == 7 {
        assert(n == seq!["ro.product.board"@][0]);
    } else if i == 8 {
        assert(n == seq!["ro.soc.model"@][0]);
    } else if i == 9 {
        lemma_tag_fingerprint(n);
    } else if i == 10 {
        lemma_tag_id(n);
    } else if i == 11 {
        assert(n == seq!["ro.build.display.id"@][0]);
    } else if i == 12 {
        lemma_tag_version_incremental(n);
    } else if i == 13 {
        if n != "ro.vendor.build.security_patch"@ {
            lemma_pushed(build_family("version.security_patch"@), "ro.vendor.build.security_patch"@, n);
            lemma_tag_version_security_patch(n);
        }
    } else if i == 14 {
        assert(n == seq!["ro.build.characteristics"@][0]);
    } else if i == 15 {
        lemma_tag_version_release(n);
    } else if i == 16 {
        lemma_tag_version_sdk(n);
    }
}

/// What the first fields of the table give a property.
proof fn lemma_table_value(p: Profile, i: int, n: Seq<char>, m: int)
    requires
        0 <= i < p.fields().len(),
        p.fields()[i].1.contains(n),
        0 <= m <= p.fields().len(),
    ensures
        last_value(table_pairs(p.fields().take(m)), n) == if i < m {
            p.fields()[i].0
        } else {
            None
        },
    decreases m,
{
    let t = p.fields();
    if m > 0 {
        lemma_table_value(p, i, n, m - 1);
        lemma_table_step(t, m - 1);
        let step = value_pairs(t[m - 1].0, t[m - 1].1);
        lemma_last_value_add(table_pairs(t.take(m - 1)), step, n);
        lemma_field_tag(p, i, n);
        if t[m - 1].0 is Some {
            lemma_last_value_same(t[m - 1].1, t[m - 1].0->0, n);
        }
        if t[m - 1].1.contains(n) {
            lemma_field_tag(p, m - 1, n);
        }
    }
}

/// The custom properties leave a property alone.
pub open spec fn untouched_by_custom(p: Profile, n: Seq<char>) -> bool {
    last_value(expanded(p.custom()) + exact(p.custom()), n) is None
}

/// Every property that a field stands for, the copies of all partitions included, has the
/// value of that field, and none where the field has no value. Custom properties may override
/// it.
pub proof fn law_field_properties_agree(p: Profile, i: int, n: Seq<char>)
    requires
        0 <= i < p.fields().len(),
        p.fields()[i].1.contains(n),
        untouched_by_custom(p, n),
    ensures
        lookup(p.property_map(), n) == p.fields()[i].0,
{
    let none: Seq<(Seq<char>, Seq<char>)> = Seq::empty();
    lemma_table_is_assignments(p);
    lemma_table_value(p, i, n, p.fields().len() as int);
    assert(p.fields().take(p.fields().len() as int) =~= p.fields());
    assert(p.assignments() =~= p.field_assignments() + (expanded(p.custom()) + exact(p.custom())));
    lemma_last_value_add(p.field_assignments(), expanded(p.custom()) + exact(p.custom()), n);
    law_last_assignment_wins(none, p.assignments(), n);
}

/// A property that no field stands for and that no custom property touches is not set.
pub proof fn law_nothing_else_is_set(p: Profile, n: Seq<char>)
    requires
        forall|i: int| 0 <= i < p.fields().len() ==> !(#[trigger] p.fields()[i]).1.contains(n),
        untouched_by_custom(p, n),
    ensures
        lookup(p.property_map(), n) is None,
{
    let none: Seq<(Seq<char>, Seq<char>)> = Seq::empty();
    lemma_table_is_assignments(p);
    lemma_table_none(p, n, p.fields().len() as int);
    assert(p.fields().take(p.fields().len() as int) =~= p.fields());
    assert(p.assignments() =~= p.field_assignments() + (expanded(p.custom()) + exact(p.custom())));
    lemma_last_value_add(p.field_assignments(), expanded(p.custom()) + exact(p.custom()), n);
    law_last_assignment_wins(none, p.assignments(), n);
}

proof fn lemma_table_none(p: Profile, n: Seq<char>, m: int)
    requires
        forall|i: int| 0 <= i < p.fields().len() ==> !(#[trigger] p.fields()[i]).1.contains(n),
        0 <= m <= p.fields().len(),
    ensures
        last_value(table_pairs(p.fields().take(m)), n) is None,
    decreases m,
{
    let t = p.fields();
    if m > 0 {
        lemma_table_none(p, n, m - 1);
        lemma_table_step(t, m - 1);
        let step = value_pairs(t[m - 1].0, t[m - 1].1);
        lemma_last_value_add(table_pairs(t.take(m - 1)), step, n);
        if t[m - 1].0 is Some {
            lemma_last_value_same(t[m - 1].1, t[m - 1].0->0, n);
        }
        assert(!t[m - 1].1.contains(n));
    }
}

// ---------------------------------------------------------------------------
// Custom properties
// ---------------------------------------------------------------------------

/// What the custom properties themselves are assigned.
proof fn lemma_exact_value(props: Seq<(Seq<char>, Seq<char>)>, n: Seq<char>)
    requires
        distinct_keys(props),
    ensures
        last_value(exact(props), n) == match lookup(props, n) {
            Some(raw) => custom_value(raw),
            None => None,
        },
    decreases props.len(),
{
    if props.len() == 0 {
        assert(!has_key(props, n));
    } else {
        let front = props.drop_last();
        let (k, raw) = props.last();
        assert(distinct_keys(front)) by {
            assert forall|i: int, j: int| 0 <= i < j < front.len() implies (#[trigger] front[i]).0
                != (#[trigger] front[j]).0 by {
                assert(props[i].0 != props[j].0);
            }
        }
        lemma_exact_value(front, n);
        let step = value_pairs(custom_value(raw), seq![k]);
        lemma_last_value_add(exact(front), step, n);
        if custom_value(raw) is Some {
            lemma_last_value_same(seq![k], custom_value(raw)->0, n);
            assert(seq![k].contains(n) == (n == k)) by {
                assert(seq![k][0] == k);
            }
        }
        if n == k {
            crate::string_map::lemma_lookup_entry(props, props.len() - 1);
            if has_key(front, n) {
                let j = key_index(front, n);
                assert(0 <= j < front.len() && front[j].0 == n);
                assert(props[j].0 != props[props.len() - 1].0);
            }
        } else if has_key(props, n) {
            let j = key_index(props, n);
            assert(0 <= j < props.len() && props[j].0 == n);
            assert(front[j].0 == n);
            crate::string_map::lemma_lookup_entry(front, j);
        } else if has_key(front, n) {
            let j = key_index(front, n);
            assert(0 <= j < front.len() && front[j].0 == n);
            assert(props[j].0 == n);
        }
    }
}

/// A custom property that is set has the value given to it, whatever else would set it.
pub proof fn law_custom_property_wins(p: Profile, n: Seq<char>)
    requires
        distinct_keys(p.custom()),
        has_key(p.custom(), n),
        custom_value(lookup(p.custom(), n)->0) is Some,
    ensures
        lookup(p.property_map(), n) == custom_value(lookup(p.custom(), n)->0),
{
    let none: Seq<(Seq<char>, Seq<char>)> = Seq::empty();
    lemma_exact_value(p.custom(), n);
    lemma_last_value_add(p.field_assignments() + expanded(p.custom()), exact(p.custom()), n);
    law_last_assignment_wins(none, p.assignments(), n);
}

/// The number of the family behind a known custom property.
spec fn known_tag(key: Seq<char>) -> int {
    if key == "ro.product.manufacturer"@ {
        0
    } else if key == "ro.product.brand"@ {
        1
    } else if key == "ro.product.model"@ {
        3
    } else if key == "ro.product.name"@ {
        4
    } else if key == "ro.product.device"@ {
        5
    } else if key == "ro.product.marketname"@ {
        2
    } else if key == "ro.build.fingerprint"@ {
        9
    } else if key == "ro.build.id"@ {
        10
    } else if key == "ro.build.version.release"@ {
        15
    } else if key == "ro.build.version.sdk"@ {
        16
    } else if key == "ro.build.version.incremental"@ {
        12
    } else if key == "ro.build.type"@ {
        17
    } else if key == "ro.build.tags"@ {
        18
    } else {
        -1
    }
}

proof fn lemma_known_tag(key: Seq<char>, n: Seq<char>)
    requires
        known_family(key).contains(n),
    ensures
        tag(n) == known_tag(key),
        known_tag(key) >= 0,
{
    if key == "ro.product.manufacturer"@ {
        lemma_tag_manufacturer(n);
    } else if key == "ro.product.brand"@ {
        lemma_tag_brand(n);
    } else if key == "ro.product.model"@ {
        lemma_tag_model(n);
    } else if key == "ro.product.name"@ {
        lemma_tag_name(n);
    } else if key == "ro.product.device"@ {
        lemma_tag_device(n);
    } else if key == "ro.product.marketname"@ {
        lemma_tag_marketname(n);
    } else if key == "ro.build.fingerprint"@ {
        lemma_tag_fingerprint(n);
    } else if key == "ro.build.id"@ {
        lemma_tag_id(n);
    } else if key == "ro.build.version.release"@ {
        lemma_tag_version_release(n);
    } else if key == "ro.build.version.sdk"@ {
        lemma_tag_version_sdk(n);
    } else if key == "ro.build.version.incremental"@ {
        lemma_tag_version_incremental(n);
    } else if key == "ro.build.type"@ {
        lemma_tag_type(n);
    } else if key == "ro.build.tags"@ {
        lemma_tag_tags(n);
    }
}

/// What the expansion of custom properties assigns to a member of a known family.
proof fn lemma_expanded_value(props: Seq<(Seq<char>, Seq<char>)>, at: int, n: Seq<char>)
    requires
        distinct_keys(props),
        0 <= at < props.len(),
        known_family(props[at].0).contains(n),
    ensures
        last_value(expanded(props), n) == custom_value(props[at].1),
    decreases props.len(),
{
    let front = props.drop_last();
    let (k, raw) = props.last();
    let step = value_pairs(custom_value(raw), known_family(k));
    lemma_last_value_add(expanded(front), step, n);
    if custom_value(raw) is Some {
        lemma_last_value_same(known_family(k), custom_value(raw)->0, n);
    }
    assert(distinct_keys(front)) by {
        assert forall|i: int, j: int| 0 <= i < j < front.len() implies (#[trigger] front[i]).0 != (
        #[trigger] front[j]).0 by {
            assert(props[i].0 != props[j].0);
        }
    }
    if at < props.len() - 1 {
        assert(front[at] == props[at]);
        lemma_expanded_value(front, at, n);
        assert(props[at].0 != props[props.len() - 1].0);
        if known_family(k).contains(n) {
            lemma_known_tag(k, n);
            lemma_known_tag(props[at].0, n);
        }
    } else {
        lemma_expanded_none(front, k, n);
    }
}

/// Entries under other names do not reach a member of a known family.
proof fn lemma_expanded_none(props: Seq<(Seq<char>, Seq<char>)>, key: Seq<char>, n: Seq<char>)
    requires
        known_family(key).contains(n),
        forall|i: int| 0 <= i < props.len() ==> (#[trigger] props[i]).0 != key,
    ensures
        last_value(expanded(props), n) is None,
    decreases props.len(),
{
    if props.len() > 0 {
        let front = props.drop_last();
        let (k, raw) = props.last();
        assert forall|i: int| 0 <= i < front.len() implies (#[trigger] front[i]).0 != key by {
            assert(props[i].0 != key);
        }
        lemma_expanded_none(front, key, n);
        lemma_last_value_add(
            expanded(front),
            value_pairs(custom_value(raw), known_family(k)),
            n,
        );
        if custom_value(raw) is Some {
            lemma_last_value_same(known_family(k), custom_value(raw)->0, n);
        }
        assert(props[props.len() - 1].0 != key);
        if known_family(k).contains(n) {
            lemma_known_tag(k, n);
            lemma_known_tag(key, n);
        }
    }
}

/// A custom property of a known name gives its value to its whole family, the members excepted
/// that are themselves custom properties with a value. The order of the custom properties does
/// not matter.
pub proof fn law_known_custom_property_spreads(p: Profile, at: int, n: Seq<char>)
    requires
        distinct_keys(p.custom()),
        0 <= at < p.custom().len(),
        custom_value(p.custom()[at].1) is Some,
        known_family(p.custom()[at].0).contains(n),
        has_key(p.custom(), n) ==> custom_value(lookup(p.custom(), n)->0) is None,
    ensures
        lookup(p.property_map(), n) == custom_value(p.custom()[at].1),
{
    let none: Seq<(Seq<char>, Seq<char>)> = Seq::empty();
    lemma_exact_value(p.custom(), n);
    lemma_expanded_value(p.custom(), at, n);
    lemma_last_value_add(p.field_assignments(), expanded(p.custom()), n);
    lemma_last_value_add(p.field_assignments() + expanded(p.custom()), exact(p.custom()), n);
    law_last_assignment_wins(none, p.assignments(), n);
}

// ---------------------------------------------------------------------------
// Deleting
// ---------------------------------------------------------------------------

impl Profile {
    /// Each field that can be marked for deletion, with the properties that it stands for.
    pub open spec fn deletable(self) -> Seq<(Option<Seq<char>>, Seq<Seq<char>>)> {
        seq![
            (self.brand, product_family("brand"@)),
            (self.manufacturer, product_family("manufacturer"@)),
            (self.model, product_family("model"@)),
            (self.product_mark(), product_code_names()),
            (self.device, product_family("device"@)),
            (self.marketname, marketname_names()),
            (self.fingerprint, build_family("fingerprint"@)),
            (self.build_id, build_family("id"@)),
            (self.display_id, seq!["ro.build.display.id"@]),
            (self.incremental, build_family("version.incremental"@)),
            (self.security_patch, security_patch_names()),
            (self.characteristics, seq!["ro.build.characteristics"@]),
            (self.hardware, seq!["ro.hardware"@]),
            (self.board, seq!["ro.product.board"@]),
            (self.soc_model, seq!["ro.soc.model"@]),
            (self.android_version, build_family("version.release"@)),
        ]
    }
}

/// The names of the marked fields of a table.
spec fn table_marks(table: Seq<(Option<Seq<char>>, Seq<Seq<char>>)>) -> Seq<Seq<char>>
    decreases table.len(),
{
    if table.len() == 0 {
        Seq::empty()
    } else {
        table_marks(table.drop_last()) + marked_names(table.last().0, table.last().1)
    }
}

proof fn lemma_marks_step(t: Seq<(Option<Seq<char>>, Seq<Seq<char>>)>, i: int)
    requires
        0 <= i < t.len(),
    ensures
        table_marks(t.take(i + 1)) == table_marks(t.take(i)) + marked_names(t[i].0, t[i].1),
{
    assert(t.take(i + 1).drop_last() =~= t.take(i));
    assert(t.take(i + 1).last() == t[i]);
}

proof fn lemma_marks_are_deletions(p: Profile)
    ensures
        table_marks(p.deletable()) == p.field_deletions(),
{
    let t = p.deletable();
    assert(t.take(0).len() == 0);
    lemma_marks_step(t, 0);
    assert(Seq::<Seq<char>>::empty() + marked_names(t[0].0, t[0].1) =~= marked_names(
        t[0].0,
        t[0].1,
    ));
    lemma_marks_step(t, 1);
    lemma_marks_step(t, 2);
    lemma_marks_step(t, 3);
    lemma_marks_step(t, 4);
    lemma_marks_step(t, 5);
    lemma_marks_step(t, 6);
    lemma_marks_step(t, 7);
    lemma_marks_step(t, 8);
    lemma_marks_step(t, 9);
    lemma_marks_step(t, 10);
    lemma_marks_step(t, 11);
    lemma_marks_step(t, 12);
    lemma_marks_step(t, 13);
    lemma_marks_step(t, 14);
    lemma_marks_step(t, 15);
    assert(t.take(16) =~= t);
}

/// A name is among the marked ones where some marked field stands for it.
proof fn lemma_marks_contain(t: Seq<(Option<Seq<char>>, Seq<Seq<char>>)>, n: Seq<char>)
    ensures
        table_marks(t).contains(n) == (exists|i: int|
            0 <= i < t.len() && is_delete((#[trigger] t[i]).0) && t[i].1.contains(n)),
    decreases t.len(),
{
    if t.len() > 0 {
        let front = t.drop_last();
        let last = marked_names(t.last().0, t.last().1);
        lemma_marks_contain(front, n);
        vstd::seq_lib::lemma_seq_concat_contains_all_elements(table_marks(front), last, n);
        if table_marks(front).contains(n) {
            let i = choose|i: int|
                0 <= i < front.len() && is_delete((#[trigger] front[i]).0) && front[i].1.contains(n);
            assert(t[i] == front[i]);
        }
        if last.contains(n) {
            assert(is_delete(t[t.len() - 1].0) && t[t.len() - 1].1.contains(n));
        }
        if exists|i: int|
            0 <= i < t.len() && is_delete((#[trigger] t[i]).0) && t[i].1.contains(n) {
            let i = choose|i: int|
                0 <= i < t.len() && is_delete((#[trigger] t[i]).0) && t[i].1.contains(n);
            if i < t.len() - 1 {
                assert(front[i] == t[i]);
            }
        }
    }
}

/// A property is deleted exactly where a field that stands for it is marked for deletion, or
/// where a custom property is marked whose family it belongs to and no other custom property
/// speaks of it. A custom property whose name is not known is its own family.
pub proof fn law_what_is_deleted(p: Profile, n: Seq<char>)
    ensures
        p.deletions().contains(n) == ((exists|i: int|
            0 <= i < p.deletable().len() && is_delete((#[trigger] p.deletable()[i]).0)
                && p.deletable()[i].1.contains(n)) || (exists|i: int|
            0 <= i < p.custom().len() && deletes(p.custom(), #[trigger] p.custom()[i], n))),
{
    lemma_marks_are_deletions(p);
    lemma_marks_contain(p.deletable(), n);
    lemma_marked_in(p.custom(), p.custom(), n);
    vstd::seq_lib::lemma_seq_concat_contains_all_elements(
        p.field_deletions(),
        custom_deletions(p.custom()),
        n,
    );
}

/// Whether a custom property is marked for deletion and takes a property with it.
pub open spec fn deletes(
    props: Seq<(Seq<char>, Seq<char>)>,
    entry: (Seq<char>, Seq<char>),
    n: Seq<char>,
) -> bool {
    &&& entry.1 == "__DELETE__"@
    &&& n == entry.0 || (known_family(entry.0).contains(n) && !has_value(lookup(props, n)))
}

proof fn lemma_falling(
    props: Seq<(Seq<char>, Seq<char>)>,
    key: Seq<char>,
    names: Seq<Seq<char>>,
    n: Seq<char>,
)
    ensures
        falling(props, key, names).contains(n) == (names.contains(n) && falls_with(props, key, n)),
    decreases names.len(),
{
    if names.len() > 0 {
        let front = names.drop_last();
        let before = falling(props, key, front);
        lemma_falling(props, key, front, n);
        assert(names =~= front.push(names.last()));
        vstd::seq_lib::lemma_seq_contains_after_push(front, names.last(), n);
        vstd::seq_lib::lemma_seq_contains_after_push(before, names.last(), n);
        if names.last() == n {
            assert(front.push(n)[front.len() as int] == n);
            assert(before.push(n)[before.len() as int] == n);
        }
        if names.contains(n) && n != names.last() {
            lemma_pushed(front, names.last(), n);
        }
        if before.push(names.last()).contains(n) && n != names.last() {
            lemma_pushed(before, names.last(), n);
        }
    }
}

/// A known name is a member of its own family.
proof fn lemma_known_member(key: Seq<char>)
    requires
        known_family(key).len() > 0,
    ensures
        known_family(key).contains(key),
{
    reveal_strlit("ro.product.");
    reveal_strlit("ro.build.");
    reveal_strlit("ro.product.manufacturer");
    reveal_strlit("ro.product.brand");
    reveal_strlit("ro.product.model");
    reveal_strlit("ro.product.name");
    reveal_strlit("ro.product.device");
    reveal_strlit("ro.product.marketname");
    reveal_strlit("ro.build.fingerprint");
    reveal_strlit("ro.build.id");
    reveal_strlit("ro.build.version.release");
    reveal_strlit("ro.build.version.sdk");
    reveal_strlit("ro.build.version.incremental");
    reveal_strlit("ro.build.type");
    reveal_strlit("ro.build.tags");
    reveal_strlit("manufacturer");
    reveal_strlit("brand");
    reveal_strlit("model");
    reveal_strlit("name");
    reveal_strlit("device");
    reveal_strlit("marketname");
    reveal_strlit("fingerprint");
    reveal_strlit("id");
    reveal_strlit("version.release");
    reveal_strlit("version.sdk");
    reveal_strlit("version.incremental");
    reveal_strlit("type");
    reveal_strlit("tags");
    assert(known_family(key)[0] =~= key);
}

proof fn lemma_marked_in(
    props: Seq<(Seq<char>, Seq<char>)>,
    part: Seq<(Seq<char>, Seq<char>)>,
    n: Seq<char>,
)
    ensures
        marked_in(props, part).contains(n) == (exists|i: int|
            0 <= i < part.len() && deletes(props, #[trigger] part[i], n)),
    decreases part.len(),
{
    if part.len() > 0 {
        let front = part.drop_last();
        let before = marked_in(props, front);
        let (key, raw) = part.last();
        lemma_marked_in(props, front, n);
        if raw == "__DELETE__"@ {
            vstd::seq_lib::lemma_seq_concat_contains_all_elements(before, deleted_by(props, key), n);
            if known_family(key).len() == 0 {
                assert(seq![key].contains(n) == (n == key)) by {
                    assert(seq![key][0] == key);
                }
                assert(!known_family(key).contains(n));
            } else {
                lemma_known_member(key);
                lemma_falling(props, key, known_family(key), n);
            }
            assert(deleted_by(props, key).contains(n) == deletes(props, part.last(), n));
        }
        if before.contains(n) {
            let i = choose|i: int|
                0 <= i < front.len() && deletes(props, #[trigger] front[i], n);
            assert(deletes(props, part[i], n));
        }
        if deletes(props, part.last(), n) {
            assert(deletes(props, part[part.len() - 1], n));
        }
        if exists|i: int| 0 <= i < part.len() && deletes(props, #[trigger] part[i], n) {
            let i = choose|i: int| 0 <= i < part.len() && deletes(props, #[trigger] part[i], n);
            if i < part.len() - 1 {
                assert(front[i] == part[i]);
            }
        }
    }
}

/// Deleting a custom property of a known name mirrors setting it: what its mark takes with it, the
/// custom properties do not set.
pub proof fn law_marked_family_is_not_set(p: Profile, at: int, n: Seq<char>)
    requires
        distinct_keys(p.custom()),
        0 <= at < p.custom().len(),
        deletes(p.custom(), p.custom()[at], n),
        known_family(p.custom()[at].0).contains(n),
    ensures
        p.deletions().contains(n),
        untouched_by_custom(p, n),
{
    law_what_is_deleted(p, n);
    lemma_expanded_value(p.custom(), at, n);
    lemma_exact_value(p.custom(), n);
    if n == p.custom()[at].0 {
        crate::string_map::lemma_lookup_entry(p.custom(), at);
    }
    lemma_last_value_add(expanded(p.custom()), exact(p.custom()), n);
}

/// A profile that takes its build increment from its fingerprint shows the same one as a field and
/// as a property, in all copies that no custom property speaks of.
pub proof fn law_increment_of_the_fingerprint(p: Profile, f: Fingerprint, n: Seq<char>)
    requires
        p.parsed_fingerprint() == Some(f),
        !has_value(p.incremental),
        distinct_keys(p.custom()),
        !has_key(p.custom(), "ro.build.version.incremental"@),
        build_family("version.incremental"@).contains(n),
        !has_key(p.custom(), n),
    ensures
        p.completed().incremental == Some(f.incremental),
        lookup(p.completed().custom(), "ro.build.version.incremental"@) == Some(f.incremental),
        lookup(p.completed().property_map(), n) == effective(Some(f.incremental)),
{
    let key = "ro.build.version.incremental"@;
    let props = p.custom();
    let incremented = put_absent(props, key, f.incremental);
    let typed = put_absent(incremented, "ro.build.type"@, f.build_type);
    let all = p.completed().custom();
    assert(all == put_absent(typed, "ro.build.tags"@, f.tags));
    reveal_strlit("ro.build.version.incremental");
    reveal_strlit("ro.build.type");
    reveal_strlit("ro.build.tags");
    law_put_absent_then_lookup(props, key, f.incremental, key);
    lemma_put_absent_keeps(props, key, f.incremental, key);
    law_put_absent_then_lookup(incremented, "ro.build.type"@, f.build_type, key);
    lemma_put_absent_keeps(incremented, "ro.build.type"@, f.build_type, key);
    law_put_absent_then_lookup(typed, "ro.build.tags"@, f.tags, key);
    lemma_put_absent_keeps(typed, "ro.build.tags"@, f.tags, key);
    let at = key_index(all, key);
    assert(has_key(all, key));
    assert(all[at].0 == key);
    crate::string_map::lemma_lookup_entry(all, at);
    let q = p.completed();
    assert(known_family(key) == build_family("version.incremental"@)) by {
        reveal_strlit("ro.product.manufacturer");
        reveal_strlit("ro.product.brand");
        reveal_strlit("ro.product.model");
        reveal_strlit("ro.product.name");
        reveal_strlit("ro.product.device");
        reveal_strlit("ro.product.marketname");
        reveal_strlit("ro.build.fingerprint");
        reveal_strlit("ro.build.id");
        reveal_strlit("ro.build.version.release");
        reveal_strlit("ro.build.version.sdk");
    }
    lemma_expanded_value(all, at, n);
    lemma_exact_value(all, n);
    lemma_last_value_add(expanded(all), exact(all), n);
    if n != key {
        lemma_tag_version_incremental(n);
        lemma_tag_of_variant();
        lemma_put_absent_keeps(props, key, f.incremental, n);
        lemma_put_absent_keeps(incremented, "ro.build.type"@, f.build_type, n);
        lemma_put_absent_keeps(typed, "ro.build.tags"@, f.tags, n);
        assert(!has_key(all, n));
    }
    if custom_value(f.incremental) is Some {
        let none: Seq<(Seq<char>, Seq<char>)> = Seq::empty();
        assert(q.assignments() =~= q.field_assignments() + (expanded(all) + exact(all)));
        lemma_last_value_add(q.field_assignments(), expanded(all) + exact(all), n);
        law_last_assignment_wins(none, q.assignments(), n);
    } else {
        assert(untouched_by_custom(q, n));
        law_field_properties_agree(q, 12, n);
    }
}

/// The type and the tags of a build are no increments.
proof fn lemma_tag_of_variant()
    ensures
        tag("ro.build.type"@) == 17,
        tag("ro.build.tags"@) == 18,
{
    reveal_strlit("ro.build.type");
    reveal_strlit("ro.build.tags");
}

/// The field of the full table that stands for the same properties.
spec fn field_of_deletable(i: int) -> int {
    if i == 0 {
        1
    } else if i == 1 {
        0
    } else if i == 2 {
        3
    } else if i == 3 {
        4
    } else if i == 4 {
        5
    } else if i == 5 {
        2
    } else if i == 6 {
        9
    } else if i == 7 {
        10
    } else if i == 8 {
        11
    } else if i == 9 {
        12
    } else if i == 10 {
        13
    } else if i == 11 {
        14
    } else if i == 12 {
        6
    } else if i == 13 {
        7
    } else if i == 14 {
        8
    } else if i == 15 {
        15
    } else {
        -1
    }
}

/// Deleting mirrors setting: no property that a field deletes is set by a field. Here the
/// product code must not be given as `product` while `name` is marked for deletion, since both
/// stand for the same properties.
pub proof fn law_deleted_properties_are_not_set(p: Profile, n: Seq<char>)
    requires
        p.field_deletions().contains(n),
        untouched_by_custom(p, n),
        !(is_delete(p.name) && effective(p.product) is Some),
    ensures
        lookup(p.property_map(), n) is None,
{
    lemma_marks_are_deletions(p);
    lemma_marks_contain(p.deletable(), n);
    let i = choose|i: int|
        0 <= i < p.deletable().len() && is_delete((#[trigger] p.deletable()[i]).0)
            && p.deletable()[i].1.contains(n);
    let j = field_of_deletable(i);
    assert(p.fields()[j].1 == p.deletable()[i].1);
    assert(p.fields()[j].0 is None);
    law_field_properties_agree(p, j, n);
}

} // verus!
