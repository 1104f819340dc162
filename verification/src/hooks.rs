//! The static fields of `android.os.Build` that an app is shown.

use vstd::prelude::*;

use crate::profile::{effective, MergedAppConfig, Profile};
use crate::property_laws::{law_field_properties_agree, untouched_by_custom};
use crate::string_map::lookup;
use crate::text;

verus! {

/// What is written to a static field.
#[derive(Debug)]
pub enum FieldValue {
    Text(String),
    Int(i32),
}

/// One write to a static field.
#[derive(Debug)]
pub struct FieldWrite {
    pub field: &'static str,
    pub value: FieldValue,
}

/// The writes to the two classes, each list in order.
#[derive(Debug)]
pub struct BuildHooks {
    /// The writes to `android.os.Build`.
    pub build: Vec<FieldWrite>,
    /// The writes to `android.os.Build.VERSION`, which come after the others.
    pub version: Vec<FieldWrite>,
}

/// What is written to a static field, a text as a sequence of characters.
pub enum Written {
    Text(Seq<char>),
    Int(int),
}

impl View for FieldWrite {
    type V = (Seq<char>, Written);

    open spec fn view(&self) -> (Seq<char>, Written) {
        (
            self.field@,
            match self.value {
                FieldValue::Text(s) => Written::Text(s@),
                FieldValue::Int(n) => Written::Int(n as int),
            },
        )
    }
}

/// The writes of a list.
pub open spec fn writes(list: Seq<FieldWrite>) -> Seq<(Seq<char>, Written)> {
    list.map_values(|w: FieldWrite| w@)
}

/// Writes what a profile field stands for, where that is anything.
pub open spec fn text_write(field: Seq<char>, value: Option<Seq<char>>) -> Seq<
    (Seq<char>, Written),
> {
    match effective(value) {
        Some(v) => seq![(field, Written::Text(v))],
        None => Seq::empty(),
    }
}

/// An unsigned number of 32 bits, read as a signed one.
pub open spec fn as_signed(n: u32) -> int {
    if n <= 0x7fff_ffff {
        n as int
    } else {
        n - 0x1_0000_0000
    }
}

/// Writes a number, where there is one.
pub open spec fn int_write(field: Seq<char>, value: Option<u32>) -> Seq<(Seq<char>, Written)> {
    match value {
        Some(n) => seq![(field, Written::Int(as_signed(n)))],
        None => Seq::empty(),
    }
}

impl Profile {
    /// The writes to `android.os.Build`.
    pub open spec fn build_writes(self) -> Seq<(Seq<char>, Written)> {
        text_write("MANUFACTURER"@, self.manufacturer)
            + text_write("BRAND"@, self.brand)
            + text_write("MODEL"@, self.model)
            + text_write("DEVICE"@, self.device)
            + text_write("PRODUCT"@, self.product)
            + text_write("HARDWARE"@, self.hardware)
            + text_write("BOARD"@, self.board)
            + text_write("SOC_MODEL"@, self.soc_model)
            + text_write("FINGERPRINT"@, self.fingerprint)
            + text_write("ID"@, self.build_id)
            + text_write("DISPLAY"@, self.display_id)
    }

    /// The writes to `android.os.Build.VERSION`.
    pub open spec fn version_writes(self) -> Seq<(Seq<char>, Written)> {
        text_write("RELEASE"@, self.android_version)
            + int_write("SDK_INT"@, self.sdk_int)
            + text_write("INCREMENTAL"@, self.incremental)
            + text_write("SECURITY_PATCH"@, self.security_patch)
    }
}

/// The value that a profile field stands for.
pub fn field_str(field: &Option<String>) -> (out: Option<&str>)
    ensures
        match out {
            Some(v) => effective(text::opt_view(*field)) == Some(v@),
            None => effective(text::opt_view(*field)) is None,
        },
{
    match field {
        Some(value) => {
            if value.as_str().is_empty() || text::same(value, "__DELETE__") {
                None
            } else if text::same(value, "__EMPTY__") {
                assert(""@ =~= Seq::<char>::empty()) by {
                    reveal_strlit("");
                }
                Some("")
            } else {
                Some(value.as_str())
            }
        },
        None => None,
    }
}

/// Reads an unsigned number of 32 bits as a signed one.
fn to_signed(n: u32) -> (out: i32)
    ensures
        out == as_signed(n),
{
    if n <= 0x7fff_ffff {
        n as i32
    } else {
        -((0xffff_ffff - n) as i32) - 1
    }
}

/// Puts the write of what a profile field stands for, where that is anything, on the list.
fn push_field(out: &mut Vec<FieldWrite>, field: &'static str, value: &Option<String>)
    ensures
        writes(final(out)@) == writes(old(out)@) + text_write(field@, text::opt_view(*value)),
{
    let ghost before = out@;
    match field_str(value) {
        Some(v) => {
            let w = FieldWrite { field, value: FieldValue::Text(v.to_string()) };
            let ghost g = w;
            out.push(w);
            assert(writes(before.push(g)) =~= writes(before) + seq![g@]);
        },
        None => {
            assert(writes(before) + Seq::<(Seq<char>, Written)>::empty() =~= writes(before));
        },
    }
}

/// The writes that show an app the device of its profile.
pub fn hook_build_fields(merged_config: &MergedAppConfig) -> (out: BuildHooks)
    ensures
        writes(out.build@) == merged_config@.build_writes(),
        writes(out.version@) == merged_config@.version_writes(),
{
    let ghost p = merged_config@;
    let ghost mut done: Seq<(Seq<char>, Written)> = Seq::empty();
    let mut out: Vec<FieldWrite> = Vec::new();
    assert(writes(out@) =~= done);
    push_field(&mut out, "MANUFACTURER", &merged_config.manufacturer);
    proof {
        done = done + text_write("MANUFACTURER"@, p.manufacturer);
    }
    push_field(&mut out, "BRAND", &merged_config.brand);
    proof {
        done = done + text_write("BRAND"@, p.brand);
    }
    push_field(&mut out, "MODEL", &merged_config.model);
    proof {
        done = done + text_write("MODEL"@, p.model);
    }
    push_field(&mut out, "DEVICE", &merged_config.device);
    proof {
        done = done + text_write("DEVICE"@, p.device);
    }
    push_field(&mut out, "PRODUCT", &merged_config.product);
    proof {
        done = done + text_write("PRODUCT"@, p.product);
    }
    push_field(&mut out, "HARDWARE", &merged_config.hardware);
    proof {
        done = done + text_write("HARDWARE"@, p.hardware);
    }
    push_field(&mut out, "BOARD", &merged_config.board);
    proof {
        done = done + text_write("BOARD"@, p.board);
    }
    push_field(&mut out, "SOC_MODEL", &merged_config.soc_model);
    proof {
        done = done + text_write("SOC_MODEL"@, p.soc_model);
    }
    push_field(&mut out, "FINGERPRINT", &merged_config.fingerprint);
    proof {
        done = done + text_write("FINGERPRINT"@, p.fingerprint);
    }
    push_field(&mut out, "ID", &merged_config.build_id);
    proof {
        done = done + text_write("ID"@, p.build_id);
    }
    push_field(&mut out, "DISPLAY", &merged_config.display_id);
    proof {
        done = done + text_write("DISPLAY"@, p.display_id);
    }
    proof {
        let first = text_write("MANUFACTURER"@, p.manufacturer);
        assert(Seq::<(Seq<char>, Written)>::empty() + first =~= first);
    }
    assert(done == p.build_writes());
    BuildHooks { build: out, version: hook_version_fields(merged_config) }
}

/// The writes to the fields of the version.
pub fn hook_version_fields(merged_config: &MergedAppConfig) -> (out: Vec<FieldWrite>)
    ensures
        writes(out@) == merged_config@.version_writes(),
{
    let ghost p = merged_config@;
    let mut out: Vec<FieldWrite> = Vec::new();
    let ghost none: Seq<(Seq<char>, Written)> = Seq::empty();
    assert(writes(out@) =~= none);
    push_field(&mut out, "RELEASE", &merged_config.android_version);
    let ghost release = text_write("RELEASE"@, p.android_version);
    assert(none + release =~= release);
    match merged_config.sdk_int {
        Some(n) => {
            let ghost before = out@;
            let w = FieldWrite { field: "SDK_INT", value: FieldValue::Int(to_signed(n)) };
            let ghost g = w;
            out.push(w);
            assert(writes(before.push(g)) =~= writes(before) + seq![g@]);
        },
        None => {
            assert(release + none =~= release);
        },
    }
    push_field(&mut out, "INCREMENTAL", &merged_config.incremental);
    push_field(&mut out, "SECURITY_PATCH", &merged_config.security_patch);
    out
}

// ---------------------------------------------------------------------------
// Fields and properties
// ---------------------------------------------------------------------------

impl Profile {
    /// Each hooked text field with its value, and the number of the profile field that its
    /// property belongs to.
    pub open spec fn hooked(self) -> Seq<(Seq<char>, Option<Seq<char>>, int)> {
        seq![
            ("MANUFACTURER"@, effective(self.manufacturer), 0),
            ("BRAND"@, effective(self.brand), 1),
            ("MODEL"@, effective(self.model), 3),
            ("DEVICE"@, effective(self.device), 5),
            ("PRODUCT"@, effective(self.product), 4),
            ("HARDWARE"@, effective(self.hardware), 6),
            ("BOARD"@, effective(self.board), 7),
            ("SOC_MODEL"@, effective(self.soc_model), 8),
            ("FINGERPRINT"@, effective(self.fingerprint), 9),
            ("ID"@, effective(self.build_id), 10),
            ("DISPLAY"@, effective(self.display_id), 11),
            ("RELEASE"@, effective(self.android_version), 15),
            ("INCREMENTAL"@, effective(self.incremental), 12),
            ("SECURITY_PATCH"@, effective(self.security_patch), 13),
        ]
    }
}

/// A static field and the property behind it show the same value. Custom properties may
/// override the property.
pub proof fn law_fields_match_properties(p: Profile, i: int)
    requires
        0 <= i < p.hooked().len(),
        p.hooked()[i].1 is Some,
        untouched_by_custom(p, p.fields()[p.hooked()[i].2].1[0]),
    ensures
        lookup(p.property_map(), p.fields()[p.hooked()[i].2].1[0]) == p.hooked()[i].1,
{
    let k = p.hooked()[i].2;
    let names = p.fields()[k].1;
    assert(names.len() > 0);
    assert(names.contains(names[0]));
    law_field_properties_agree(p, k, names[0]);
}

/// The hooked fields are written exactly where they have a value.
pub proof fn law_every_hooked_field_is_written(p: Profile, i: int, v: Seq<char>)
    requires
        0 <= i < p.hooked().len(),
        p.hooked()[i].1 == Some(v),
    ensures
        (p.build_writes() + p.version_writes()).contains((p.hooked()[i].0, Written::Text(v))),
{
    let all = p.build_writes() + p.version_writes();
    let w = (p.hooked()[i].0, Written::Text(v));
    broadcast use vstd::seq_lib::lemma_seq_concat_contains_all_elements;

    assert(seq![w].contains(w)) by {
        assert(seq![w][0] == w);
    }
}

// ---------------------------------------------------------------------------
// The writes to each field
// ---------------------------------------------------------------------------

/// Picks the writes to a field.
pub open spec fn is_to(field: Seq<char>) -> spec_fn((Seq<char>, Written)) -> bool {
    |w: (Seq<char>, Written)| w.0 == field
}

/// The writes of a list to one field.
pub open spec fn writes_to(list: Seq<(Seq<char>, Written)>, field: Seq<char>) -> Seq<Written> {
    list.filter(is_to(field)).map_values(|w: (Seq<char>, Written)| w.1)
}

/// What is written to a field that shows a text of the profile: that text once, and nothing where
/// the profile has none.
pub open spec fn shown(value: Option<Seq<char>>) -> Seq<Written> {
    match effective(value) {
        Some(v) => seq![Written::Text(v)],
        None => Seq::empty(),
    }
}

/// The writes of two lists are those of the one, then those of the other.
proof fn lemma_writes_add(
    a: Seq<(Seq<char>, Written)>,
    b: Seq<(Seq<char>, Written)>,
    field: Seq<char>,
)
    ensures
        writes_to(a + b, field) == writes_to(a, field) + writes_to(b, field),
{
    Seq::filter_distributes_over_add(a, b, is_to(field));
    assert(writes_to(a + b, field) =~= writes_to(a, field) + writes_to(b, field));
}

/// A single write is one to its own field and to no other.
proof fn lemma_writes_one(name: Seq<char>, value: Written, field: Seq<char>)
    ensures
        writes_to(seq![(name, value)], field) == if name == field {
            seq![value]
        } else {
            Seq::empty()
        },
        writes_to(Seq::empty(), field) == Seq::<Written>::empty(),
{
    reveal(Seq::filter);
    let wanted = is_to(field);
    let one = seq![(name, value)];
    assert(one.drop_last() =~= Seq::empty());
    assert(Seq::<(Seq<char>, Written)>::empty().filter(wanted) =~= Seq::empty());
    assert(one.filter(wanted) =~= if name == field {
        one
    } else {
        Seq::empty()
    });
    assert(writes_to(one, field) =~= if name == field {
        seq![value]
    } else {
        Seq::empty()
    });
    assert(writes_to(Seq::empty(), field) =~= Seq::<Written>::empty());
}

/// The writes of a text are those to its own field.
proof fn lemma_writes_text(name: Seq<char>, value: Option<Seq<char>>, field: Seq<char>)
    ensures
        writes_to(text_write(name, value), field) == if name == field {
            shown(value)
        } else {
            Seq::empty()
        },
{
    match effective(value) {
        Some(v) => {
            lemma_writes_one(name, Written::Text(v), field);
        },
        None => {
            lemma_writes_one(name, Written::Int(0), field);
        },
    }
}

/// The names of the fields are different.
proof fn lemma_field_names()
    ensures
        "MANUFACTURER"@ != "BRAND"@,
        "MANUFACTURER"@ != "MODEL"@,
        "MANUFACTURER"@ != "DEVICE"@,
        "MANUFACTURER"@ != "PRODUCT"@,
        "MANUFACTURER"@ != "HARDWARE"@,
        "MANUFACTURER"@ != "BOARD"@,
        "MANUFACTURER"@ != "SOC_MODEL"@,
        "MANUFACTURER"@ != "FINGERPRINT"@,
        "MANUFACTURER"@ != "ID"@,
        "MANUFACTURER"@ != "DISPLAY"@,
        "BRAND"@ != "MODEL"@,
        "BRAND"@ != "DEVICE"@,
        "BRAND"@ != "PRODUCT"@,
        "BRAND"@ != "HARDWARE"@,
        "BRAND"@ != "BOARD"@,
        "BRAND"@ != "SOC_MODEL"@,
        "BRAND"@ != "FINGERPRINT"@,
        "BRAND"@ != "ID"@,
        "BRAND"@ != "DISPLAY"@,
        "MODEL"@ != "DEVICE"@,
        "MODEL"@ != "PRODUCT"@,
        "MODEL"@ != "HARDWARE"@,
        "MODEL"@ != "BOARD"@,
        "MODEL"@ != "SOC_MODEL"@,
        "MODEL"@ != "FINGERPRINT"@,
        "MODEL"@ != "ID"@,
        "MODEL"@ != "DISPLAY"@,
        "DEVICE"@ != "PRODUCT"@,
        "DEVICE"@ != "HARDWARE"@,
        "DEVICE"@ != "BOARD"@,
        "DEVICE"@ != "SOC_MODEL"@,
        "DEVICE"@ != "FINGERPRINT"@,
        "DEVICE"@ != "ID"@,
        "DEVICE"@ != "DISPLAY"@,
        "PRODUCT"@ != "HARDWARE"@,
        "PRODUCT"@ != "BOARD"@,
        "PRODUCT"@ != "SOC_MODEL"@,
        "PRODUCT"@ != "FINGERPRINT"@,
        "PRODUCT"@ != "ID"@,
        "PRODUCT"@ != "DISPLAY"@,
        "HARDWARE"@ != "BOARD"@,
        "HARDWARE"@ != "SOC_MODEL"@,
        "HARDWARE"@ != "FINGERPRINT"@,
        "HARDWARE"@ != "ID"@,
        "HARDWARE"@ != "DISPLAY"@,
        "BOARD"@ != "SOC_MODEL"@,
        "BOARD"@ != "FINGERPRINT"@,
        "BOARD"@ != "ID"@,
        "BOARD"@ != "DISPLAY"@,
        "SOC_MODEL"@ != "FINGERPRINT"@,
        "SOC_MODEL"@ != "ID"@,
        "SOC_MODEL"@ != "DISPLAY"@,
        "FINGERPRINT"@ != "ID"@,
        "FINGERPRINT"@ != "DISPLAY"@,
        "ID"@ != "DISPLAY"@,
{
    reveal_strlit("MANUFACTURER");
    reveal_strlit("BRAND");
    reveal_strlit("MODEL");
    reveal_strlit("DEVICE");
    reveal_strlit("PRODUCT");
    reveal_strlit("HARDWARE");
    reveal_strlit("BOARD");
    reveal_strlit("SOC_MODEL");
    reveal_strlit("FINGERPRINT");
    reveal_strlit("ID");
    reveal_strlit("DISPLAY");
    assert("MANUFACTURER"@.len() == 12);
    assert("BRAND"@.len() == 5);
    assert("MODEL"@.len() == 5);
    assert("DEVICE"@.len() == 6);
    assert("PRODUCT"@.len() == 7);
    assert("HARDWARE"@.len() == 8);
    assert("BOARD"@.len() == 5);
    assert("SOC_MODEL"@.len() == 9);
    assert("FINGERPRINT"@.len() == 11);
    assert("ID"@.len() == 2);
    assert("DISPLAY"@.len() == 7);
    assert("BRAND"@[0] == 'B' && "MODEL"@[0] == 'M');
    assert("BRAND"@[1] == 'R' && "BOARD"@[1] == 'O');
    assert("MODEL"@[0] == 'M' && "BOARD"@[0] == 'B');
    assert("PRODUCT"@[0] == 'P' && "DISPLAY"@[0] == 'D');
}

/// The writes to `android.os.Build`, field by field: each shows its own part of the profile, once,
/// and is left alone where the profile has no such part. No other field is written.
#[verifier::rlimit(50)]
pub proof fn law_build_fields(p: Profile, field: Seq<char>)
    ensures
        field == "MANUFACTURER"@ ==> writes_to(p.build_writes(), field) == shown(p.manufacturer),
        field == "BRAND"@ ==> writes_to(p.build_writes(), field) == shown(p.brand),
        field == "MODEL"@ ==> writes_to(p.build_writes(), field) == shown(p.model),
        field == "DEVICE"@ ==> writes_to(p.build_writes(), field) == shown(p.device),
        field == "PRODUCT"@ ==> writes_to(p.build_writes(), field) == shown(p.product),
        field == "HARDWARE"@ ==> writes_to(p.build_writes(), field) == shown(p.hardware),
        field == "BOARD"@ ==> writes_to(p.build_writes(), field) == shown(p.board),
        field == "SOC_MODEL"@ ==> writes_to(p.build_writes(), field) == shown(p.soc_model),
        field == "FINGERPRINT"@ ==> writes_to(p.build_writes(), field) == shown(p.fingerprint),
        field == "ID"@ ==> writes_to(p.build_writes(), field) == shown(p.build_id),
        field == "DISPLAY"@ ==> writes_to(p.build_writes(), field) == shown(p.display_id),
        field != "MANUFACTURER"@ && field != "BRAND"@ && field != "MODEL"@ && field != "DEVICE"@
            && field != "PRODUCT"@ && field != "HARDWARE"@ && field != "BOARD"@
            && field != "SOC_MODEL"@ && field != "FINGERPRINT"@ && field != "ID"@
            && field != "DISPLAY"@
            ==> writes_to(p.build_writes(), field).len() == 0,
{
    lemma_field_names();
    lemma_writes_text("MANUFACTURER"@, p.manufacturer, field);
    let w0 = text_write("MANUFACTURER"@, p.manufacturer);
    lemma_writes_text("BRAND"@, p.brand, field);
    let w1 = w0 + text_write("BRAND"@, p.brand);
    lemma_writes_add(w0, text_write("BRAND"@, p.brand), field);
    lemma_writes_text("MODEL"@, p.model, field);
    let w2 = w1 + text_write("MODEL"@, p.model);
    lemma_writes_add(w1, text_write("MODEL"@, p.model), field);
    lemma_writes_text("DEVICE"@, p.device, field);
    let w3 = w2 + text_write("DEVICE"@, p.device);
    lemma_writes_add(w2, text_write("DEVICE"@, p.device), field);
    lemma_writes_text("PRODUCT"@, p.product, field);
    let w4 = w3 + text_write("PRODUCT"@, p.product);
    lemma_writes_add(w3, text_write("PRODUCT"@, p.product), field);
    lemma_writes_text("HARDWARE"@, p.hardware, field);
    let w5 = w4 + text_write("HARDWARE"@, p.hardware);
    lemma_writes_add(w4, text_write("HARDWARE"@, p.hardware), field);
    lemma_writes_text("BOARD"@, p.board, field);
    let w6 = w5 + text_write("BOARD"@, p.board);
    lemma_writes_add(w5, text_write("BOARD"@, p.board), field);
    lemma_writes_text("SOC_MODEL"@, p.soc_model, field);
    let w7 = w6 + text_write("SOC_MODEL"@, p.soc_model);
    lemma_writes_add(w6, text_write("SOC_MODEL"@, p.soc_model), field);
    lemma_writes_text("FINGERPRINT"@, p.fingerprint, field);
    let w8 = w7 + text_write("FINGERPRINT"@, p.fingerprint);
    lemma_writes_add(w7, text_write("FINGERPRINT"@, p.fingerprint), field);
    lemma_writes_text("ID"@, p.build_id, field);
    let w9 = w8 + text_write("ID"@, p.build_id);
    lemma_writes_add(w8, text_write("ID"@, p.build_id), field);
    lemma_writes_text("DISPLAY"@, p.display_id, field);
    let w10 = w9 + text_write("DISPLAY"@, p.display_id);
    lemma_writes_add(w9, text_write("DISPLAY"@, p.display_id), field);
    assert(p.build_writes() == w10);
    lemma_left_empty(shown(p.manufacturer));
    lemma_left_empty(shown(p.brand));
    lemma_left_empty(shown(p.model));
    lemma_left_empty(shown(p.device));
    lemma_left_empty(shown(p.product));
    lemma_left_empty(shown(p.hardware));
    lemma_left_empty(shown(p.board));
    lemma_left_empty(shown(p.soc_model));
    lemma_left_empty(shown(p.fingerprint));
    lemma_left_empty(shown(p.build_id));
    lemma_left_empty(shown(p.display_id));
}

/// Nothing before or after a list leaves it as it is.
proof fn lemma_left_empty(list: Seq<Written>)
    ensures
        Seq::<Written>::empty() + list == list,
        list + Seq::<Written>::empty() == list,
        Seq::<Written>::empty() + Seq::<Written>::empty() == Seq::<Written>::empty(),
{
    assert(Seq::<Written>::empty() + list =~= list);
    assert(list + Seq::<Written>::empty() =~= list);
    assert(Seq::<Written>::empty() + Seq::<Written>::empty() =~= Seq::<Written>::empty());
}

/// The writes to `android.os.Build.VERSION`, field by field. The SDK level is written as it is,
/// once, where the profile has one, and not at all where it has none; one that is too large for a
/// signed number of 32 bits is written as the negative number of the same bits.
pub proof fn law_version_fields(p: Profile, field: Seq<char>)
    ensures
        field == "RELEASE"@ ==> writes_to(p.version_writes(), field) == shown(p.android_version),
        field == "INCREMENTAL"@ ==> writes_to(p.version_writes(), field) == shown(p.incremental),
        field == "SECURITY_PATCH"@ ==> writes_to(p.version_writes(), field) == shown(
            p.security_patch,
        ),
        field == "SDK_INT"@ ==> match p.sdk_int {
            Some(level) => {
                &&& level <= i32::MAX ==> writes_to(p.version_writes(), field)
                    == seq![Written::Int(level as int)]
                &&& level > i32::MAX ==> writes_to(p.version_writes(), field)
                    == seq![Written::Int(level - 0x1_0000_0000)]
            },
            None => writes_to(p.version_writes(), field).len() == 0,
        },
        field != "RELEASE"@ && field != "INCREMENTAL"@ && field != "SECURITY_PATCH"@ && field
            != "SDK_INT"@ ==> writes_to(p.version_writes(), field).len() == 0,
{
    reveal_strlit("RELEASE");
    reveal_strlit("INCREMENTAL");
    reveal_strlit("SECURITY_PATCH");
    reveal_strlit("SDK_INT");
    assert("RELEASE"@.len() == 7 && "INCREMENTAL"@.len() == 11 && "SECURITY_PATCH"@.len() == 14
        && "SDK_INT"@.len() == 7);
    assert("RELEASE"@[0] == 'R' && "SDK_INT"@[0] == 'S');
    let release = text_write("RELEASE"@, p.android_version);
    let sdk = int_write("SDK_INT"@, p.sdk_int);
    let incremental = text_write("INCREMENTAL"@, p.incremental);
    let patch = text_write("SECURITY_PATCH"@, p.security_patch);
    lemma_writes_text("RELEASE"@, p.android_version, field);
    lemma_writes_text("INCREMENTAL"@, p.incremental, field);
    lemma_writes_text("SECURITY_PATCH"@, p.security_patch, field);
    let number = match p.sdk_int {
        Some(n) => Written::Int(as_signed(n)),
        None => Written::Int(0),
    };
    lemma_writes_one("SDK_INT"@, number, field);
    lemma_writes_add(release, sdk, field);
    lemma_writes_add(release + sdk, incremental, field);
    lemma_writes_add(release + sdk + incremental, patch, field);
    lemma_left_empty(shown(p.android_version));
    lemma_left_empty(shown(p.incremental));
    lemma_left_empty(shown(p.security_patch));
    lemma_left_empty(seq![number]);
}

/// Where the profile has an SDK level, the field `SDK_INT` is written with it, and with nothing
/// else.
pub proof fn law_sdk_level_is_written(p: Profile, n: u32)
    requires
        p.sdk_int == Some(n),
        n <= i32::MAX,
    ensures
        p.version_writes().contains(("SDK_INT"@, Written::Int(n as int))),
        forall|i: int|
            0 <= i < p.version_writes().len() && (#[trigger] p.version_writes()[i]).0 == "SDK_INT"@
                ==> p.version_writes()[i].1 == Written::Int(n as int),
{
    let list = p.version_writes();
    let field = "SDK_INT"@;
    let wanted = is_to(field);
    law_version_fields(p, field);
    let found = list.filter(wanted);
    assert(writes_to(list, field).len() == found.len());
    assert(writes_to(list, field)[0] == found[0].1);
    list.lemma_filter_pred(wanted, 0);
    assert(found.contains(found[0]));
    list.lemma_filter_contains_rev(wanted, found[0]);
    assert forall|i: int|
        0 <= i < list.len() && (#[trigger] list[i]).0 == field implies list[i].1 == Written::Int(
        n as int,
    ) by {
        list.lemma_filter_contains(wanted, i);
        let k = choose|k: int| 0 <= k < found.len() && found[k] == list[i];
        assert(k == 0);
    }
}

} // verus!
