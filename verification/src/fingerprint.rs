//! Android build fingerprints: `brand/product/device:release/id/incremental:type/tags`.

use vstd::prelude::*;

use crate::split::{self, lemma_first_cut};
use crate::text;

verus! {

/// The fields of a build fingerprint, as sequences of characters.
#[verifier::ext_equal]
pub struct Fingerprint {
    pub brand: Seq<char>,
    pub product: Seq<char>,
    pub device: Seq<char>,
    pub release: Seq<char>,
    pub build_id: Seq<char>,
    pub incremental: Seq<char>,
    pub build_type: Seq<char>,
    pub tags: Seq<char>,
}

/// A field that is there and does not hold the separator of fields.
pub open spec fn is_field(s: Seq<char>) -> bool {
    s.len() > 0 && !s.contains('/')
}

impl Fingerprint {
    /// Who made the device: `brand/product/device`.
    pub open spec fn identity(self) -> Seq<char> {
        split::join(seq![self.brand, self.product, self.device], '/')
    }

    /// What runs on it: `release/id/incremental`.
    pub open spec fn version(self) -> Seq<char> {
        split::join(seq![self.release, self.build_id, self.incremental], '/')
    }

    /// How it was built: `type/tags`.
    pub open spec fn variant(self) -> Seq<char> {
        split::join(seq![self.build_type, self.tags], '/')
    }

    /// The fingerprint as it is written.
    pub open spec fn text(self) -> Seq<char> {
        self.identity().push(':') + (self.version().push(':') + self.variant())
    }

    /// No field is empty or holds `/`, and the first two groups hold no `:`.
    pub open spec fn wf(self) -> bool {
        &&& is_field(self.brand)
        &&& is_field(self.product)
        &&& is_field(self.device)
        &&& is_field(self.release)
        &&& is_field(self.build_id)
        &&& is_field(self.incremental)
        &&& is_field(self.build_type)
        &&& is_field(self.tags)
        &&& !self.identity().contains(':')
        &&& !self.version().contains(':')
    }
}

/// The text is a fingerprint in the standard form.
pub open spec fn is_fingerprint(s: Seq<char>) -> bool {
    exists|f: Fingerprint| #[trigger] f.wf() && f.text() == s
}

/// The fields of a fingerprint in the standard form.
pub open spec fn fingerprint_of(s: Seq<char>) -> Option<Fingerprint> {
    if is_fingerprint(s) {
        Some(choose|f: Fingerprint| #[trigger] f.wf() && f.text() == s)
    } else {
        None
    }
}

/// The groups of a well-formed fingerprint split into its fields.
proof fn lemma_groups_split(f: Fingerprint)
    requires
        f.wf(),
    ensures
        split::split_on(f.identity(), '/') == seq![f.brand, f.product, f.device],
        split::split_on(f.version(), '/') == seq![f.release, f.build_id, f.incremental],
        split::split_on(f.variant(), '/') == seq![f.build_type, f.tags],
{
    split::lemma_split_join(seq![f.brand, f.product, f.device], '/');
    split::lemma_split_join(seq![f.release, f.build_id, f.incremental], '/');
    split::lemma_split_join(seq![f.build_type, f.tags], '/');
}

/// Two well-formed fingerprints that are written alike are the same, and each is what its
/// text is read as.
pub proof fn law_fingerprint_unique(f: Fingerprint, g: Fingerprint)
    requires
        f.wf(),
        g.wf(),
        f.text() == g.text(),
    ensures
        f == g,
        fingerprint_of(f.text()) == Some(f),
{
    lemma_same_text(f, g);
    let h = choose|h: Fingerprint| #[trigger] h.wf() && h.text() == f.text();
    assert(h.wf() && h.text() == f.text());
    lemma_same_text(f, h);
}

proof fn lemma_same_text(f: Fingerprint, g: Fingerprint)
    requires
        f.wf(),
        g.wf(),
        f.text() == g.text(),
    ensures
        f == g,
{
    lemma_first_cut(
        f.identity(),
        f.version().push(':') + f.variant(),
        g.identity(),
        g.version().push(':') + g.variant(),
        ':',
    );
    lemma_first_cut(f.version(), f.variant(), g.version(), g.variant(), ':');
    lemma_groups_split(f);
    lemma_groups_split(g);
    let fi = seq![f.brand, f.product, f.device];
    let gi = seq![g.brand, g.product, g.device];
    assert(fi[0] == gi[0] && fi[1] == gi[1] && fi[2] == gi[2]);
    let fv = seq![f.release, f.build_id, f.incremental];
    let gv = seq![g.release, g.build_id, g.incremental];
    assert(fv[0] == gv[0] && fv[1] == gv[1] && fv[2] == gv[2]);
    let ft = seq![f.build_type, f.tags];
    let gt = seq![g.build_type, g.tags];
    assert(ft[0] == gt[0] && ft[1] == gt[1]);
}

/// The fingerprint `brand/product/device:release/id/incremental:type/tags` is read as these eight
/// parts, each in its place. No part may be empty or hold a `/`, and those before the second `:`
/// hold no `:`.
pub proof fn law_parts_are_read_in_place(f: Fingerprint)
    requires
        f.brand.len() > 0 && !f.brand.contains('/') && !f.brand.contains(':'),
        f.product.len() > 0 && !f.product.contains('/') && !f.product.contains(':'),
        f.device.len() > 0 && !f.device.contains('/') && !f.device.contains(':'),
        f.release.len() > 0 && !f.release.contains('/') && !f.release.contains(':'),
        f.build_id.len() > 0 && !f.build_id.contains('/') && !f.build_id.contains(':'),
        f.incremental.len() > 0 && !f.incremental.contains('/') && !f.incremental.contains(':'),
        f.build_type.len() > 0 && !f.build_type.contains('/'),
        f.tags.len() > 0 && !f.tags.contains('/'),
    ensures
        fingerprint_of(
            f.brand + "/"@ + f.product + "/"@ + f.device + ":"@ + f.release + "/"@ + f.build_id
                + "/"@ + f.incremental + ":"@ + f.build_type + "/"@ + f.tags,
        ) == Some(f),
{
    lemma_written_out(f);
    lemma_triple_lacks(f.brand, f.product, f.device, ':');
    lemma_triple_lacks(f.release, f.build_id, f.incremental, ':');
    law_fingerprint_unique(f, f);
}

/// A text that is read as a fingerprint is its eight parts with the separators between them, and
/// no part is empty or holds a separator that would end it.
pub proof fn law_only_fingerprints_are_read(s: Seq<char>)
    ensures
        match fingerprint_of(s) {
            Some(f) => {
                &&& s == f.brand + "/"@ + f.product + "/"@ + f.device + ":"@ + f.release + "/"@
                    + f.build_id + "/"@ + f.incremental + ":"@ + f.build_type + "/"@ + f.tags
                &&& f.brand.len() > 0 && !f.brand.contains('/') && !f.brand.contains(':')
                &&& f.product.len() > 0 && !f.product.contains('/') && !f.product.contains(':')
                &&& f.device.len() > 0 && !f.device.contains('/') && !f.device.contains(':')
                &&& f.release.len() > 0 && !f.release.contains('/') && !f.release.contains(':')
                &&& f.build_id.len() > 0 && !f.build_id.contains('/') && !f.build_id.contains(':')
                &&& f.incremental.len() > 0 && !f.incremental.contains('/')
                    && !f.incremental.contains(':')
                &&& f.build_type.len() > 0 && !f.build_type.contains('/')
                &&& f.tags.len() > 0 && !f.tags.contains('/')
            },
            None => true,
        },
{
    if is_fingerprint(s) {
        let f = choose|f: Fingerprint| #[trigger] f.wf() && f.text() == s;
        assert(f.wf() && f.text() == s);
        lemma_written_out(f);
        lemma_triple_lacks(f.brand, f.product, f.device, ':');
        lemma_triple_lacks(f.release, f.build_id, f.incremental, ':');
    }
}

/// A fingerprint as it is written, in one piece.
proof fn lemma_written_out(f: Fingerprint)
    ensures
        f.text() == f.brand + "/"@ + f.product + "/"@ + f.device + ":"@ + f.release + "/"@
            + f.build_id + "/"@ + f.incremental + ":"@ + f.build_type + "/"@ + f.tags,
        f.identity() == f.brand + "/"@ + f.product + "/"@ + f.device,
        f.version() == f.release + "/"@ + f.build_id + "/"@ + f.incremental,
{
    reveal_strlit("/");
    reveal_strlit(":");
    lemma_join_two(f.brand, f.product);
    lemma_join_three(f.brand, f.product, f.device);
    lemma_join_three(f.release, f.build_id, f.incremental);
    lemma_join_two(f.build_type, f.tags);
    assert(f.identity().push(':') =~= f.identity() + ":"@);
    assert(f.version().push(':') =~= f.version() + ":"@);
    assert(f.text() =~= f.brand + "/"@ + f.product + "/"@ + f.device + ":"@ + f.release + "/"@
        + f.build_id + "/"@ + f.incremental + ":"@ + f.build_type + "/"@ + f.tags);
}

proof fn lemma_join_two(a: Seq<char>, b: Seq<char>)
    ensures
        split::join(seq![a, b], '/') == a + "/"@ + b,
{
    reveal_strlit("/");
    assert(seq![a, b].drop_last() =~= seq![a]);
    assert(split::join(seq![a], '/') == a);
    assert(split::join(seq![a, b], '/') =~= a + "/"@ + b);
}

proof fn lemma_join_three(a: Seq<char>, b: Seq<char>, c: Seq<char>)
    ensures
        split::join(seq![a, b, c], '/') == a + "/"@ + b + "/"@ + c,
{
    reveal_strlit("/");
    lemma_join_two(a, b);
    assert(seq![a, b, c].drop_last() =~= seq![a, b]);
    assert(split::join(seq![a, b, c], '/') =~= a + "/"@ + b + "/"@ + c);
}

proof fn lemma_triple_lacks(a: Seq<char>, b: Seq<char>, c: Seq<char>, sep: char)
    requires
        sep != '/',
    ensures
        (a + "/"@ + b + "/"@ + c).contains(sep) <==> a.contains(sep) || b.contains(sep)
            || c.contains(sep),
{
    reveal_strlit("/");
    let s1 = a + "/"@;
    let s2 = s1 + b;
    let s3 = s2 + "/"@;
    vstd::seq_lib::lemma_seq_concat_contains_all_elements(a, "/"@, sep);
    vstd::seq_lib::lemma_seq_concat_contains_all_elements(s1, b, sep);
    vstd::seq_lib::lemma_seq_concat_contains_all_elements(s2, "/"@, sep);
    vstd::seq_lib::lemma_seq_concat_contains_all_elements(s3, c, sep);
    assert(!"/"@.contains(sep)) by {
        assert("/"@.len() == 1 && "/"@[0] == '/');
    }
}

/// The fields of a build fingerprint.
#[derive(Debug)]
pub struct FingerprintParts {
    pub brand: String,
    pub product: String,
    pub device: String,
    pub release: String,
    pub build_id: String,
    pub incremental: String,
    pub build_type: String,
    pub tags: String,
}

impl View for FingerprintParts {
    type V = Fingerprint;

    open spec fn view(&self) -> Fingerprint {
        Fingerprint {
            brand: self.brand@,
            product: self.product@,
            device: self.device@,
            release: self.release@,
            build_id: self.build_id@,
            incremental: self.incremental@,
            build_type: self.build_type@,
            tags: self.tags@,
        }
    }
}

/// Whether every text of a list has at least one character.
fn all_present(parts: &Vec<String>) -> (yes: bool)
    ensures
        yes == (forall|i: int| 0 <= i < parts@.len() ==> (#[trigger] parts@[i])@.len() > 0),
{
    let mut i: usize = 0;
    while i < parts.len()
        invariant
            i <= parts@.len(),
            forall|j: int| 0 <= j < i ==> (#[trigger] parts@[j])@.len() > 0,
        decreases parts@.len() - i,
    {
        if parts[i].as_str().is_empty() {
            return false;
        }
        i = i + 1;
    }
    true
}

impl FingerprintParts {
    /// Reads a fingerprint in the standard form. Any other text gives `None`.
    pub fn parse(fingerprint: &str) -> (out: Option<FingerprintParts>)
        ensures
            match out {
                Some(parts) => fingerprint_of(fingerprint@) == Some(parts@),
                None => fingerprint_of(fingerprint@) is None,
            },
    {
        let (identity, build) = match split::split_once(fingerprint, ':') {
            Some(cut) => cut,
            None => {
                proof {
                    assert forall|f: Fingerprint| #[trigger] f.wf() implies f.text()
                        != fingerprint@ by {
                        assert(f.text()[f.identity().len() as int] == ':');
                    }
                }
                return None;
            },
        };
        let (version, variant) = match split::split_once(&build, ':') {
            Some(cut) => cut,
            None => {
                proof {
                    assert forall|f: Fingerprint| #[trigger] f.wf() implies f.text()
                        != fingerprint@ by {
                        let rest = f.version().push(':') + f.variant();
                        assert(rest[f.version().len() as int] == ':');
                        if f.text() == fingerprint@ {
                            lemma_first_cut(f.identity(), rest, identity@, build@, ':');
                        }
                    }
                }
                return None;
            },
        };
        let i = split::split(&identity, '/');
        let v = split::split(&version, '/');
        let t = split::split(&variant, '/');
        proof {
            assert(text::views(i@).len() == i@.len());
            assert(text::views(v@).len() == v@.len());
            assert(text::views(t@).len() == t@.len());
            assert forall|f: Fingerprint| #[trigger]
                f.wf() && f.text() == fingerprint@ implies text::views(i@) == seq![
                f.brand,
                f.product,
                f.device,
            ] && text::views(v@) == seq![f.release, f.build_id, f.incremental] && text::views(t@)
                == seq![f.build_type, f.tags] by {
                lemma_first_cut(
                    f.identity(),
                    f.version().push(':') + f.variant(),
                    identity@,
                    build@,
                    ':',
                );
                lemma_first_cut(f.version(), f.variant(), version@, variant@, ':');
                lemma_groups_split(f);
            }
        }
        if i.len() != 3 || v.len() != 3 || t.len() != 2 {
            return None;
        }
        if !all_present(&i) || !all_present(&v) || !all_present(&t) {
            proof {
                assert forall|f: Fingerprint| #[trigger] f.wf() implies f.text()
                    != fingerprint@ by {
                    if f.text() == fingerprint@ {
                        let fi = seq![f.brand, f.product, f.device];
                        let fv = seq![f.release, f.build_id, f.incremental];
                        let ft = seq![f.build_type, f.tags];
                        assert(forall|j: int|
                            0 <= j < 3 ==> (#[trigger] i@[j])@ == text::views(i@)[j]);
                        assert(forall|j: int|
                            0 <= j < 3 ==> (#[trigger] v@[j])@ == text::views(v@)[j]);
                        assert(forall|j: int|
                            0 <= j < 2 ==> (#[trigger] t@[j])@ == text::views(t@)[j]);
                    }
                }
            }
            return None;
        }
        let parts = FingerprintParts {
            brand: i[0].clone(),
            product: i[1].clone(),
            device: i[2].clone(),
            release: v[0].clone(),
            build_id: v[1].clone(),
            incremental: v[2].clone(),
            build_type: t[0].clone(),
            tags: t[1].clone(),
        };
        proof {
            let f = parts@;
            split::lemma_join_split(identity@, '/');
            split::lemma_join_split(version@, '/');
            split::lemma_join_split(variant@, '/');
            assert(text::views(i@) =~= seq![f.brand, f.product, f.device]);
            assert(text::views(v@) =~= seq![f.release, f.build_id, f.incremental]);
            assert(text::views(t@) =~= seq![f.build_type, f.tags]);
            assert(f.brand == text::views(i@)[0] && f.product == text::views(i@)[1] && f.device
                == text::views(i@)[2]);
            assert(f.release == text::views(v@)[0] && f.build_id == text::views(v@)[1]
                && f.incremental == text::views(v@)[2]);
            assert(f.build_type == text::views(t@)[0] && f.tags == text::views(t@)[1]);
            assert(f.identity() == identity@);
            assert(f.version() == version@);
            assert(f.variant() == variant@);
            assert(f.wf());
            assert(f.text() == fingerprint@);
            law_fingerprint_unique(f, f);
        }
        Some(parts)
    }
}

} // verus!
