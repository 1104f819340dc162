use device_faker::fingerprint::FingerprintParts;

#[test]
fn a_fingerprint_is_taken_apart() {
    let parts = FingerprintParts::parse(
        "google/caiman/caiman_d:15/AP4A.250105.002/12701944:user/release-keys",
    )
    .unwrap();
    assert_eq!(parts.brand, "google");
    assert_eq!(parts.product, "caiman");
    assert_eq!(parts.device, "caiman_d");
    assert_eq!(parts.release, "15");
    assert_eq!(parts.build_id, "AP4A.250105.002");
    assert_eq!(parts.incremental, "12701944");
    assert_eq!(parts.build_type, "user");
    assert_eq!(parts.tags, "release-keys");
}

#[test]
fn tags_may_hold_a_colon() {
    let parts = FingerprintParts::parse("a/b/c:1/2/3:user/x:y").unwrap();
    assert_eq!(parts.tags, "x:y");
}

#[test]
fn other_texts_are_no_fingerprints() {
    for s in [
        "",
        "a/b/c",
        "a/b/c:1/2/3",
        "a/b:1/2/3:user/keys",
        "a/b/c/d:1/2/3:user/keys",
        "a/b/c:1/2:user/keys",
        "a/b/c:1/2/3/4:user/keys",
        "a/b/c:1/2/3:user",
        "a/b/c:1/2/3:user/keys/more",
        "/b/c:1/2/3:user/keys",
        "a//c:1/2/3:user/keys",
        "a/b/:1/2/3:user/keys",
        "a/b/c:/2/3:user/keys",
        "a/b/c:1//3:user/keys",
        "a/b/c:1/2/:user/keys",
        "a/b/c:1/2/3:/keys",
        "a/b/c:1/2/3:user/",
    ] {
        assert!(FingerprintParts::parse(s).is_none(), "{}", s);
    }
}
