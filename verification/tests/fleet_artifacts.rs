use mimofan_core::fleet::artifacts::artifact_checksum;

#[test]
fn artifact_checksum_is_the_sha256_in_lower_hex() {
    assert_eq!(
        artifact_checksum(b"abc"),
        "sha256:ba7816bf8f01cfea414140de5dae2223b00361a396177a9cb410ff61f20015ad"
    );
    assert_eq!(
        artifact_checksum(b""),
        "sha256:e3b0c44298fc1c149afbf4c8996fb92427ae41e4649b934ca495991b7852b855"
    );
    assert_ne!(artifact_checksum(b"abd"), artifact_checksum(b"abc"));
}
