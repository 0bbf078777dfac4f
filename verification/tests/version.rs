use adm::version;

#[test]
fn version_matches_package() {
    assert_eq!(version(), "0.1.0");
}
