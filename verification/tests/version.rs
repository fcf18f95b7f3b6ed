use ferric_alpha::VERSION;

#[test]
fn crate_version_matches_package_version() {
    assert_eq!(VERSION, "0.1.0");
}
