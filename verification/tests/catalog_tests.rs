use mod_updater::catalog::{
    archive_url, build_catalog, known_packages, manifest_url, parse_version_text,
    PackageDescriptor,
};

#[test]
fn four_known_packages() {
    let pkgs = known_packages();
    assert_eq!(pkgs.len(), 4);
    assert_eq!(pkgs[0].id, "forge_client");
    assert_eq!(pkgs[1].id, "forge_mod");
    assert_eq!(pkgs[2].id, "forge_phone");
    assert_eq!(pkgs[3].id, "forge_server");
    assert_eq!(pkgs[0].manifest_path, "forge_client_version.json");
    assert_eq!(pkgs[0].archive_path, "forge_client.zip");
}

#[test]
fn urls_are_derived_from_the_descriptor() {
    let pkgs = known_packages();
    assert_eq!(
        manifest_url(&pkgs[0]),
        "https://mod.innovativedevsolutions.org/forge_client_version.json"
    );
    assert_eq!(archive_url(&pkgs[0]), "https://mod.innovativedevsolutions.org/forge_client.zip");
}

#[test]
fn version_text_is_trimmed_and_unquoted() {
    assert_eq!(parse_version_text(&String::from("1.2.3")), "1.2.3");
    assert_eq!(parse_version_text(&String::from("\"1.2.3\"")), "1.2.3");
    assert_eq!(parse_version_text(&String::from("  \"2.0\"\r\n")), "2.0");
    assert_eq!(parse_version_text(&String::from("\t 3.1 \n")), "3.1");
    assert_eq!(parse_version_text(&String::from("\"\"v\"\"")), "v");
    assert_eq!(parse_version_text(&String::from("")), "");
    assert_eq!(parse_version_text(&String::from("  \"\"  ")), "");
}

fn descriptor(id: &str) -> PackageDescriptor {
    PackageDescriptor {
        id: String::from(id),
        manifest_path: format!("{}_version.json", id),
        archive_path: format!("{}.zip", id),
    }
}

#[test]
fn failed_fetches_are_omitted_from_the_catalog() {
    // the catalog is best-effort per entry: a package whose manifest
    // could not be read is simply left out, and the call still succeeds
    let fetched = vec![
        (descriptor("forge_client"), Some(String::from("\"1.1.0\"\n"))),
        (descriptor("forge_mod"), None),
        (descriptor("forge_server"), Some(String::from("2.0"))),
    ];
    let catalog = build_catalog(fetched);
    assert_eq!(catalog.len(), 2);
    assert_eq!(catalog[0].name, "forge_client");
    assert_eq!(catalog[0].version, "1.1.0");
    assert_eq!(
        catalog[0].download_url,
        "https://mod.innovativedevsolutions.org/forge_client.zip"
    );
    assert_eq!(catalog[0].checksum, None);
    assert_eq!(catalog[0].size, None);
    assert_eq!(catalog[1].name, "forge_server");
    assert_eq!(catalog[1].version, "2.0");
}

#[test]
fn all_fetches_failing_yields_an_empty_catalog() {
    let fetched = vec![(descriptor("forge_client"), None), (descriptor("forge_mod"), None)];
    let catalog = build_catalog(fetched);
    assert_eq!(catalog.len(), 0);
}
