use nodever::namer::{create_download_url, create_node_windows_download_url, ArchiveKind,
    Platform};

#[test]
fn the_windows_artifact_url_is_exact() {
    let url = create_node_windows_download_url("https://example.org/dist/", "v1.2.3");
    assert_eq!(url, "https://example.org/dist/v1.2.3/node-v1.2.3-win-x64.zip".to_string());
}

#[test]
fn the_general_template_matches_the_windows_one() {
    let general = create_download_url("https://example.org/dist/", "v1.2.3", Platform::WinX64,
        ArchiveKind::Zip);
    let windows = create_node_windows_download_url("https://example.org/dist/", "v1.2.3");
    assert_eq!(general, windows);
}

#[test]
fn each_platform_has_its_tag() {
    assert_eq!(Platform::WinX64.tag(), "win-x64");
    assert_eq!(Platform::LinuxX64.tag(), "linux-x64");
    assert_eq!(Platform::DarwinArm64.tag(), "darwin-arm64");
    assert_eq!(ArchiveKind::Zip.extension(), "zip");
    assert_eq!(ArchiveKind::TarGz.extension(), "tar.gz");
}

#[test]
fn the_general_template_names_other_targets() {
    let url = create_download_url("https://example.org/dist/", "v14.17.0",
        Platform::LinuxX64, ArchiveKind::TarGz);
    assert_eq!(url,
        "https://example.org/dist/v14.17.0/node-v14.17.0-linux-x64.tar.gz".to_string());
}
