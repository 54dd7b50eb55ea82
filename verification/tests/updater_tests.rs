use taskwheel::updater::{
    archive_kind, find_core_entry, get_arch, get_download_path, is_core_file_name, manifest_url,
    replace_placeholder, resolve_artifact, ArchiveKind, ClashCore, CoreTypeMeta, ManifestVersion,
    Updater, UpdaterError,
};

#[test]
fn arch_names_match_the_release_pipelines() {
    assert_eq!(get_arch("x86_64", "macos"), Ok("darwin-x64".to_string()));
    assert_eq!(get_arch("x86_64", "linux"), Ok("linux-amd64".to_string()));
    assert_eq!(get_arch("x86_64", "windows"), Ok("windows-x86_64".to_string()));
    assert_eq!(get_arch("aarch64", "macos"), Ok("darwin-arm64".to_string()));
    assert_eq!(get_arch("aarch64", "linux"), Ok("linux-aarch64".to_string()));
    assert_eq!(
        get_arch("aarch64", "windows"),
        Err(UpdaterError::UnsupportedPlatform)
    );
    assert_eq!(
        get_arch("riscv64", "linux"),
        Err(UpdaterError::UnsupportedPlatform)
    );
}

#[test]
fn download_paths_are_exact() {
    assert_eq!(
        get_download_path(
            CoreTypeMeta::Mihomo("v1.18".to_string()),
            "mihomo-linux-amd64-v1.18.gz".to_string()
        ),
        "MetaCubeX/mihomo/releases/download/v1.18/mihomo-linux-amd64-v1.18.gz"
    );
    assert_eq!(
        get_download_path(CoreTypeMeta::MihomoAlpha, "m.gz".to_string()),
        "MetaCubeX/mihomo/releases/download/Prerelease-Alpha/m.gz"
    );
    assert_eq!(
        get_download_path(
            CoreTypeMeta::ClashRs("v0.1".to_string()),
            "clash-x86_64".to_string()
        ),
        "Watfaq/clash-rs/releases/download/v0.1/clash-x86_64"
    );
    assert_eq!(
        get_download_path(
            CoreTypeMeta::ClashPremium("2023".to_string()),
            "clash.gz".to_string()
        ),
        "zhongfly/Clash-premium-backup/releases/download/2023/clash.gz"
    );
}

#[test]
fn manifest_url_appends_the_fixed_path() {
    assert_eq!(
        manifest_url("https://mirror.ghproxy.com"),
        "https://mirror.ghproxy.com/greenhat616/clash-nyanpasu/raw/dev/manifest/version.json"
    );
}

#[test]
fn placeholder_substitution() {
    assert_eq!(
        replace_placeholder("mihomo-linux-amd64-{}.gz", "v1.18.1"),
        "mihomo-linux-amd64-v1.18.1.gz"
    );
    assert_eq!(replace_placeholder("no placeholder", "v1"), "no placeholder");
    assert_eq!(replace_placeholder("{}-{}", "x"), "x-x");
    assert_eq!(replace_placeholder("", "x"), "");
}

#[test]
fn resolve_artifact_uses_template_and_version() {
    let mut m = ManifestVersion::default();
    m.latest.mihomo = "v1.18.1".to_string();
    m.arch_template.mihomo.push((
        "linux-amd64".to_string(),
        "mihomo-linux-amd64-{}.gz".to_string(),
    ));
    assert_eq!(
        resolve_artifact(&m, &ClashCore::Mihomo, "linux-amd64"),
        Ok("mihomo-linux-amd64-v1.18.1.gz".to_string())
    );
    assert_eq!(
        resolve_artifact(&m, &ClashCore::Mihomo, "darwin-x64"),
        Err(UpdaterError::InvalidArch)
    );
    assert_eq!(
        resolve_artifact(&m, &ClashCore::ClashRs, "linux-amd64"),
        Err(UpdaterError::InvalidArch)
    );
}

#[test]
fn archive_kinds_by_suffix() {
    assert_eq!(archive_kind("mihomo-linux.gz"), ArchiveKind::Gzip);
    assert_eq!(archive_kind("mihomo-win.zip"), ArchiveKind::Zip);
    assert_eq!(archive_kind("clash-rs-x86_64"), ArchiveKind::Plain);
    assert_eq!(archive_kind("gz"), ArchiveKind::Plain);
    assert_eq!(archive_kind(".gz"), ArchiveKind::Gzip);
}

#[test]
fn core_file_names_inside_archives() {
    assert!(is_core_file_name("mihomo-windows-amd64.exe"));
    assert!(is_core_file_name("some/dir/clash-premium"));
    assert!(!is_core_file_name("README.md"));
    assert!(!is_core_file_name(""));
}

#[test]
fn first_core_entry_is_picked() {
    let names = vec![
        "LICENSE".to_string(),
        "docs/readme".to_string(),
        "bin/mihomo-linux".to_string(),
        "bin/clash-rs".to_string(),
    ];
    assert_eq!(find_core_entry(&names), Ok(2));
    let none = vec!["LICENSE".to_string(), "docs/readme".to_string()];
    assert_eq!(find_core_entry(&none), Err(UpdaterError::CoreFileNotFound));
    assert_eq!(find_core_entry(&Vec::new()), Err(UpdaterError::CoreFileNotFound));
}

#[test]
fn updater_defaults_and_manifest_storage() {
    let mut u = Updater::new();
    assert_eq!(u.mirror, "https://mirror.ghproxy.com");
    assert_eq!(u.get_latest_versions().mihomo, "");
    let mut m = ManifestVersion::default();
    m.manifest_version = 3;
    m.latest.mihomo = "v1.18.1".to_string();
    m.latest.clash_rs = "v0.2.0".to_string();
    u.set_manifest(m);
    let latest = u.get_latest_versions();
    assert_eq!(latest.mihomo, "v1.18.1");
    assert_eq!(latest.clash_rs, "v0.2.0");
    assert_eq!(latest.mihomo_alpha, "");
}
