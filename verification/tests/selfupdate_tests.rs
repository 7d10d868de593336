use rocinante::selfupdate::{
    asset_for, check_digest, checksum_for, classify_install, hex, is_newer, parse_version, release_check,
    sibling, verify_download, Guard, UpdateCheck,
};

#[test]
fn parses_strict_semver_only() {
    assert_eq!(parse_version("0.8.0"), Some((0, 8, 0)));
    assert_eq!(parse_version("v0.8.0"), Some((0, 8, 0)));
    assert_eq!(parse_version("v12.34.56"), Some((12, 34, 56)));
    assert_eq!(parse_version("0.8"), None);
    assert_eq!(parse_version("abc"), None);
    assert_eq!(parse_version("0.8.0-rc1"), None);
    assert_eq!(parse_version("0.8.0.1"), None);
}

#[test]
fn newer_comparison() {
    assert!(is_newer("0.8.1", "0.8.0"));
    assert!(is_newer("0.9.0", "0.8.9"));
    assert!(is_newer("1.0.0", "0.99.99"));
    assert!(is_newer("v0.9.0", "0.8.0"));
    assert!(!is_newer("0.8.0", "0.8.0"));
    assert!(!is_newer("0.7.9", "0.8.0"));
    assert!(!is_newer("garbage", "0.8.0"));
}

#[test]
fn asset_names_match_release_artifacts() {
    assert_eq!(asset_for("macos", "aarch64"), Some("rocinante-aarch64-apple-darwin.tar.gz"));
    assert_eq!(asset_for("macos", "x86_64"), Some("rocinante-x86_64-apple-darwin.tar.gz"));
    assert_eq!(asset_for("linux", "x86_64"), Some("rocinante-x86_64-unknown-linux-musl.tar.gz"));
    assert_eq!(asset_for("linux", "aarch64"), Some("rocinante-aarch64-unknown-linux-musl.tar.gz"));
    assert_eq!(asset_for("windows", "x86_64"), Some("rocinante-x86_64-pc-windows-msvc.zip"));
    assert_eq!(asset_for("linux", "riscv64"), None);
    assert_eq!(asset_for("freebsd", "x86_64"), None);
}

#[test]
fn finds_checksums_in_sha256sum_format() {
    let sums = "aaaa  rocinante-x86_64-apple-darwin.tar.gz\n\
                bbbb rocinante-aarch64-apple-darwin.tar.gz\n\
                cccc  rocinante-x86_64-pc-windows-msvc.zip\n";
    assert_eq!(checksum_for(sums, "rocinante-aarch64-apple-darwin.tar.gz").as_deref(), Some("bbbb"));
    assert_eq!(checksum_for(sums, "rocinante-x86_64-pc-windows-msvc.zip").as_deref(), Some("cccc"));
    assert_eq!(checksum_for(sums, "rocinante-missing.tar.gz"), None);
}

#[test]
fn classifies_install_locations() {
    let home = "/Users/x";
    let class = |p: &str| classify_install(p, Some(home));
    assert_eq!(class("/opt/homebrew/bin/rocinante"), Some(Guard::Homebrew));
    assert_eq!(class("/usr/local/Cellar/rocinante/0.8.0/bin/rocinante"), Some(Guard::Homebrew));
    assert_eq!(class("/Users/x/scoop/apps/rocinante/current/rocinante.exe"), Some(Guard::Scoop));
    assert_eq!(class("/Users/x/Scoop/apps/rocinante/current/rocinante.exe"), Some(Guard::Scoop));
    assert_eq!(class("/Users/x/.cargo/bin/rocinante"), Some(Guard::CargoBin));
    assert_eq!(class("/Users/x/.local/bin/rocinante"), None);
    assert_eq!(class("/usr/local/bin/rocinante"), None);
}

#[test]
fn sibling_preserves_full_name() {
    assert_eq!(sibling("/bin/rocinante", "old"), "/bin/rocinante.old");
    assert_eq!(sibling("C:/r/rocinante.exe", "old"), "C:/r/rocinante.exe.old");
}

#[test]
fn hex_encodes_lowercase() {
    assert_eq!(hex(&[0x00, 0xab, 0xff]), "00abff");
}

#[test]
fn guard_advice_and_blocking() {
    assert!(Guard::Homebrew.blocks_update());
    assert!(Guard::Scoop.blocks_update());
    assert!(!Guard::CargoBin.blocks_update());
    assert!(Guard::Homebrew.advice().contains("brew upgrade rocinante"));
}

#[test]
fn release_check_compares_tags() {
    assert_eq!(
        release_check("v0.9.0", "0.8.0").unwrap(),
        UpdateCheck::Available { current: "0.8.0".into(), latest: "0.9.0".into(), tag: "v0.9.0".into() }
    );
    assert_eq!(release_check("v0.8.0", "0.8.0").unwrap(), UpdateCheck::UpToDate { current: "0.8.0".into() });
    assert_eq!(release_check("nightly", "0.8.0").unwrap_err(), "cannot parse release version from tag `nightly`");
}

#[test]
fn download_checksum_must_match() {
    // SHA-256 of the empty input.
    let empty = "e3b0c44298fc1c149afbf4c8996fb92427ae41e4649b934ca495991b7852b855";
    let sums = format!("{empty}  a.tar.gz\n");
    assert!(verify_download(&sums, "a.tar.gz", b"").is_ok());
    let err = verify_download(&sums, "a.tar.gz", b"x").unwrap_err();
    assert!(err.starts_with("checksum mismatch for a.tar.gz"));
    assert_eq!(verify_download(&sums, "b.tar.gz", b"").unwrap_err(), "b.tar.gz not listed in SHA256SUMS");
    assert!(check_digest("00ff  f\n", "f", &[0x00, 0xff]).is_ok());
}
