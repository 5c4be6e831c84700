use voxable::config::Platform;
use voxable::update::{has_asset_for_this_platform, release_update, Asset, Release, UpdateInfo};

fn asset(name: &str) -> Asset {
    Asset { name: name.into() }
}

fn release(tag: &str, assets: &[&str]) -> Release {
    Release {
        tag_name: tag.into(),
        html_url: "https://example.invalid/release".into(),
        body: "Notes".into(),
        draft: false,
        prerelease: false,
        assets: assets.iter().map(|a| asset(a)).collect(),
    }
}

#[test]
fn installers_are_matched_by_platform_and_case_insensitively() {
    let assets = [asset("Voxable_0.5.3_aarch64.DMG"), asset("voxable.deb")];
    assert!(has_asset_for_this_platform(&assets, Platform::MacOs));
    assert!(!has_asset_for_this_platform(&assets, Platform::Windows));
    assert!(has_asset_for_this_platform(&assets, Platform::Other));
    assert!(has_asset_for_this_platform(&[asset("Voxable.app.tar.gz")], Platform::MacOs));
    assert!(has_asset_for_this_platform(&[asset("setup.MSI")], Platform::Windows));
    assert!(has_asset_for_this_platform(&[asset("Voxable.AppImage")], Platform::Other));
    assert!(!has_asset_for_this_platform(&[], Platform::Other));
    assert!(!has_asset_for_this_platform(&[asset("notes.txt")], Platform::MacOs));
}

#[test]
fn a_newer_release_with_an_installer_is_offered() {
    let r = release("v0.6.0", &["Voxable.dmg"]);
    assert_eq!(
        release_update("0.5.3", r, Platform::MacOs),
        Some(UpdateInfo {
            version: "0.6.0".into(),
            url: "https://example.invalid/release".into(),
            notes: "Notes".into(),
        })
    );
}

#[test]
fn drafts_prereleases_old_versions_and_other_platforms_are_not_offered() {
    let mut r = release("v0.6.0", &["Voxable.dmg"]);
    r.draft = true;
    assert_eq!(release_update("0.5.3", r, Platform::MacOs), None);
    let mut r = release("v0.6.0", &["Voxable.dmg"]);
    r.prerelease = true;
    assert_eq!(release_update("0.5.3", r, Platform::MacOs), None);
    assert_eq!(release_update("0.5.3", release("v0.5.3", &["Voxable.dmg"]), Platform::MacOs), None);
    assert_eq!(release_update("0.5.3", release("v0.6.0", &["Voxable.exe"]), Platform::MacOs), None);
    assert_eq!(release_update("0.5.3", release("latest", &["Voxable.dmg"]), Platform::MacOs), None);
}
