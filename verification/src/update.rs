//! Deciding whether a published release is an update worth announcing.
//!
//! Notify-and-link, not download-and-install: a release is offered only when it is
//! a full release (not a draft or pre-release), strictly newer than the running
//! version, and carries a download for this platform.

use vstd::prelude::*;
use crate::config::Platform;
use crate::text::{chars_of, string_of};
use crate::version::{
    is_newer, lemma_is_newer_asymmetric, lemma_version_order_reflexive, newer, parse_version,
    strip_tag_prefix, version_order,
};

verus! {

/// What the UI needs to describe an available update.
#[derive(Debug, Clone, PartialEq, Eq)]
pub struct UpdateInfo {
    /// The new version, without the tag's leading `v`.
    pub version: String,
    /// The release page, for the download button.
    pub url: String,
    /// Release notes, as markdown.
    pub notes: String,
}

/// A downloadable file attached to a release.
#[derive(Debug, Clone, PartialEq, Eq)]
pub struct Asset {
    pub name: String,
}

/// A published release, as the release feed describes it.
#[derive(Debug, Clone, PartialEq, Eq)]
pub struct Release {
    pub tag_name: String,
    pub html_url: String,
    pub body: String,
    pub draft: bool,
    pub prerelease: bool,
    pub assets: Vec<Asset>,
}

/// `c` with ASCII `A`..`Z` mapped to `a`..`z`.
pub open spec fn ascii_lower_char(c: char) -> char {
    if 'A' <= c && c <= 'Z' {
        ((c as u32) + 32) as char
    } else {
        c
    }
}

/// `s` with its ASCII letters lowercased (`to_ascii_lowercase`).
pub open spec fn ascii_lower(s: Seq<char>) -> Seq<char> {
    s.map_values(|c: char| ascii_lower_char(c))
}

/// Whether `s` ends with `suffix`.
pub open spec fn ends_with(s: Seq<char>, suffix: Seq<char>) -> bool {
    suffix.len() <= s.len() && s.subrange(s.len() - suffix.len(), s.len() as int) == suffix
}

/// Whether a lowercased asset name is an installer for `platform`.
pub open spec fn installs_on(name: Seq<char>, platform: Platform) -> bool {
    match platform {
        Platform::MacOs => ends_with(name, ".dmg"@) || ends_with(name, ".app.tar.gz"@),
        Platform::Windows => ends_with(name, ".exe"@) || ends_with(name, ".msi"@),
        Platform::Other => ends_with(name, ".appimage"@) || ends_with(name, ".deb"@),
    }
}

/// Whether some asset installs on `platform`, its name compared case-insensitively.
pub open spec fn has_installer(assets: Seq<Asset>, platform: Platform) -> bool {
    exists|i: int| 0 <= i < assets.len() && installs_on(ascii_lower((#[trigger] assets[i]).name@), platform)
}

pub(crate) fn lower_ascii(s: &str) -> (r: Vec<char>)
    ensures
        r@ == ascii_lower(s@),
{
    let v = chars_of(s);
    let mut r: Vec<char> = Vec::new();
    let mut i: usize = 0;
    while i < v.len()
        invariant
            i <= v.len(),
            v@ == s@,
            r@ == ascii_lower(v@.take(i as int)),
        decreases v.len() - i,
    {
        let c = v[i];
        let l = if 'A' <= c && c <= 'Z' {
            ((c as u8) + 32) as char
        } else {
            c
        };
        r.push(l);
        assert(ascii_lower(v@.take(i + 1)) =~= ascii_lower(v@.take(i as int)).push(
            ascii_lower_char(c),
        ));
        i = i + 1;
    }
    assert(v@.take(v.len() as int) =~= v@);
    r
}

fn ends_with_chars(s: &Vec<char>, suffix: &str) -> (b: bool)
    ensures
        b == ends_with(s@, suffix@),
{
    let t = chars_of(suffix);
    if t.len() > s.len() {
        return false;
    }
    let off = s.len() - t.len();
    let mut i: usize = 0;
    while i < t.len()
        invariant
            i <= t.len(),
            off + t.len() == s.len(),
            t@ == suffix@,
            forall|k: int| 0 <= k < i ==> s@[off + k] == t@[k],
        decreases t.len() - i,
    {
        if s[off + i] != t[i] {
            assert(s@.subrange(off as int, s.len() as int)[i as int] != t@[i as int]);
            return false;
        }
        i = i + 1;
    }
    assert(s@.subrange(off as int, s.len() as int) =~= t@);
    true
}

/// Does this release carry something `platform` can actually install?
///
/// Releases are sometimes one-platform-only, and pointing someone at a release page
/// with no download for their machine is worse than staying quiet.
pub fn has_asset_for_this_platform(assets: &[Asset], platform: Platform) -> (b: bool)
    ensures
        b == has_installer(assets@, platform),
{
    let mut i: usize = 0;
    while i < assets.len()
        invariant
            i <= assets.len(),
            forall|k: int| 0 <= k < i ==> !installs_on(ascii_lower((#[trigger] assets@[k]).name@), platform),
        decreases assets.len() - i,
    {
        let name = lower_ascii(assets[i].name.as_str());
        let ok = match platform {
            Platform::MacOs => ends_with_chars(&name, ".dmg") || ends_with_chars(&name, ".app.tar.gz"),
            Platform::Windows => ends_with_chars(&name, ".exe") || ends_with_chars(&name, ".msi"),
            Platform::Other => ends_with_chars(&name, ".appimage") || ends_with_chars(&name, ".deb"),
        };
        if ok {
            assert(installs_on(ascii_lower(assets@[i as int].name@), platform));
            return true;
        }
        i = i + 1;
    }
    false
}

/// The update a release offers over `current`: `None` for drafts, pre-releases,
/// releases that are not strictly newer, and releases without an installer for the
/// platform; otherwise the tag without its leading `v`s, the page and the notes.
pub open spec fn offered_update(current: Seq<char>, release: Release, platform: Platform) -> Option<
    (Seq<char>, Seq<char>, Seq<char>),
> {
    if release.draft || release.prerelease {
        None
    } else if !newer(current, release.tag_name@) {
        None
    } else if !has_installer(release.assets@, platform) {
        None
    } else {
        Some((strip_tag_prefix(release.tag_name@), release.html_url@, release.body@))
    }
}

/// What to offer from the latest published `release`, if anything, when running
/// `current_version` on `platform`.
pub fn release_update(current_version: &str, release: Release, platform: Platform) -> (r: Option<
    UpdateInfo,
>)
    ensures
        match r {
            Some(info) => offered_update(current_version@, release, platform) == Some(
                (info.version@, info.url@, info.notes@),
            ),
            None => offered_update(current_version@, release, platform) is None,
        },
{
    if release.draft || release.prerelease {
        return None;
    }
    if !is_newer(current_version, release.tag_name.as_str()) {
        return None;
    }
    if !has_asset_for_this_platform(release.assets.as_slice(), platform) {
        return None;
    }
    let tag = chars_of(release.tag_name.as_str());
    let mut k: usize = 0;
    assert(tag@.subrange(0, tag.len() as int) =~= tag@);
    while k < tag.len() && (tag[k] == 'v' || tag[k] == 'V')
        invariant
            k <= tag.len(),
            tag@ == release.tag_name@,
            strip_tag_prefix(tag@) == strip_tag_prefix(tag@.subrange(k as int, tag.len() as int)),
        decreases tag.len() - k,
    {
        assert(tag@.subrange(k as int, tag.len() as int).drop_first() =~= tag@.subrange(
            k + 1,
            tag.len() as int,
        ));
        k = k + 1;
    }
    proof {
        let rest = tag@.subrange(k as int, tag.len() as int);
        if k < tag.len() {
            assert(rest[0] == tag@[k as int]);
        }
    }
    let version = string_of(&tag, k, tag.len());
    Some(UpdateInfo { version, url: release.html_url, notes: release.body })
}

/// The program that opens a URL in the user's browser on `platform`.
pub open spec fn browser_command_text(platform: Platform) -> Seq<char> {
    match platform {
        Platform::MacOs => "open"@,
        Platform::Windows => "explorer"@,
        Platform::Other => "xdg-open"@,
    }
}

/// The program run to open a release page on `platform`.
pub fn browser_command(platform: Platform) -> (cmd: &'static str)
    ensures
        cmd@ == browser_command_text(platform),
{
    match platform {
        Platform::MacOs => "open",
        Platform::Windows => "explorer",
        Platform::Other => "xdg-open",
    }
}

/// Only strictly newer releases are offered, so an update prompt can never be a
/// downgrade or a reinstall. An offered release is a full release with an installer
/// for the platform whose tag denotes a version above the current one: the current
/// version is not newer than it, and a release denoting the same version as the
/// current one is never offered. Conversely every full release with an installer and
/// a strictly newer version is offered, as its tag without the leading `v`s, its page
/// and its notes.
pub proof fn lemma_only_newer_releases_are_offered(
    current: Seq<char>,
    release: Release,
    platform: Platform,
)
    ensures
        offered_update(current, release, platform) is Some ==> {
            &&& parse_version(current) is Some
            &&& parse_version(release.tag_name@) is Some
            &&& version_order(
                parse_version(release.tag_name@)->0,
                parse_version(current)->0,
            ) > 0
            &&& !newer(release.tag_name@, current)
            &&& !release.draft && !release.prerelease
            &&& has_installer(release.assets@, platform)
        },
        parse_version(release.tag_name@) == parse_version(current) ==> offered_update(
            current,
            release,
            platform,
        ) is None,
        !release.draft && !release.prerelease && newer(current, release.tag_name@)
            && has_installer(release.assets@, platform) ==> offered_update(
            current,
            release,
            platform,
        ) == Some((strip_tag_prefix(release.tag_name@), release.html_url@, release.body@)),
{
    if newer(current, release.tag_name@) {
        lemma_is_newer_asymmetric(current, release.tag_name@);
    }
    if parse_version(release.tag_name@) == parse_version(current) {
        if parse_version(current) is Some {
            lemma_version_order_reflexive(parse_version(current)->0);
        }
    }
}

} // verus!
