use nadeloader::error::LauncherError;
use nadeloader::releases::{
    bins_dir, check_release_tag, classify_releases, find_release_asset, is_nightly, is_skeet,
    is_skeet_dll, local_versions, make_version_from_tag, release_tag_url, releases_url,
    repo_for_dll, repo_for_product, sort_descending, wait_for_csgo_step, wait_timeout_error,
    GithubAsset, GithubRelease, LocalBuild, WaitStep,
};

fn asset(name: &str) -> GithubAsset {
    GithubAsset { name: name.to_string(), browser_download_url: format!("https://x/{name}"), size: 7 }
}

fn release(tag: &str, prerelease: bool, draft: bool) -> GithubRelease {
    GithubRelease {
        tag_name: tag.to_string(),
        name: None,
        body: None,
        prerelease,
        draft,
        published_at: None,
        updated_at: "2024-01-01".to_string(),
        html_url: format!("https://github.com/{tag}"),
        assets: vec![asset("neverlose.dll")],
    }
}

#[test]
fn tag_kinds() {
    assert!(is_skeet("Skeet-2024"));
    assert!(!is_skeet("nl-1.0"));
    assert!(is_nightly("v2-BETA"));
    assert!(is_nightly("nightly-3"));
    assert!(is_nightly("alpha"));
    assert!(is_nightly("mytest"));
    assert!(!is_nightly("v1.0"));
}

#[test]
fn version_from_tag_copies_assets() {
    let v = make_version_from_tag("t".into(), "n".into(), "c".into(), "u".into(), "l".into(), vec![asset("a.dll")]);
    assert_eq!(v.tag, "t");
    assert_eq!(v.assets.len(), 1);
    assert_eq!(v.assets[0].url, "https://x/a.dll");
    assert_eq!(v.assets[0].size, 7);
}

#[test]
fn releases_are_classified() {
    let mut named = release("v2", false, false);
    named.name = Some("Version two".to_string());
    named.body = Some("notes".to_string());
    named.published_at = Some("2024-02-02".to_string());
    let rs = vec![
        release("v1", false, false),
        release("v1-beta", false, false),
        release("draft", false, true),
        release("skeet-1", false, false),
        release("pre", true, false),
        named,
    ];
    let (stable, nightly) = classify_releases(&rs, "krahmal1337/NeverNade");
    let st: Vec<&str> = stable.iter().map(|v| v.tag.as_str()).collect();
    let ni: Vec<&str> = nightly.iter().map(|v| v.tag.as_str()).collect();
    assert_eq!(st, vec!["v1", "v2"]);
    assert_eq!(ni, vec!["v1-beta", "pre"]);
    assert_eq!(stable[0].name, "v1");
    assert_eq!(stable[0].changelog, "");
    assert_eq!(stable[0].updated_at, "2024-01-01");
    assert_eq!(stable[1].name, "Version two");
    assert_eq!(stable[1].changelog, "notes");
    assert_eq!(stable[1].updated_at, "2024-02-02");
    // From skeet's repository, skeet builds are listed.
    let (stable2, _) = classify_releases(&rs, "krahmal1337/otherstuff");
    assert_eq!(stable2.len(), 3);
}

#[test]
fn every_listed_release_lands_once() {
    let rs: Vec<GithubRelease> = ["a", "b-test", "c", "skeet"].iter().map(|t| release(t, false, false)).collect();
    let (s, n) = classify_releases(&rs, "krahmal1337/NeverNade");
    assert_eq!(s.len() + n.len(), 3);
}

#[test]
fn names_sort_largest_first() {
    let names: Vec<String> = ["1.2", "1.10", "2.0", "1.2", "a"].iter().map(|s| s.to_string()).collect();
    let sorted = sort_descending(&names);
    assert_eq!(sorted, vec!["a", "2.0", "1.2", "1.2", "1.10"]);
}

#[test]
fn local_builds_are_filtered_sorted_and_split() {
    let b = |n: &str, has: bool| LocalBuild { name: n.to_string(), has_dll: has };
    let builds = vec![b("1.0", true), b("local", true), b("skeet-x", true), b("2.0-beta", true), b("3.0", false), b("1.5", true)];
    let (stable, nightly) = local_versions(&builds);
    let st: Vec<&str> = stable.iter().map(|v| v.tag.as_str()).collect();
    assert_eq!(st, vec!["1.5", "1.0"]);
    assert_eq!(nightly.len(), 1);
    assert_eq!(nightly[0].tag, "2.0-beta");
    assert_eq!(stable[0].assets.len(), 2);
    assert_eq!(stable[0].assets[0].name, "neverlose.dll");
    assert_eq!(stable[0].assets[1].name, "injector.exe");
    assert_eq!(stable[0].url, "");
}

#[test]
fn repositories_and_urls() {
    assert_eq!(repo_for_product("skeet"), "krahmal1337/otherstuff");
    assert_eq!(repo_for_product("nl"), "krahmal1337/NeverNade");
    assert_eq!(repo_for_dll("skeet.dll"), "krahmal1337/otherstuff");
    assert_eq!(repo_for_dll("neverlose.dll"), "krahmal1337/NeverNade");
    assert!(is_skeet_dll("skeet.dll") && !is_skeet_dll("Skeet.dll"));
    assert_eq!(releases_url("o/r"), "https://api.github.com/repos/o/r/releases");
    assert_eq!(release_tag_url("o/r", "v1"), "https://api.github.com/repos/o/r/releases/tags/v1");
    assert_eq!(bins_dir(), "C:\\nevernade\\builds");
}

#[test]
fn assets_are_found_ignoring_ascii_case() {
    let assets = vec![asset("injector.exe"), asset("NeverLose.DLL"), asset("neverlose.dll")];
    assert_eq!(find_release_asset(&assets, "v1", "neverlose.dll").unwrap(), 1);
    assert_eq!(
        find_release_asset(&assets, "v1", "skeet.dll").unwrap_err(),
        LauncherError::Validation("release v1 missing skeet.dll".to_string())
    );
}

#[test]
fn release_tag_must_be_chosen() {
    let err = LauncherError::Validation("no release version is selected".to_string());
    assert_eq!(check_release_tag("  ").unwrap_err(), err);
    assert_eq!(check_release_tag("Unavailable").unwrap_err(), err);
    assert!(check_release_tag("v1").is_ok());
    assert!(check_release_tag(" Unavailable").is_ok());
}

#[test]
fn waiting_for_the_game() {
    assert_eq!(wait_for_csgo_step(Some(42), 100, 30), WaitStep::Found(42));
    assert_eq!(wait_for_csgo_step(None, 30, 30), WaitStep::TimedOut);
    assert_eq!(wait_for_csgo_step(None, 0, 30), WaitStep::Sleep { millis: 500, report: false });
    assert_eq!(wait_for_csgo_step(None, 10, 30), WaitStep::Sleep { millis: 500, report: true });
    assert_eq!(wait_for_csgo_step(None, 11, 30), WaitStep::Sleep { millis: 500, report: false });
    assert_eq!(wait_timeout_error(), LauncherError::System("timed out waiting for csgo process".to_string()));
}
