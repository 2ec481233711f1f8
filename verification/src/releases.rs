use vstd::prelude::*;
use crate::error::{ErrorKind, LauncherError};
use crate::text::{chars_of, contains, has_infix, lex_ge, lex_le, lowercase, owned, to_lowercase};
use vstd::relations::sorted_by;

verus! {

broadcast use vstd::string::group_string_axioms;

/// A downloadable file of a version.
#[derive(Debug)]
pub struct LauncherAsset {
    pub name: String,
    pub url: String,
    pub size: u64,
}

/// A version the launcher offers.
#[derive(Debug)]
pub struct LauncherVersion {
    pub tag: String,
    pub name: String,
    pub changelog: String,
    pub updated_at: String,
    pub url: String,
    pub assets: Vec<LauncherAsset>,
}

/// The versions the launcher offers, stable ones and nightly ones.
#[derive(Debug)]
pub struct LauncherGitMetadata {
    pub releases: Vec<LauncherVersion>,
    pub nightlies: Vec<LauncherVersion>,
}

/// A file attached to a GitHub release.
#[derive(Debug)]
pub struct GithubAsset {
    pub name: String,
    pub browser_download_url: String,
    pub size: u64,
}

/// A GitHub release, as the releases API lists it.
#[derive(Debug)]
pub struct GithubRelease {
    pub tag_name: String,
    pub name: Option<String>,
    pub body: Option<String>,
    pub prerelease: bool,
    pub draft: bool,
    pub published_at: Option<String>,
    pub updated_at: String,
    pub html_url: String,
    pub assets: Vec<GithubAsset>,
}

impl View for LauncherAsset {
    type V = (Seq<char>, Seq<char>, u64);

    open spec fn view(&self) -> (Seq<char>, Seq<char>, u64) {
        (self.name@, self.url@, self.size)
    }
}

/// A version as `(tag, name, changelog, updated_at, url, assets)`.
pub type VersionView = (Seq<char>, Seq<char>, Seq<char>, Seq<char>, Seq<char>, Seq<(Seq<char>, Seq<char>, u64)>);

impl View for LauncherVersion {
    type V = VersionView;

    open spec fn view(&self) -> VersionView {
        (
            self.tag@,
            self.name@,
            self.changelog@,
            self.updated_at@,
            self.url@,
            self.assets@.map_values(|a: LauncherAsset| a@),
        )
    }
}

/// The views of a list of versions.
pub open spec fn versions_view(v: Seq<LauncherVersion>) -> Seq<VersionView> {
    v.map_values(|x: LauncherVersion| x@)
}

/// Whether a tag names a skeet build (any case).
pub open spec fn is_skeet_tag(tag: Seq<char>) -> bool {
    has_infix(lowercase(tag), "skeet"@)
}

/// Whether a tag names a test build: it says test, nightly, beta or alpha (any case).
pub open spec fn is_nightly_tag(tag: Seq<char>) -> bool {
    let lower = lowercase(tag);
    has_infix(lower, "test"@) || has_infix(lower, "nightly"@) || has_infix(lower, "beta"@)
        || has_infix(lower, "alpha"@)
}

/// A tag is a nightly tag exactly when, lower-cased, it contains `test`, `nightly`, `beta` or
/// `alpha` anywhere.
pub proof fn lemma_nightly_tag_words(tag: Seq<char>)
    ensures
        is_nightly_tag(tag) <==> (has_infix(lowercase(tag), "test"@) || has_infix(lowercase(tag), "nightly"@)
            || has_infix(lowercase(tag), "beta"@) || has_infix(lowercase(tag), "alpha"@)),
{
}

/// A tag is a skeet tag exactly when, lower-cased, it contains `skeet` anywhere.
pub proof fn lemma_skeet_tag_word(tag: Seq<char>)
    ensures
        is_skeet_tag(tag) <==> has_infix(lowercase(tag), "skeet"@),
{
}

pub fn is_skeet(tag: &str) -> (r: bool)
    ensures
        r == is_skeet_tag(tag@),
{
    let lower = chars_of(to_lowercase(tag).as_str());
    let needle = chars_of("skeet");
    contains(lower.as_slice(), needle.as_slice())
}

pub fn is_nightly(tag: &str) -> (r: bool)
    ensures
        r == is_nightly_tag(tag@),
{
    let lower = chars_of(to_lowercase(tag).as_str());
    let test = chars_of("test");
    let nightly = chars_of("nightly");
    let beta = chars_of("beta");
    let alpha = chars_of("alpha");
    contains(lower.as_slice(), test.as_slice()) || contains(lower.as_slice(), nightly.as_slice())
        || contains(lower.as_slice(), beta.as_slice()) || contains(
        lower.as_slice(),
        alpha.as_slice(),
    )
}

/// A GitHub asset as the launcher shows it.
pub open spec fn asset_view_of(a: GithubAsset) -> (Seq<char>, Seq<char>, u64) {
    (a.name@, a.browser_download_url@, a.size)
}

/// A version built from a tag, its display name, changelog, date, page and assets.
pub fn make_version_from_tag(
    tag: String,
    name: String,
    changelog: String,
    updated_at: String,
    url: String,
    assets: Vec<GithubAsset>,
) -> (v: LauncherVersion)
    ensures
        v@ == (tag@, name@, changelog@, updated_at@, url@, assets@.map_values(
            |a: GithubAsset| asset_view_of(a),
        )),
{
    let mut out: Vec<LauncherAsset> = Vec::new();
    let mut i: usize = 0;
    while i < assets.len()
        invariant
            i <= assets@.len(),
            out@.map_values(|a: LauncherAsset| a@) == assets@.take(i as int).map_values(
                |a: GithubAsset| asset_view_of(a),
            ),
        decreases assets@.len() - i,
    {
        let a = &assets[i];
        let ghost before = out@;
        let item = LauncherAsset { name: a.name.clone(), url: a.browser_download_url.clone(), size: a.size };
        assert(item@ == asset_view_of(assets@[i as int]));
        out.push(item);
        assert(out@ =~= before.push(item));
        assert(assets@.take(i + 1) =~= assets@.take(i as int).push(assets@[i as int]));
        assert(assets@.take(i + 1).map_values(|a: GithubAsset| asset_view_of(a)) =~= assets@.take(
            i as int,
        ).map_values(|a: GithubAsset| asset_view_of(a)).push(asset_view_of(assets@[i as int])));
        assert(out@.map_values(|a: LauncherAsset| a@) =~= before.map_values(|a: LauncherAsset| a@).push(
            item@,
        ));
        assert(out@.map_values(|a: LauncherAsset| a@) =~= assets@.take(i + 1).map_values(
            |a: GithubAsset| asset_view_of(a),
        ));
        i = i + 1;
    }
    assert(assets@.take(assets@.len() as int) =~= assets@);
    LauncherVersion { tag, name, changelog, updated_at, url, assets: out }
}

/// The repository of the launcher's own builds, and that of skeet builds.
pub open spec fn repo_nl() -> Seq<char> {
    "krahmal1337/NeverNade"@
}

pub open spec fn repo_skeet() -> Seq<char> {
    "krahmal1337/otherstuff"@
}

/// Whether a release is listed: drafts never are, and skeet builds are not listed from the
/// launcher's own repository.
pub open spec fn release_kept(r: GithubRelease, is_nl_repo: bool) -> bool {
    !r.draft && (!is_nl_repo || !is_skeet_tag(r.tag_name@))
}

/// Whether a listed release goes among the nightlies.
pub open spec fn release_is_nightly(r: GithubRelease) -> bool {
    r.prerelease || is_nightly_tag(r.tag_name@)
}

/// The version a release is listed as: named by its tag when it has no name, dated by its
/// publication (else its last update).
pub open spec fn release_version(r: GithubRelease) -> VersionView {
    (
        r.tag_name@,
        match r.name {
            Some(n) => n@,
            None => r.tag_name@,
        },
        match r.body {
            Some(b) => b@,
            None => Seq::<char>::empty(),
        },
        match r.published_at {
            Some(p) => p@,
            None => r.updated_at@,
        },
        r.html_url@,
        r.assets@.map_values(|a: GithubAsset| asset_view_of(a)),
    )
}

/// The stable and the nightly versions listed from some releases, each in release order.
pub open spec fn classified(rs: Seq<GithubRelease>, is_nl_repo: bool) -> (Seq<VersionView>, Seq<VersionView>)
    decreases rs.len(),
{
    if rs.len() == 0 {
        (seq![], seq![])
    } else {
        let (stable, nightly) = classified(rs.drop_last(), is_nl_repo);
        let r = rs.last();
        if !release_kept(r, is_nl_repo) {
            (stable, nightly)
        } else if release_is_nightly(r) {
            (stable, nightly.push(release_version(r)))
        } else {
            (stable.push(release_version(r)), nightly)
        }
    }
}

fn optional_or(o: &Option<String>, fallback: &String) -> (r: String)
    ensures
        r@ == match o {
            Some(s) => s@,
            None => fallback@,
        },
{
    match o {
        Some(s) => s.clone(),
        None => fallback.clone(),
    }
}

fn version_of_release(r: &GithubRelease) -> (v: LauncherVersion)
    ensures
        v@ == release_version(*r),
{
    let empty = String::new();
    let mut assets: Vec<GithubAsset> = Vec::new();
    let mut i: usize = 0;
    while i < r.assets.len()
        invariant
            i <= r.assets@.len(),
            assets@.map_values(|a: GithubAsset| asset_view_of(a)) == r.assets@.take(i as int).map_values(
                |a: GithubAsset| asset_view_of(a),
            ),
        decreases r.assets@.len() - i,
    {
        let a = &r.assets[i];
        let ghost before = assets@;
        let item = GithubAsset {
            name: a.name.clone(),
            browser_download_url: a.browser_download_url.clone(),
            size: a.size,
        };
        assets.push(item);
        assert(r.assets@.take(i + 1) =~= r.assets@.take(i as int).push(r.assets@[i as int]));
        assert(r.assets@.take(i + 1).map_values(|a: GithubAsset| asset_view_of(a)) =~= r.assets@.take(
            i as int,
        ).map_values(|a: GithubAsset| asset_view_of(a)).push(asset_view_of(r.assets@[i as int])));
        assert(assets@.map_values(|a: GithubAsset| asset_view_of(a)) =~= before.map_values(
            |a: GithubAsset| asset_view_of(a),
        ).push(asset_view_of(item)));
        i = i + 1;
    }
    assert(r.assets@.take(r.assets@.len() as int) =~= r.assets@);
    make_version_from_tag(
        r.tag_name.clone(),
        optional_or(&r.name, &r.tag_name),
        optional_or(&r.body, &empty),
        optional_or(&r.published_at, &r.updated_at),
        r.html_url.clone(),
        assets,
    )
}

/// Splits the releases of `repo` into stable versions and nightly versions, leaving out
/// drafts, and skeet builds when `repo` is the launcher's own repository.
pub fn classify_releases(releases: &[GithubRelease], repo: &str) -> (r: (
    Vec<LauncherVersion>,
    Vec<LauncherVersion>,
))
    ensures
        (versions_view(r.0@), versions_view(r.1@)) == classified(releases@, repo@ == repo_nl()),
{
    let is_nl_repo = crate::text::str_eq(repo, "krahmal1337/NeverNade");
    let mut stable: Vec<LauncherVersion> = Vec::new();
    let mut nightly: Vec<LauncherVersion> = Vec::new();
    let mut i: usize = 0;
    while i < releases.len()
        invariant
            is_nl_repo == (repo@ == repo_nl()),
            i <= releases@.len(),
            (versions_view(stable@), versions_view(nightly@)) == classified(
                releases@.take(i as int),
                is_nl_repo,
            ),
        decreases releases@.len() - i,
    {
        let rel = &releases[i];
        assert(releases@.take(i + 1).drop_last() =~= releases@.take(i as int));
        assert(releases@.take(i + 1).last() == releases@[i as int]);
        let kept = !rel.draft && (!is_nl_repo || !is_skeet(rel.tag_name.as_str()));
        if kept {
            let version = version_of_release(rel);
            if rel.prerelease || is_nightly(rel.tag_name.as_str()) {
                let ghost before = nightly@;
                nightly.push(version);
                assert(versions_view(nightly@) =~= versions_view(before).push(release_version(*rel)));
            } else {
                let ghost before = stable@;
                stable.push(version);
                assert(versions_view(stable@) =~= versions_view(before).push(release_version(*rel)));
            }
        }
        i = i + 1;
    }
    assert(releases@.take(releases@.len() as int) =~= releases@);
    (stable, nightly)
}

/// How many releases are listed.
pub open spec fn kept_count(rs: Seq<GithubRelease>, is_nl_repo: bool) -> nat
    decreases rs.len(),
{
    if rs.len() == 0 {
        0
    } else {
        kept_count(rs.drop_last(), is_nl_repo) + if release_kept(rs.last(), is_nl_repo) {
            1nat
        } else {
            0nat
        }
    }
}

/// Every listed release lands in exactly one of the two lists, and only listed releases do.
pub proof fn lemma_classified_partition(rs: Seq<GithubRelease>, is_nl_repo: bool)
    ensures
        classified(rs, is_nl_repo).0.len() + classified(rs, is_nl_repo).1.len() == kept_count(
            rs,
            is_nl_repo,
        ),
    decreases rs.len(),
{
    if rs.len() > 0 {
        lemma_classified_partition(rs.drop_last(), is_nl_repo);
    }
}

/// Whether a tag, lower-cased, says test, nightly, beta or alpha anywhere.
spec fn says_test_build(tag: Seq<char>) -> bool {
    has_infix(lowercase(tag), "test"@) || has_infix(lowercase(tag), "nightly"@) || has_infix(
        lowercase(tag),
        "beta"@,
    ) || has_infix(lowercase(tag), "alpha"@)
}

/// No stable version's tag says test, nightly, beta or alpha (in any case); every listed release
/// that is a prerelease or whose tag says so is among the nightlies.
pub proof fn lemma_classified_nightly_words(rs: Seq<GithubRelease>, is_nl_repo: bool)
    ensures
        forall|i: int|
            0 <= i < classified(rs, is_nl_repo).0.len() ==> !(has_infix(
                lowercase(#[trigger] classified(rs, is_nl_repo).0[i].0),
                "test"@,
            ) || has_infix(lowercase(classified(rs, is_nl_repo).0[i].0), "nightly"@) || has_infix(
                lowercase(classified(rs, is_nl_repo).0[i].0),
                "beta"@,
            ) || has_infix(lowercase(classified(rs, is_nl_repo).0[i].0), "alpha"@)),
        forall|j: int|
            0 <= j < rs.len() && !rs[j].draft && (!is_nl_repo || !has_infix(
                lowercase(rs[j].tag_name@),
                "skeet"@,
            )) && (rs[j].prerelease || has_infix(lowercase(rs[j].tag_name@), "test"@) || has_infix(
                lowercase(rs[j].tag_name@),
                "nightly"@,
            ) || has_infix(lowercase(rs[j].tag_name@), "beta"@) || has_infix(
                lowercase(rs[j].tag_name@),
                "alpha"@,
            )) ==> classified(rs, is_nl_repo).1.contains(release_version(#[trigger] rs[j])),
    decreases rs.len(),
{
    if rs.len() > 0 {
        let init = rs.drop_last();
        lemma_classified_nightly_words(init, is_nl_repo);
        let (s0, n0) = classified(init, is_nl_repo);
        let (s1, n1) = classified(rs, is_nl_repo);
        let r = rs.last();
        assert forall|i: int| 0 <= i < s1.len() implies !says_test_build(#[trigger] s1[i].0) by {
            if i < s0.len() {
                assert(s1[i] == s0[i]);
                assert(!says_test_build(s0[i].0));
            } else {
                assert(s1[i] == release_version(r));
            }
        }
        assert forall|j: int|
            0 <= j < rs.len() && release_kept(#[trigger] rs[j], is_nl_repo) && release_is_nightly(rs[j])
                implies n1.contains(release_version(rs[j])) by {
            if j < init.len() {
                assert(init[j] == rs[j]);
                assert(n0.contains(release_version(init[j])));
                let k = choose|k: int| 0 <= k < n0.len() && n0[k] == release_version(init[j]);
                assert(n1[k] == n0[k]);
            } else {
                assert(rs[j] == r);
                assert(n1[n1.len() - 1] == release_version(r));
            }
        }
    }
}

/// Every version offered from a local build is named by its tag, has no changelog, date or
/// address, and offers `neverlose.dll` and `injector.exe`; its tag is the name of a listed
/// build, and it is among the nightlies exactly when its tag says test, nightly, beta or alpha.
pub proof fn lemma_local_versions_named(bs: Seq<LocalBuild>)
    ensures
        forall|i: int|
            0 <= i < local_versions_spec(bs).0.len() ==> ({
                let v = #[trigger] local_versions_spec(bs).0[i];
                &&& v.1 == v.0
                &&& v.2.len() == 0 && v.3.len() == 0 && v.4.len() == 0
                &&& v.5 == seq![("neverlose.dll"@, Seq::<char>::empty(), 0u64), ("injector.exe"@, Seq::<char>::empty(), 0u64)]
                &&& listed_build_names(bs).contains(v.0)
                &&& !(has_infix(lowercase(v.0), "test"@) || has_infix(lowercase(v.0), "nightly"@)
                    || has_infix(lowercase(v.0), "beta"@) || has_infix(lowercase(v.0), "alpha"@))
            }),
        forall|i: int|
            0 <= i < local_versions_spec(bs).1.len() ==> ({
                let v = #[trigger] local_versions_spec(bs).1[i];
                &&& v.1 == v.0
                &&& v.2.len() == 0 && v.3.len() == 0 && v.4.len() == 0
                &&& v.5 == seq![("neverlose.dll"@, Seq::<char>::empty(), 0u64), ("injector.exe"@, Seq::<char>::empty(), 0u64)]
                &&& listed_build_names(bs).contains(v.0)
                &&& (has_infix(lowercase(v.0), "test"@) || has_infix(lowercase(v.0), "nightly"@)
                    || has_infix(lowercase(v.0), "beta"@) || has_infix(lowercase(v.0), "alpha"@))
            }),
{
    let names = listed_build_names(bs);
    let tags = names.sort_by(|a: Seq<char>, b: Seq<char>| lex_ge(a, b));
    crate::text::lemma_lex_ge_total();
    names.lemma_sort_by_ensures(|a: Seq<char>, b: Seq<char>| lex_ge(a, b));
    lemma_split_local_entries(tags);
    assert forall|t: Seq<char>| tags.contains(t) implies names.contains(t) by {
        if !names.contains(t) {
            assert(!names.sort_by(|a: Seq<char>, b: Seq<char>| lex_ge(a, b)).contains(t));
        }
    }
}

proof fn lemma_split_local_entries(tags: Seq<Seq<char>>)
    ensures
        forall|i: int|
            0 <= i < split_local(tags).0.len() ==> exists|j: int|
                0 <= j < tags.len() && #[trigger] split_local(tags).0[i] == local_version(tags[j])
                    && !says_test_build(tags[j]),
        forall|i: int|
            0 <= i < split_local(tags).1.len() ==> exists|j: int|
                0 <= j < tags.len() && #[trigger] split_local(tags).1[i] == local_version(tags[j])
                    && says_test_build(tags[j]),
    decreases tags.len(),
{
    if tags.len() > 0 {
        let init = tags.drop_last();
        lemma_split_local_entries(init);
        let (s0, n0) = split_local(init);
        let (s1, n1) = split_local(tags);
        assert forall|i: int| 0 <= i < s1.len() implies exists|j: int|
            0 <= j < tags.len() && #[trigger] s1[i] == local_version(tags[j]) && !says_test_build(tags[j]) by {
            if i < s0.len() {
                let j = choose|j: int| 0 <= j < init.len() && s0[i] == local_version(init[j]) && !says_test_build(init[j]);
                assert(s1[i] == s0[i]);
                assert(tags[j] == init[j]);
            } else {
                assert(s1[i] == local_version(tags[tags.len() - 1]));
            }
        }
        assert forall|i: int| 0 <= i < n1.len() implies exists|j: int|
            0 <= j < tags.len() && #[trigger] n1[i] == local_version(tags[j]) && says_test_build(tags[j]) by {
            if i < n0.len() {
                let j = choose|j: int| 0 <= j < init.len() && n0[i] == local_version(init[j]) && says_test_build(init[j]);
                assert(n1[i] == n0[i]);
                assert(tags[j] == init[j]);
            } else {
                assert(n1[i] == local_version(tags[tags.len() - 1]));
            }
        }
    }
}

/// The texts of a list of strings.
pub open spec fn texts(v: Seq<String>) -> Seq<Seq<char>> {
    v.map_values(|s: String| s@)
}

/// Sorts names from the largest to the smallest, as `sort_by(|a, b| b.cmp(a))` does.
pub fn sort_descending(names: &[String]) -> (r: Vec<String>)
    ensures
        texts(r@) == texts(names@).sort_by(|a: Seq<char>, b: Seq<char>| lex_ge(a, b)),
{
    let ghost ge = |a: Seq<char>, b: Seq<char>| lex_ge(a, b);
    proof {
        crate::text::lemma_lex_ge_total();
    }
    let mut out: Vec<String> = Vec::new();
    assert(texts(out@) =~= Seq::<Seq<char>>::empty());
    assert(texts(names@.take(0)) =~= Seq::<Seq<char>>::empty());
    let mut i: usize = 0;
    while i < names.len()
        invariant
            i <= names@.len(),
            vstd::relations::total_ordering(ge),
            ge == (|a: Seq<char>, b: Seq<char>| lex_ge(a, b)),
            sorted_by(texts(out@), ge),
            texts(out@).to_multiset() == texts(names@.take(i as int)).to_multiset(),
        decreases names@.len() - i,
    {
        let x = names[i].clone();
        let xc = chars_of(x.as_str());
        let mut j: usize = 0;
        while j < out.len()
            invariant
                j <= out@.len(),
                xc@ == x@,
                forall|k: int| 0 <= k < j ==> !lex_le(#[trigger] out@[k]@, x@),
            ensures
                j <= out@.len(),
                j < out@.len() ==> lex_le(out@[j as int]@, x@),
                forall|k: int| 0 <= k < j ==> !lex_le(#[trigger] out@[k]@, x@),
            decreases out@.len() - j,
        {
            let oc = chars_of(out[j].as_str());
            if crate::text::lex_le_chars(oc.as_slice(), xc.as_slice()) {
                break;
            }
            j = j + 1;
        }
        let ghost before = out@;
        proof {
            assert forall|k: int| 0 <= k < j implies ge(#[trigger] before[k]@, x@) by {
                crate::text::lemma_lex_ge_total();
                assert(ge(before[k]@, x@) || ge(x@, before[k]@));
            }
            if j < before.len() {
                assert(lex_le(before[j as int]@, x@));
                assert forall|k: int| j <= k < before.len() implies ge(x@, #[trigger] before[k]@) by {
                    assert(ge(x@, before[j as int]@));
                    if k > j {
                        assert(texts(before)[j as int] == before[j as int]@);
                        assert(texts(before)[k] == before[k]@);
                        assert(ge(texts(before)[j as int], texts(before)[k]));
                        assert(ge(before[j as int]@, before[k]@));
                        assert(ge(x@, before[k]@));
                    }
                }
            }
        }
        out.insert(j, x.clone());
        proof {
            assert(texts(out@) =~= texts(before).insert(j as int, x@));
            assert(sorted_by(texts(out@), ge)) by {
                assert forall|a: int, b: int| 0 <= a < b < out@.len() implies #[trigger] ge(
                    texts(out@)[a],
                    texts(out@)[b],
                ) by {
                    if a < j && b == j {
                    } else if a < j && b > j {
                        assert(ge(texts(before)[a], texts(before)[b - 1]));
                    } else if a == j {
                    } else if b < j {
                        assert(ge(texts(before)[a], texts(before)[b]));
                    } else {
                        assert(ge(texts(before)[a - 1], texts(before)[b - 1]));
                    }
                }
            }
            vstd::seq_lib::to_multiset_insert(texts(before), j as int, x@);
            assert(names@.take(i + 1) =~= names@.take(i as int).push(names@[i as int]));
            assert(texts(names@.take(i + 1)) =~= texts(names@.take(i as int)).push(x@));
            vstd::seq_lib::to_multiset_build(texts(names@.take(i as int)), x@);
        }
        i = i + 1;
    }
    proof {
        assert(names@.take(names@.len() as int) =~= names@);
        texts(names@).lemma_sort_by_ensures(ge);
        vstd::seq_lib::lemma_sorted_unique(texts(out@), texts(names@).sort_by(ge), ge);
    }
    out
}

/// A directory found under the builds folder: its name, and whether it holds a DLL
/// (`neverlose.dll` or `skeet.dll`).
#[derive(Debug)]
pub struct LocalBuild {
    pub name: String,
    pub has_dll: bool,
}

/// Whether a local build is offered: not the `local` folder, not a skeet build, and holding a
/// DLL.
pub open spec fn local_build_listed(b: LocalBuild) -> bool {
    b.name@ != "local"@ && !is_skeet_tag(b.name@) && b.has_dll
}

/// The names of the offered local builds, in the order found.
pub open spec fn listed_build_names(bs: Seq<LocalBuild>) -> Seq<Seq<char>>
    decreases bs.len(),
{
    if bs.len() == 0 {
        seq![]
    } else {
        let rest = listed_build_names(bs.drop_last());
        if local_build_listed(bs.last()) {
            rest.push(bs.last().name@)
        } else {
            rest
        }
    }
}

/// The version a local build is offered as.
pub open spec fn local_version(tag: Seq<char>) -> VersionView {
    (
        tag,
        tag,
        Seq::<char>::empty(),
        Seq::<char>::empty(),
        Seq::<char>::empty(),
        seq![("neverlose.dll"@, Seq::<char>::empty(), 0u64), ("injector.exe"@, Seq::<char>::empty(), 0u64)],
    )
}

/// Stable and nightly versions for a list of tags, each in list order.
pub open spec fn split_local(tags: Seq<Seq<char>>) -> (Seq<VersionView>, Seq<VersionView>)
    decreases tags.len(),
{
    if tags.len() == 0 {
        (seq![], seq![])
    } else {
        let (stable, nightly) = split_local(tags.drop_last());
        if is_nightly_tag(tags.last()) {
            (stable, nightly.push(local_version(tags.last())))
        } else {
            (stable.push(local_version(tags.last())), nightly)
        }
    }
}

/// The versions offered from local builds: the listed names, largest first, split into stable
/// and nightly.
pub open spec fn local_versions_spec(bs: Seq<LocalBuild>) -> (Seq<VersionView>, Seq<VersionView>) {
    split_local(listed_build_names(bs).sort_by(|a: Seq<char>, b: Seq<char>| lex_ge(a, b)))
}

fn local_version_of(tag: &String) -> (v: LauncherVersion)
    ensures
        v@ == local_version(tag@),
{
    let mut assets: Vec<LauncherAsset> = Vec::new();
    assets.push(LauncherAsset { name: owned("neverlose.dll"), url: String::new(), size: 0 });
    assets.push(LauncherAsset { name: owned("injector.exe"), url: String::new(), size: 0 });
    let v = LauncherVersion {
        tag: tag.clone(),
        name: tag.clone(),
        changelog: String::new(),
        updated_at: String::new(),
        url: String::new(),
        assets,
    };
    assert(v.assets@.map_values(|a: LauncherAsset| a@) =~= seq![
        ("neverlose.dll"@, Seq::<char>::empty(), 0u64),
        ("injector.exe"@, Seq::<char>::empty(), 0u64),
    ]);
    v
}

/// The versions offered from local builds, used when GitHub cannot be reached.
pub fn local_versions(builds: &[LocalBuild]) -> (r: (Vec<LauncherVersion>, Vec<LauncherVersion>))
    ensures
        (versions_view(r.0@), versions_view(r.1@)) == local_versions_spec(builds@),
{
    let mut names: Vec<String> = Vec::new();
    let mut i: usize = 0;
    while i < builds.len()
        invariant
            i <= builds@.len(),
            texts(names@) == listed_build_names(builds@.take(i as int)),
        decreases builds@.len() - i,
    {
        let b = &builds[i];
        assert(builds@.take(i + 1).drop_last() =~= builds@.take(i as int));
        assert(builds@.take(i + 1).last() == builds@[i as int]);
        if !crate::text::str_eq(b.name.as_str(), "local") && !is_skeet(b.name.as_str()) && b.has_dll {
            let ghost before = names@;
            names.push(b.name.clone());
            assert(texts(names@) =~= texts(before).push(b.name@));
        }
        i = i + 1;
    }
    assert(builds@.take(builds@.len() as int) =~= builds@);
    let sorted = sort_descending(names.as_slice());
    let ghost tags = texts(sorted@);
    let mut stable: Vec<LauncherVersion> = Vec::new();
    let mut nightly: Vec<LauncherVersion> = Vec::new();
    let mut k: usize = 0;
    while k < sorted.len()
        invariant
            tags == texts(sorted@),
            k <= sorted@.len(),
            (versions_view(stable@), versions_view(nightly@)) == split_local(tags.take(k as int)),
        decreases sorted@.len() - k,
    {
        let tag = &sorted[k];
        assert(tags.take(k + 1).drop_last() =~= tags.take(k as int));
        assert(tags.take(k + 1).last() == tag@);
        let version = local_version_of(tag);
        if is_nightly(tag.as_str()) {
            let ghost before = nightly@;
            nightly.push(version);
            assert(versions_view(nightly@) =~= versions_view(before).push(local_version(tag@)));
        } else {
            let ghost before = stable@;
            stable.push(version);
            assert(versions_view(stable@) =~= versions_view(before).push(local_version(tag@)));
        }
        k = k + 1;
    }
    assert(tags.take(sorted@.len() as int) =~= tags);
    (stable, nightly)
}

/// The folder that holds downloaded builds, one directory per tag.
pub fn bins_dir() -> (r: String)
    ensures
        r@ == "C:\\nevernade\\builds"@,
{
    owned("C:\\nevernade\\builds")
}

/// The repository that serves a product's releases: skeet's, or the launcher's own.
pub fn repo_for_product(product: &str) -> (r: &'static str)
    ensures
        r@ == if product@ == "skeet"@ { repo_skeet() } else { repo_nl() },
{
    if crate::text::str_eq(product, "skeet") {
        "krahmal1337/otherstuff"
    } else {
        "krahmal1337/NeverNade"
    }
}

/// The repository that serves a DLL: skeet's for `skeet.dll`, else the launcher's own.
pub fn repo_for_dll(dll_name: &str) -> (r: &'static str)
    ensures
        r@ == if dll_name@ == "skeet.dll"@ { repo_skeet() } else { repo_nl() },
{
    if crate::text::str_eq(dll_name, "skeet.dll") {
        "krahmal1337/otherstuff"
    } else {
        "krahmal1337/NeverNade"
    }
}

/// Whether a DLL is injected the skeet way.
pub fn is_skeet_dll(dll_name: &str) -> (r: bool)
    ensures
        r == (dll_name@ == "skeet.dll"@),
{
    crate::text::str_eq(dll_name, "skeet.dll")
}

/// The GitHub API address that lists a repository's releases.
pub fn releases_url(repo: &str) -> (r: String)
    ensures
        r@ == "https://api.github.com/repos/"@ + repo@ + "/releases"@,
{
    let mut v = chars_of("https://api.github.com/repos/");
    crate::theme::append_str(&mut v, repo);
    crate::theme::append_str(&mut v, "/releases");
    crate::text::string_from_chars(v.as_slice())
}

/// The GitHub API address of one tagged release.
pub fn release_tag_url(repo: &str, tag: &str) -> (r: String)
    ensures
        r@ == "https://api.github.com/repos/"@ + repo@ + "/releases/tags/"@ + tag@,
{
    let mut v = chars_of("https://api.github.com/repos/");
    crate::theme::append_str(&mut v, repo);
    crate::theme::append_str(&mut v, "/releases/tags/");
    crate::theme::append_str(&mut v, tag);
    crate::text::string_from_chars(v.as_slice())
}

/// The code point of a character with ASCII capitals lowered.
pub open spec fn ascii_lower(c: char) -> u32 {
    if 'A' <= c && c <= 'Z' {
        (c as u32 + 32) as u32
    } else {
        c as u32
    }
}

/// `str::eq_ignore_ascii_case`: equal texts once ASCII capitals are lowered.
pub open spec fn eq_ignore_ascii_case(a: Seq<char>, b: Seq<char>) -> bool {
    a.len() == b.len() && forall|i: int| 0 <= i < a.len() ==> ascii_lower(#[trigger] a[i]) == ascii_lower(b[i])
}

fn ascii_lower_exec(c: char) -> (r: u32)
    ensures
        r == ascii_lower(c),
{
    if 'A' <= c && c <= 'Z' {
        (c as u32) + 32
    } else {
        c as u32
    }
}

fn eq_ignore_ascii_case_exec(a: &[char], b: &[char]) -> (r: bool)
    ensures
        r == eq_ignore_ascii_case(a@, b@),
{
    if a.len() != b.len() {
        return false;
    }
    let mut i: usize = 0;
    while i < a.len()
        invariant
            a@.len() == b@.len(),
            i <= a@.len(),
            forall|k: int| 0 <= k < i ==> ascii_lower(#[trigger] a@[k]) == ascii_lower(b@[k]),
        decreases a@.len() - i,
    {
        if ascii_lower_exec(a[i]) != ascii_lower_exec(b[i]) {
            return false;
        }
        i = i + 1;
    }
    true
}

/// The position of the first asset whose name matches `name` ignoring ASCII case.
pub open spec fn first_asset_named(assets: Seq<GithubAsset>, name: Seq<char>) -> Option<int>
    decreases assets.len(),
{
    if assets.len() == 0 {
        None
    } else if eq_ignore_ascii_case(assets[0].name@, name) {
        Some(0)
    } else {
        match first_asset_named(assets.drop_first(), name) {
            Some(i) => Some(i + 1),
            None => None,
        }
    }
}

/// Finds the asset of release `tag` that is named `asset_name` (ignoring ASCII case).
pub fn find_release_asset(assets: &[GithubAsset], tag: &str, asset_name: &str) -> (r: Result<
    usize,
    LauncherError,
>)
    ensures
        match first_asset_named(assets@, asset_name@) {
            Some(i) => r == Ok::<usize, LauncherError>(i as usize),
            None => r matches Err(e) && e@ == (
                ErrorKind::Validation,
                "release "@ + tag@ + " missing "@ + asset_name@,
            ),
        },
{
    let wanted = chars_of(asset_name);
    assert(assets@.skip(0) =~= assets@);
    let mut i: usize = 0;
    while i < assets.len()
        invariant
            wanted@ == asset_name@,
            i <= assets@.len(),
            first_asset_named(assets@, asset_name@) == match first_asset_named(assets@.skip(i as int), asset_name@) {
                Some(j) => Some(j + i),
                None => None::<int>,
            },
        decreases assets@.len() - i,
    {
        let ghost rest = assets@.skip(i as int);
        assert(rest[0] == assets@[i as int]);
        assert(rest.drop_first() =~= assets@.skip(i + 1));
        let have = chars_of(assets[i].name.as_str());
        if eq_ignore_ascii_case_exec(have.as_slice(), wanted.as_slice()) {
            return Ok(i);
        }
        i = i + 1;
    }
    let mut m = chars_of("release ");
    crate::theme::append_str(&mut m, tag);
    crate::theme::append_str(&mut m, " missing ");
    crate::theme::append_str(&mut m, asset_name);
    Err(LauncherError::Validation(crate::text::string_from_chars(m.as_slice())))
}

/// Refuses to prepare a version when none is selected: a blank tag, or `Unavailable`.
pub fn check_release_tag(tag: &str) -> (r: Result<(), LauncherError>)
    ensures
        (crate::text::trim(tag@).len() == 0 || tag@ == "Unavailable"@) ==> (r matches Err(e) && e@
            == (ErrorKind::Validation, "no release version is selected"@)),
        !(crate::text::trim(tag@).len() == 0 || tag@ == "Unavailable"@) ==> r is Ok,
{
    let trimmed = crate::text::trim_str(tag);
    if trimmed.as_str().is_empty() || crate::text::str_eq(tag, "Unavailable") {
        Err(crate::error::validation_error("no release version is selected"))
    } else {
        Ok(())
    }
}

/// What waiting for the game does next.
#[derive(Debug, Clone, Copy, PartialEq, Eq)]
pub enum WaitStep {
    /// The game runs with this process id.
    Found(u32),
    /// Waited long enough; give up.
    TimedOut,
    /// Sleep this many milliseconds, then look again; `report` asks for a progress line.
    Sleep { millis: u64, report: bool },
}

/// One round of waiting for the game's window: stop when it is found or when the time is up,
/// else sleep half a second (reporting progress every five seconds).
pub fn wait_for_csgo_step(found: Option<u32>, elapsed_secs: u64, timeout_secs: u64) -> (r: WaitStep)
    ensures
        r == match found {
            Some(pid) => WaitStep::Found(pid),
            None => if elapsed_secs >= timeout_secs {
                WaitStep::TimedOut
            } else {
                WaitStep::Sleep { millis: 500, report: elapsed_secs > 0 && elapsed_secs % 5 == 0 }
            },
        },
{
    match found {
        Some(pid) => WaitStep::Found(pid),
        None => if elapsed_secs >= timeout_secs {
            WaitStep::TimedOut
        } else {
            WaitStep::Sleep { millis: 500, report: elapsed_secs > 0 && elapsed_secs % 5 == 0 }
        },
    }
}

/// The error for a game that did not start in time.
pub fn wait_timeout_error() -> (e: LauncherError)
    ensures
        e@ == (ErrorKind::System, "timed out waiting for csgo process"@),
{
    crate::error::system_error("timed out waiting for csgo process")
}

/// The launcher's version lists.
pub fn git_metadata(releases: Vec<LauncherVersion>, nightlies: Vec<LauncherVersion>) -> (r:
    LauncherGitMetadata)
    ensures
        r.releases@ == releases@,
        r.nightlies@ == nightlies@,
{
    LauncherGitMetadata { releases, nightlies }
}

} // verus!
