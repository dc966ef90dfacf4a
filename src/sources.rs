use vstd::prelude::*;

use crate::version::{chars_of, same_text, VersionMatcher};

verus! {

/// The registry a mod is fetched from.
#[derive(PartialEq, Eq, Structural, Clone, Copy, Debug)]
pub enum ModSource {
    Modrinth,
    Github,
}

/// A mod named in the job, with the registry it comes from.
#[derive(PartialEq, Eq, Clone, Debug)]
pub struct Mod {
    pub mod_name: String,
    source: ModSource,
}

impl Mod {
    pub closed spec fn name_spec(&self) -> Seq<char> {
        self.mod_name@
    }

    pub closed spec fn source_spec(&self) -> ModSource {
        self.source
    }

    pub fn new(name: String, source: ModSource) -> (r: Mod)
        ensures
            r.name_spec() == name@,
            r.source_spec() == source,
    {
        Mod { mod_name: name, source }
    }

    pub fn name(&self) -> (r: &String)
        ensures
            r@ == self.name_spec(),
    {
        &self.mod_name
    }

    pub fn source(&self) -> (r: ModSource)
        ensures
            r == self.source_spec(),
    {
        self.source
    }
}

/// A concrete file to download: its name and where to get it.
#[derive(PartialEq, Eq, Clone, Debug)]
pub struct DownloadableMod {
    pub filename: String,
    download_link: String,
}

impl DownloadableMod {
    pub closed spec fn filename_spec(&self) -> Seq<char> {
        self.filename@
    }

    pub closed spec fn link_spec(&self) -> Seq<char> {
        self.download_link@
    }

    pub fn new(filename: String, download_link: String) -> (r: DownloadableMod)
        ensures
            r.filename_spec() == filename@,
            r.link_spec() == download_link@,
    {
        DownloadableMod { filename, download_link }
    }

    pub fn filename(&self) -> (r: &String)
        ensures
            r@ == self.filename_spec(),
    {
        &self.filename
    }

    pub fn download_link(&self) -> (r: &String)
        ensures
            r@ == self.link_spec(),
    {
        &self.download_link
    }
}

/// Why a registry's answer yielded no file.
#[derive(PartialEq, Eq, Structural, Clone, Copy, Debug)]
pub enum ResolveError {
    /// The project name holds whitespace; no request is made for it.
    InvalidName,
    /// No release or version fits the target game version (and loader).
    NoMatchingVersion,
    /// The chosen release or version lists no file.
    NoFiles,
}

/// An asset of a GitHub release.
pub struct GithubAsset {
    pub name: String,
    pub browser_download_url: String,
}

/// A GitHub release, as the releases endpoint lists it.
pub struct GithubRelease {
    pub tag_name: String,
    pub name: String,
    pub assets: Vec<GithubAsset>,
}

/// A file of a Modrinth project version.
pub struct ModrinthFile {
    pub filename: String,
    pub url: String,
    pub primary: bool,
}

/// A Modrinth project version, as the version endpoint lists it.
pub struct ModrinthVersion {
    pub name: String,
    pub files: Vec<ModrinthFile>,
    pub game_versions: Vec<String>,
    pub loaders: Vec<String>,
}

/// A GitHub release fits the target when its tag or its title does.
pub open spec fn release_fits(m: VersionMatcher, r: GithubRelease) -> bool {
    m.accepts(r.tag_name@) || m.accepts(r.name@)
}

/// `i` is the first index of `s` whose element satisfies `p`.
pub open spec fn first_with<T>(s: Seq<T>, p: spec_fn(T) -> bool, i: int) -> bool {
    0 <= i < s.len() && p(s[i]) && forall|j: int| 0 <= j < i ==> !p(#[trigger] s[j])
}

/// No element of `s` satisfies `p`.
pub open spec fn none_with<T>(s: Seq<T>, p: spec_fn(T) -> bool) -> bool {
    forall|j: int| 0 <= j < s.len() ==> !p(#[trigger] s[j])
}

/// Whether a GitHub release fits the target, by its tag or by its title.
pub fn check_version(release: &GithubRelease, version: &VersionMatcher) -> (r: bool)
    ensures
        r == release_fits(*version, *release),
{
    version.matches(release.tag_name.as_str()) || version.matches(release.name.as_str())
}

/// The artifact for the first release that fits the target: the first asset of that release.
pub fn select_github(releases: &Vec<GithubRelease>, version: &VersionMatcher) -> (r: Result<
    DownloadableMod,
    ResolveError,
>)
    ensures
        ({
            let fits = |x: GithubRelease| release_fits(*version, x);
            match r {
                Ok(a) => exists|i: int|
                    first_with(releases@, fits, i) && releases@[i].assets@.len() > 0
                        && a.filename_spec() == releases@[i].assets@[0].name@ && a.link_spec()
                        == releases@[i].assets@[0].browser_download_url@,
                Err(ResolveError::NoMatchingVersion) => none_with(releases@, fits),
                Err(ResolveError::NoFiles) => exists|i: int|
                    first_with(releases@, fits, i) && releases@[i].assets@.len() == 0,
                Err(ResolveError::InvalidName) => false,
            }
        }),
{
    let ghost fits = |x: GithubRelease| release_fits(*version, x);
    let mut i: usize = 0;
    while i < releases.len()
        invariant
            i <= releases@.len(),
            fits == (|x: GithubRelease| release_fits(*version, x)),
            forall|j: int| 0 <= j < i ==> !fits(#[trigger] releases@[j]),
        decreases releases.len() - i,
    {
        let rel = &releases[i];
        if check_version(rel, version) {
            assert(first_with(releases@, fits, i as int));
            if rel.assets.len() == 0 {
                return Err(ResolveError::NoFiles);
            }
            let asset = &rel.assets[0];
            return Ok(
                DownloadableMod::new(asset.name.clone(), asset.browser_download_url.clone()),
            );
        }
        i += 1;
    }
    Err(ResolveError::NoMatchingVersion)
}

/// One of the characters that `char::is_ascii_whitespace` accepts.
pub open spec fn is_blank(c: char) -> bool {
    c == ' ' || c == '\t' || c == '\n' || c == '\r' || c == '\x0C'
}

/// A Modrinth project name is usable when it holds no whitespace.
pub fn validate_slug(name: &str) -> (r: Result<(), ResolveError>)
    ensures
        r is Ok <==> forall|i: int| 0 <= i < name@.len() ==> !is_blank(#[trigger] name@[i]),
        r is Err ==> r == Err::<(), ResolveError>(ResolveError::InvalidName),
{
    let s = chars_of(name);
    let mut i: usize = 0;
    while i < s.len()
        invariant
            s@ == name@,
            i <= s@.len(),
            forall|j: int| 0 <= j < i ==> !is_blank(#[trigger] s@[j]),
        decreases s.len() - i,
    {
        let c = s[i];
        if c == ' ' || c == '\t' || c == '\n' || c == '\r' || c == '\x0C' {
            return Err(ResolveError::InvalidName);
        }
        i += 1;
    }
    Ok(())
}

/// Some string of `vs` is accepted by the matcher.
pub open spec fn some_version_fits(m: VersionMatcher, vs: Seq<String>) -> bool {
    exists|i: int| 0 <= i < vs.len() && m.accepts(#[trigger] vs[i]@)
}

/// Some string of `ls` is exactly `loader`.
pub open spec fn lists_loader(ls: Seq<String>, loader: Seq<char>) -> bool {
    exists|i: int| 0 <= i < ls.len() && #[trigger] ls[i]@ == loader
}

/// A Modrinth version fits when it declares a matching game version and the exact loader.
pub open spec fn version_fits(m: VersionMatcher, loader: Seq<char>, v: ModrinthVersion) -> bool {
    some_version_fits(m, v.game_versions@) && lists_loader(v.loaders@, loader)
}

/// `p` is the file to take from `files`: the last one flagged primary, or the first one when
/// none is flagged.
pub open spec fn preferred_file(files: Seq<ModrinthFile>, p: int) -> bool {
    0 <= p < files.len() && if exists|j: int| 0 <= j < files.len() && #[trigger] files[j].primary {
        files[p].primary && forall|j: int| p < j < files.len() ==> !(#[trigger] files[j].primary)
    } else {
        p == 0
    }
}

fn any_version_fits(version: &VersionMatcher, vs: &Vec<String>) -> (r: bool)
    ensures
        r == some_version_fits(*version, vs@),
{
    let mut i: usize = 0;
    while i < vs.len()
        invariant
            i <= vs@.len(),
            forall|j: int| 0 <= j < i ==> !version.accepts(#[trigger] vs@[j]@),
        decreases vs.len() - i,
    {
        if version.matches(vs[i].as_str()) {
            return true;
        }
        i += 1;
    }
    false
}

fn has_loader(ls: &Vec<String>, loader: &str) -> (r: bool)
    ensures
        r == lists_loader(ls@, loader@),
{
    let mut i: usize = 0;
    while i < ls.len()
        invariant
            i <= ls@.len(),
            forall|j: int| 0 <= j < i ==> #[trigger] ls@[j]@ != loader@,
        decreases ls.len() - i,
    {
        if same_text(ls[i].as_str(), loader) {
            return true;
        }
        i += 1;
    }
    false
}

fn pick_file(files: &Vec<ModrinthFile>) -> (p: usize)
    requires
        files@.len() > 0,
    ensures
        preferred_file(files@, p as int),
{
    let mut found: Option<usize> = None;
    let mut i: usize = 0;
    while i < files.len()
        invariant
            i <= files@.len(),
            match found {
                Some(p) => p < i && files@[p as int].primary && forall|j: int|
                    p < j < i ==> !(#[trigger] files@[j].primary),
                None => forall|j: int| 0 <= j < i ==> !(#[trigger] files@[j].primary),
            },
        decreases files.len() - i,
    {
        if files[i].primary {
            found = Some(i);
        }
        i += 1;
    }
    match found {
        Some(p) => p,
        None => 0,
    }
}

/// `r` is what Modrinth selection gives for `versions`: the preferred file of the first version
/// that fits the target and the loader; else the reason there is none.
pub open spec fn modrinth_choice(
    versions: Seq<ModrinthVersion>,
    m: VersionMatcher,
    loader: Seq<char>,
    r: Result<DownloadableMod, ResolveError>,
) -> bool {
    let fits = |x: ModrinthVersion| version_fits(m, loader, x);
    match r {
        Ok(a) => exists|i: int, p: int|
            first_with(versions, fits, i) && preferred_file(versions[i].files@, p)
                && a.filename_spec() == versions[i].files@[p].filename@ && a.link_spec()
                == versions[i].files@[p].url@,
        Err(ResolveError::NoMatchingVersion) => none_with(versions, fits),
        Err(ResolveError::NoFiles) => exists|i: int|
            first_with(versions, fits, i) && versions[i].files@.len() == 0,
        Err(ResolveError::InvalidName) => false,
    }
}

/// Law of Modrinth selection: when exactly one version fits the target and the loader, and it
/// lists files, selection succeeds with that version's last file flagged primary, or with its
/// first file when none is flagged.
pub proof fn lemma_single_fitting_version(
    versions: Seq<ModrinthVersion>,
    m: VersionMatcher,
    loader: Seq<char>,
    k: int,
    r: Result<DownloadableMod, ResolveError>,
)
    requires
        0 <= k < versions.len(),
        version_fits(m, loader, versions[k]),
        forall|j: int|
            0 <= j < versions.len() && j != k ==> !version_fits(m, loader, #[trigger] versions[j]),
        versions[k].files@.len() > 0,
        modrinth_choice(versions, m, loader, r),
    ensures
        r matches Ok(a) && exists|p: int|
            preferred_file(versions[k].files@, p) && a.filename_spec()
                == versions[k].files@[p].filename@ && a.link_spec() == versions[k].files@[p].url@,
{
    let fits = |x: ModrinthVersion| version_fits(m, loader, x);
    assert(fits(versions[k]));
    match r {
        Ok(a) => {
            let (i, p) = choose|i: int, p: int|
                first_with(versions, fits, i) && preferred_file(versions[i].files@, p)
                    && a.filename_spec() == versions[i].files@[p].filename@ && a.link_spec()
                    == versions[i].files@[p].url@;
            assert(i == k);
        },
        Err(ResolveError::NoMatchingVersion) => {
            assert(!fits(versions[k]));
        },
        Err(ResolveError::NoFiles) => {
            let i = choose|i: int| first_with(versions, fits, i) && versions[i].files@.len() == 0;
            assert(i == k);
        },
        Err(ResolveError::InvalidName) => {},
    }
}

/// The artifact for the first version that fits the target and the loader: its preferred file.
pub fn select_modrinth(
    versions: &Vec<ModrinthVersion>,
    version: &VersionMatcher,
    loader: &str,
) -> (r: Result<DownloadableMod, ResolveError>)
    ensures
        modrinth_choice(versions@, *version, loader@, r),
{
    let ghost fits = |x: ModrinthVersion| version_fits(*version, loader@, x);
    let mut i: usize = 0;
    while i < versions.len()
        invariant
            i <= versions@.len(),
            fits == (|x: ModrinthVersion| version_fits(*version, loader@, x)),
            forall|j: int| 0 <= j < i ==> !fits(#[trigger] versions@[j]),
        decreases versions.len() - i,
    {
        let v = &versions[i];
        if any_version_fits(version, &v.game_versions) && has_loader(&v.loaders, loader) {
            assert(first_with(versions@, fits, i as int));
            if v.files.len() == 0 {
                return Err(ResolveError::NoFiles);
            }
            let p = pick_file(&v.files);
            let f = &v.files[p];
            return Ok(DownloadableMod::new(f.filename.clone(), f.url.clone()));
        }
        i += 1;
    }
    Err(ResolveError::NoMatchingVersion)
}

} // verus!
