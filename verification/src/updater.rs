//! The updater's decisions: which artifact a platform needs, the URLs to
//! fetch, and how a downloaded archive is to be unpacked. The host performs
//! the fetching, file writing and decompression; everything it needs to
//! decide is computed here.

use vstd::prelude::*;

verus! {

/// What the updater can report.
#[derive(Debug, Clone, Copy, PartialEq, Eq, Structural)]
pub enum UpdaterError {
    /// The running platform has no artifact name.
    UnsupportedPlatform,
    /// The version manifest has no entry for the platform.
    InvalidArch,
    /// No core file was found inside a downloaded archive.
    CoreFileNotFound,
}

/// The cores the updater can manage.
#[derive(Debug, Clone, Copy, PartialEq, Eq, Structural)]
pub enum ClashCore {
    Mihomo,
    MihomoAlpha,
    ClashRs,
    ClashPremium,
}

/// Latest released version of each core, from the version manifest.
#[derive(Debug)]
pub struct ManifestVersionLatest {
    pub mihomo: String,
    pub mihomo_alpha: String,
    pub clash_rs: String,
    pub clash_premium: String,
}

/// Artifact-name templates per architecture, one association list per
/// core: architecture name to template, `{}` standing for the version.
#[derive(Debug)]
pub struct ArchTemplate {
    pub mihomo: Vec<(String, String)>,
    pub mihomo_alpha: Vec<(String, String)>,
    pub clash_rs: Vec<(String, String)>,
    pub clash_premium: Vec<(String, String)>,
}

/// The version manifest the updater works from.
#[derive(Debug)]
pub struct ManifestVersion {
    pub manifest_version: u64,
    pub latest: ManifestVersionLatest,
    pub arch_template: ArchTemplate,
    pub updated_at: String,
}

impl Default for ManifestVersionLatest {
    fn default() -> (r: Self)
        ensures
            r.mihomo@ == Seq::<char>::empty(),
            r.mihomo_alpha@ == Seq::<char>::empty(),
            r.clash_rs@ == Seq::<char>::empty(),
            r.clash_premium@ == Seq::<char>::empty(),
    {
        ManifestVersionLatest {
            mihomo: String::new(),
            mihomo_alpha: String::new(),
            clash_rs: String::new(),
            clash_premium: String::new(),
        }
    }
}

impl Default for ArchTemplate {
    fn default() -> (r: Self)
        ensures
            r.mihomo@.len() == 0,
            r.mihomo_alpha@.len() == 0,
            r.clash_rs@.len() == 0,
            r.clash_premium@.len() == 0,
    {
        ArchTemplate {
            mihomo: Vec::new(),
            mihomo_alpha: Vec::new(),
            clash_rs: Vec::new(),
            clash_premium: Vec::new(),
        }
    }
}

impl Default for ManifestVersion {
    fn default() -> (r: Self)
        ensures
            r.manifest_version == 0,
            r.latest.mihomo@ == Seq::<char>::empty(),
            r.latest.mihomo_alpha@ == Seq::<char>::empty(),
            r.latest.clash_rs@ == Seq::<char>::empty(),
            r.latest.clash_premium@ == Seq::<char>::empty(),
            r.arch_template.mihomo@.len() == 0,
            r.arch_template.mihomo_alpha@.len() == 0,
            r.arch_template.clash_rs@.len() == 0,
            r.arch_template.clash_premium@.len() == 0,
            r.updated_at@ == Seq::<char>::empty(),
    {
        ManifestVersion {
            manifest_version: 0,
            latest: ManifestVersionLatest::default(),
            arch_template: ArchTemplate::default(),
            updated_at: String::new(),
        }
    }
}

/// The updater: the manifest it last fetched, and the mirror it fetches
/// through.
#[derive(Debug)]
pub struct Updater {
    pub manifest_version: ManifestVersion,
    pub mirror: String,
}

impl Default for Updater {
    fn default() -> (r: Self)
        ensures
            r.manifest_version.manifest_version == 0,
            r.mirror@ == "https://mirror.ghproxy.com"@,
    {
        Updater {
            manifest_version: ManifestVersion::default(),
            mirror: String::from_str("https://mirror.ghproxy.com"),
        }
    }
}

impl Updater {
    pub fn new() -> (r: Self)
        ensures
            r.manifest_version.manifest_version == 0,
            r.mirror@ == "https://mirror.ghproxy.com"@,
    {
        Updater::default()
    }

    /// The latest versions from the manifest last stored, as a copy.
    pub fn get_latest_versions(&self) -> (r: ManifestVersionLatest)
        ensures
            r.mihomo == self.manifest_version.latest.mihomo,
            r.mihomo_alpha == self.manifest_version.latest.mihomo_alpha,
            r.clash_rs == self.manifest_version.latest.clash_rs,
            r.clash_premium == self.manifest_version.latest.clash_premium,
    {
        ManifestVersionLatest {
            mihomo: self.manifest_version.latest.mihomo.clone(),
            mihomo_alpha: self.manifest_version.latest.mihomo_alpha.clone(),
            clash_rs: self.manifest_version.latest.clash_rs.clone(),
            clash_premium: self.manifest_version.latest.clash_premium.clone(),
        }
    }

    /// Store a freshly fetched manifest; the host fetches it from
    /// `manifest_url(&self.mirror)`.
    pub fn set_manifest(&mut self, m: ManifestVersion)
        ensures
            final(self).manifest_version == m,
            final(self).mirror == old(self).mirror,
    {
        self.manifest_version = m;
    }
}

/// The artifact name for a platform, as the upstream release pipelines
/// name them.
pub fn get_arch(arch: &str, os: &str) -> (r: Result<String, UpdaterError>)
    ensures
        r matches Ok(s) ==> (arch@ == "x86_64"@ && os@ == "macos"@ && s@ == "darwin-x64"@) || (
        arch@ == "x86_64"@ && os@ == "linux"@ && s@ == "linux-amd64"@) || (arch@ == "x86_64"@
            && os@ == "windows"@ && s@ == "windows-x86_64"@) || (arch@ == "aarch64"@ && os@
            == "macos"@ && s@ == "darwin-arm64"@) || (arch@ == "aarch64"@ && os@ == "linux"@ && s@
            == "linux-aarch64"@),
        r is Err ==> r == Result::<String, UpdaterError>::Err(UpdaterError::UnsupportedPlatform),
{
    let x86: bool = str_eq(arch, "x86_64");
    let arm: bool = str_eq(arch, "aarch64");
    if x86 && str_eq(os, "macos") {
        Ok(String::from_str("darwin-x64"))
    } else if x86 && str_eq(os, "linux") {
        Ok(String::from_str("linux-amd64"))
    } else if x86 && str_eq(os, "windows") {
        Ok(String::from_str("windows-x86_64"))
    } else if arm && str_eq(os, "macos") {
        Ok(String::from_str("darwin-arm64"))
    } else if arm && str_eq(os, "linux") {
        Ok(String::from_str("linux-aarch64"))
    } else {
        Err(UpdaterError::UnsupportedPlatform)
    }
}

/// Character-wise string equality.
fn str_eq(a: &str, b: &str) -> (r: bool)
    ensures
        r == (a@ == b@),
{
    let na = a.unicode_len();
    let nb = b.unicode_len();
    if na != nb {
        return false;
    }
    let mut i: usize = 0;
    while i < na
        invariant
            na == a@.len(),
            na == b@.len(),
            0 <= i <= na,
            forall|j: int| 0 <= j < i ==> a@[j] == b@[j],
        decreases na - i,
    {
        if a.get_char(i) != b.get_char(i) {
            return false;
        }
        i = i + 1;
    }
    proof {
        assert(a@ =~= b@);
    }
    true
}

/// `t` with every `{}` replaced by `v`, scanning left to right.
pub open spec fn replace_spec(t: Seq<char>, v: Seq<char>) -> Seq<char>
    decreases t.len(),
{
    if t.len() >= 2 && t[0] == '{' && t[1] == '}' {
        v + replace_spec(t.skip(2), v)
    } else if t.len() == 0 {
        t
    } else {
        seq![t[0]] + replace_spec(t.skip(1), v)
    }
}

/// Substitute the version into an artifact-name template.
pub fn replace_placeholder(t: &str, v: &str) -> (r: String)
    ensures
        r@ == replace_spec(t@, v@),
    decreases t@.len(),
{
    let n = t.unicode_len();
    if n >= 2 && t.get_char(0) == '{' && t.get_char(1) == '}' {
        let tail = t.substring_char(2, n);
        proof {
            assert(tail@ =~= t@.skip(2));
        }
        let rest = replace_placeholder(tail, v);
        String::from_str(v).concat(rest.as_str())
    } else if n == 0 {
        String::new()
    } else {
        let head = t.substring_char(0, 1);
        let tail = t.substring_char(1, n);
        proof {
            assert(tail@ =~= t@.skip(1));
            assert(head@ =~= seq![t@[0]]);
        }
        let rest = replace_placeholder(tail, v);
        String::from_str(head).concat(rest.as_str())
    }
}

/// First value bound to the key in an association list.
pub open spec fn assoc_find(m: Seq<(String, String)>, k: Seq<char>) -> Option<Seq<char>>
    decreases m.len(),
{
    if m.len() == 0 {
        None
    } else if m[0].0@ == k {
        Some(m[0].1@)
    } else {
        assoc_find(m.skip(1), k)
    }
}

proof fn lemma_assoc_find_step(m: Seq<(String, String)>, k: Seq<char>, i: int)
    requires
        0 <= i < m.len(),
        forall|j: int| 0 <= j < i ==> m[j].0@ != k,
    ensures
        m[i].0@ == k ==> assoc_find(m, k) == Some(m[i].1@),
        (forall|j: int| 0 <= j < m.len() ==> m[j].0@ != k) ==> assoc_find(m, k) is None,
    decreases m.len(),
{
    if i > 0 {
        assert(forall|j: int| 0 <= j < m.skip(1).len() ==> m.skip(1)[j] == m[j + 1]);
        lemma_assoc_find_step(m.skip(1), k, i - 1);
    } else {
        if m[0].0@ != k && m.len() > 1 {
            lemma_assoc_find_step(m.skip(1), k, 0);
        }
        if m.len() == 1 && m[0].0@ != k {
            assert(m.skip(1).len() == 0);
        }
    }
}

/// Look a key up in an association list.
fn lookup(m: &Vec<(String, String)>, k: &str) -> (r: Option<String>)
    ensures
        match r {
            Some(v) => assoc_find(m@, k@) == Some(v@),
            None => assoc_find(m@, k@) is None,
        },
{
    let n = m.len();
    let mut i: usize = 0;
    while i < n
        invariant
            n == m@.len(),
            0 <= i <= n,
            forall|j: int| 0 <= j < i ==> m@[j].0@ != k@,
        decreases n - i,
    {
        if str_eq(m[i].0.as_str(), k) {
            proof {
                lemma_assoc_find_step(m@, k@, i as int);
            }
            return Some(m[i].1.clone());
        }
        i = i + 1;
    }
    proof {
        if n > 0 {
            lemma_assoc_find_step(m@, k@, 0);
        }
    }
    None
}

/// Which release a download comes from, with the tag where one is needed.
#[derive(Debug)]
pub enum CoreTypeMeta {
    ClashPremium(String),
    Mihomo(String),
    MihomoAlpha,
    ClashRs(String),
}

/// The templates of one core in the manifest.
pub open spec fn core_template(m: ManifestVersion, c: ClashCore) -> Seq<(String, String)> {
    match c {
        ClashCore::Mihomo => m.arch_template.mihomo@,
        ClashCore::MihomoAlpha => m.arch_template.mihomo_alpha@,
        ClashCore::ClashRs => m.arch_template.clash_rs@,
        ClashCore::ClashPremium => m.arch_template.clash_premium@,
    }
}

/// The latest version of one core in the manifest.
pub open spec fn core_version(m: ManifestVersion, c: ClashCore) -> Seq<char> {
    match c {
        ClashCore::Mihomo => m.latest.mihomo@,
        ClashCore::MihomoAlpha => m.latest.mihomo_alpha@,
        ClashCore::ClashRs => m.latest.clash_rs@,
        ClashCore::ClashPremium => m.latest.clash_premium@,
    }
}

/// Pick the artifact a platform needs: the core's template for the
/// architecture, with the latest version substituted. `InvalidArch`
/// exactly when the manifest has no template for the architecture.
pub fn resolve_artifact(m: &ManifestVersion, core: &ClashCore, arch: &str) -> (r: Result<
    String,
    UpdaterError,
>)
    ensures
        r is Ok <==> assoc_find(core_template(*m, *core), arch@) is Some,
        r matches Ok(a) ==> a@ == replace_spec(
            assoc_find(core_template(*m, *core), arch@).unwrap(),
            core_version(*m, *core),
        ),
        r is Err ==> r == Result::<String, UpdaterError>::Err(UpdaterError::InvalidArch),
{
    let tpl = match core {
        ClashCore::Mihomo => lookup(&m.arch_template.mihomo, arch),
        ClashCore::MihomoAlpha => lookup(&m.arch_template.mihomo_alpha, arch),
        ClashCore::ClashRs => lookup(&m.arch_template.clash_rs, arch),
        ClashCore::ClashPremium => lookup(&m.arch_template.clash_premium, arch),
    };
    match tpl {
        Some(t) => {
            let version = match core {
                ClashCore::Mihomo => m.latest.mihomo.as_str(),
                ClashCore::MihomoAlpha => m.latest.mihomo_alpha.as_str(),
                ClashCore::ClashRs => m.latest.clash_rs.as_str(),
                ClashCore::ClashPremium => m.latest.clash_premium.as_str(),
            };
            Ok(replace_placeholder(t.as_str(), version))
        },
        None => Err(UpdaterError::InvalidArch),
    }
}

/// The release tag and version metadata for a core.
pub fn core_meta(m: &ManifestVersion, core: &ClashCore) -> (r: CoreTypeMeta)
    ensures
        match (core, r) {
            (ClashCore::Mihomo, CoreTypeMeta::Mihomo(tag)) => tag@ == m.latest.mihomo@,
            (ClashCore::MihomoAlpha, CoreTypeMeta::MihomoAlpha) => true,
            (ClashCore::ClashRs, CoreTypeMeta::ClashRs(tag)) => tag@ == m.latest.clash_rs@,
            (ClashCore::ClashPremium, CoreTypeMeta::ClashPremium(tag)) => tag@
                == m.latest.clash_premium@,
            _ => false,
        },
{
    match core {
        ClashCore::Mihomo => CoreTypeMeta::Mihomo(m.latest.mihomo.clone()),
        ClashCore::MihomoAlpha => CoreTypeMeta::MihomoAlpha,
        ClashCore::ClashRs => CoreTypeMeta::ClashRs(m.latest.clash_rs.clone()),
        ClashCore::ClashPremium => CoreTypeMeta::ClashPremium(m.latest.clash_premium.clone()),
    }
}

/// The repository path a release artifact is downloaded from.
pub fn get_download_path(core_type: CoreTypeMeta, artifact: String) -> (r: String)
    ensures
        r@ == (match core_type {
            CoreTypeMeta::Mihomo(tag) => "MetaCubeX/mihomo/releases/download/"@ + tag@ + "/"@
                + artifact@,
            CoreTypeMeta::MihomoAlpha => "MetaCubeX/mihomo/releases/download/Prerelease-Alpha/"@
                + artifact@,
            CoreTypeMeta::ClashRs(tag) => "Watfaq/clash-rs/releases/download/"@ + tag@ + "/"@
                + artifact@,
            CoreTypeMeta::ClashPremium(tag) => "zhongfly/Clash-premium-backup/releases/download/"@
                + tag@ + "/"@ + artifact@,
        }),
{
    match core_type {
        CoreTypeMeta::Mihomo(tag) => String::from_str("MetaCubeX/mihomo/releases/download/")
            .concat(tag.as_str()).concat("/").concat(artifact.as_str()),
        CoreTypeMeta::MihomoAlpha => String::from_str(
            "MetaCubeX/mihomo/releases/download/Prerelease-Alpha/",
        ).concat(artifact.as_str()),
        CoreTypeMeta::ClashRs(tag) => String::from_str("Watfaq/clash-rs/releases/download/")
            .concat(tag.as_str()).concat("/").concat(artifact.as_str()),
        CoreTypeMeta::ClashPremium(tag) => String::from_str(
            "zhongfly/Clash-premium-backup/releases/download/",
        ).concat(tag.as_str()).concat("/").concat(artifact.as_str()),
    }
}

/// Where the version manifest lives on a mirror.
pub fn manifest_url(mirror: &str) -> (r: String)
    ensures
        r@ == mirror@ + "/greenhat616/clash-nyanpasu/raw/dev/manifest/version.json"@,
{
    String::from_str(mirror).concat("/greenhat616/clash-nyanpasu/raw/dev/manifest/version.json")
}

/// A download URL on the mirror.
pub fn download_url(mirror: &str, path: &str) -> (r: String)
    ensures
        r@ == mirror@ + "/"@ + path@,
{
    String::from_str(mirror).concat("/").concat(path)
}

/// `n` occurs in `h` starting at `i`.
pub open spec fn is_match_at(h: Seq<char>, n: Seq<char>, i: int) -> bool {
    0 <= i && i + n.len() <= h.len() && h.subrange(i, i + n.len()) == n
}

/// `n` occurs somewhere in `h`.
pub open spec fn contains_sub(h: Seq<char>, n: Seq<char>) -> bool {
    exists|i: int| is_match_at(h, n, i)
}

fn match_at(h: &str, n: &str, i: usize) -> (r: bool)
    requires
        i + n@.len() <= h@.len(),
    ensures
        r == is_match_at(h@, n@, i as int),
{
    let lh = h.unicode_len();
    let ln = n.unicode_len();
    let mut j: usize = 0;
    while j < ln
        invariant
            lh == h@.len(),
            ln == n@.len(),
            i + ln <= lh,
            0 <= j <= ln,
            forall|x: int| 0 <= x < j ==> h@[i + x] == n@[x],
        decreases ln - j,
    {
        if h.get_char(i + j) != n.get_char(j) {
            proof {
                assert(h@.subrange(i as int, i as int + n@.len())[j as int] == h@[i + j]);
            }
            return false;
        }
        j = j + 1;
    }
    proof {
        assert(h@.subrange(i as int, i as int + n@.len()) =~= n@);
    }
    true
}

/// Whether `n` occurs in `h`.
pub fn contains_str(h: &str, n: &str) -> (r: bool)
    ensures
        r == contains_sub(h@, n@),
{
    let lh = h.unicode_len();
    let ln = n.unicode_len();
    if ln > lh {
        proof {
            assert(forall|i: int| !is_match_at(h@, n@, i));
        }
        return false;
    }
    if ln == 0 {
        proof {
            assert(h@.subrange(0, 0) =~= n@);
            assert(is_match_at(h@, n@, 0));
        }
        return true;
    }
    let mut i: usize = 0;
    while i <= lh - ln
        invariant
            lh == h@.len(),
            ln == n@.len(),
            1 <= ln <= lh,
            0 <= i <= lh - ln + 1,
            forall|x: int| 0 <= x < i ==> !is_match_at(h@, n@, x),
        decreases lh - i,
    {
        if match_at(h, n, i) {
            return true;
        }
        i = i + 1;
    }
    proof {
        assert(forall|x: int| x > lh - ln ==> !is_match_at(h@, n@, x));
    }
    false
}

/// How a downloaded artifact is unpacked, decided by its file name.
#[derive(Debug, Clone, Copy, PartialEq, Eq, Structural)]
pub enum ArchiveKind {
    Gzip,
    Zip,
    Plain,
}

/// A name ends in the suffix.
pub open spec fn ends_with(s: Seq<char>, suffix: Seq<char>) -> bool {
    s.len() >= suffix.len() && s.subrange(s.len() - suffix.len(), s.len() as int) == suffix
}

/// Decide how to unpack a downloaded file: by the `.gz` or `.zip` suffix
/// of its name, anything else is used as it is.
pub fn archive_kind(fname: &str) -> (r: ArchiveKind)
    ensures
        r == ArchiveKind::Gzip <==> ends_with(fname@, ".gz"@),
        r == ArchiveKind::Zip <==> (!ends_with(fname@, ".gz"@) && ends_with(fname@, ".zip"@)),
{
    proof {
        reveal_strlit(".gz");
        reveal_strlit(".zip");
    }
    let n = fname.unicode_len();
    if n >= 3 && match_at(fname, ".gz", n - 3) {
        ArchiveKind::Gzip
    } else if n >= 4 && match_at(fname, ".zip", n - 4) {
        ArchiveKind::Zip
    } else {
        ArchiveKind::Plain
    }
}

/// A name inside an archive is the core executable when it mentions one
/// of the core families.
pub open spec fn core_name(name: Seq<char>) -> bool {
    contains_sub(name, "mihomo"@) || contains_sub(name, "clash"@)
}

/// Whether a name inside an archive is the core executable.
pub fn is_core_file_name(name: &str) -> (r: bool)
    ensures
        r == core_name(name@),
{
    contains_str(name, "mihomo") || contains_str(name, "clash")
}

/// Pick the archive entry holding the core: the first whose name mentions
/// a core family. `CoreFileNotFound` exactly when none does.
pub fn find_core_entry(names: &Vec<String>) -> (r: Result<usize, UpdaterError>)
    ensures
        r matches Ok(i) ==> i < names@.len() && core_name(names@[i as int]@) && (forall|j: int|
            0 <= j < i ==> !core_name(names@[j]@)),
        r is Err ==> r == Result::<usize, UpdaterError>::Err(UpdaterError::CoreFileNotFound) && (
        forall|j: int| 0 <= j < names@.len() ==> !core_name(names@[j]@)),
{
    let n = names.len();
    let mut i: usize = 0;
    while i < n
        invariant
            n == names@.len(),
            0 <= i <= n,
            forall|j: int| 0 <= j < i ==> !core_name(names@[j]@),
        decreases n - i,
    {
        if is_core_file_name(names[i].as_str()) {
            return Ok(i);
        }
        i = i + 1;
    }
    Err(UpdaterError::CoreFileNotFound)
}

} // verus!
