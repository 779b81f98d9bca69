//! The DevOps contract in four dimensions: stages (when to check what),
//! platforms (external carriers), sources (where the truth lives) and scopes
//! (which rules apply to which component).
use vstd::prelude::*;
use crate::text::{opt_is, str_is,
    chars_of, find_from, lines, lines_chars, split, split_chars, starts_with, starts_with_chars,
    string_of, strip_prefix_chars, trim, trim_chars, trim_end_matches, trim_end_matches_chars,
    trim_start_matches, trim_start_matches_chars,
};

verus! {

/// A coverage percentage, held as the IEEE-754 binary64 bits of the number
/// (`f64::to_bits`), so that it passes through unchanged.
#[derive(Debug, Clone, Copy, PartialEq, Eq, Structural)]
pub struct Threshold {
    pub bits: u64,
}

/// The bits of 70.0, the default coverage threshold.
pub const DEFAULT_THRESHOLD_BITS: u64 = 0x4051800000000000u64;

/// The whole contract.
#[derive(Debug)]
pub struct Contract {
    pub stages: Stages,
    pub platforms: Platforms,
    pub sources: Sources,
    pub scopes: Vec<Scope>,
}

/// Stages: the beat of the value stream.
#[derive(Debug)]
pub struct Stages {
    pub build: StageBuild,
    pub test: StageTest,
    pub release: StageRelease,
}

#[derive(Debug)]
pub struct StageBuild {
    pub command: Option<String>,
}

#[derive(Debug)]
pub struct StageTest {
    pub command: Option<String>,
    pub threshold: Threshold,
}

#[derive(Debug)]
pub struct StageRelease {
    pub changelog: String,
    pub pre_publish: Vec<String>,
}

/// Platforms: the external carriers.
#[derive(Debug)]
pub struct Platforms {
    pub source_control: String,
    pub ci: String,
    pub artifact_registry: Registry,
}

/// Sources: where versions are read from.
#[derive(Debug)]
pub struct Sources {
    pub version: VersionSource,
}

#[derive(Debug)]
pub struct VersionSource {
    pub source_type: SourceType,
    pub path: Option<String>,
}

#[derive(Debug, Clone, Copy, PartialEq, Eq, Structural)]
pub enum SourceType {
    Cargo,
    Python,
    Go,
    Dart,
    Node,
    Auto,
}

/// Scopes: per-component overrides.
#[derive(Debug)]
pub struct Scope {
    pub name: String,
    pub dir: String,
    pub language: Language,
    pub framework: String,
    pub build_tool: BuildTool,
    pub registry: Registry,
    pub release: StageRelease,
    pub test_threshold: Option<Threshold>,
}

#[derive(Debug)]
pub enum Language {
    Rust,
    Python,
    Go,
    Dart,
    TypeScript,
    Unknown(String),
}

#[derive(Debug)]
pub enum BuildTool {
    Cargo,
    Uv,
    Go,
    Flutter,
    Npm,
    Unknown(String),
}

#[derive(Debug, Clone, Copy, PartialEq, Eq, Structural)]
pub enum Registry {
    Crates,
    PyPI,
    PubDev,
    Npm,
    GitHubReleases,
    Docker,
    NoRegistry,
}

/// Whether a version tag and the configured version agree.
#[derive(Debug)]
pub struct VersionStatus {
    pub tag_version: Option<String>,
    pub config_version: Option<String>,
    pub consistent: bool,
}

pub open spec fn language_name(l: Language) -> Seq<char> {
    match l {
        Language::Rust => "Rust"@,
        Language::Python => "Python"@,
        Language::Go => "Go"@,
        Language::Dart => "Dart"@,
        Language::TypeScript => "TypeScript"@,
        Language::Unknown(s) => s@,
    }
}

pub open spec fn build_tool_name(b: BuildTool) -> Seq<char> {
    match b {
        BuildTool::Cargo => "cargo"@,
        BuildTool::Uv => "uv"@,
        BuildTool::Go => "go build"@,
        BuildTool::Flutter => "flutter build"@,
        BuildTool::Npm => "npm"@,
        BuildTool::Unknown(s) => s@,
    }
}

pub open spec fn registry_name(r: Registry) -> Seq<char> {
    match r {
        Registry::Crates => "crates.io"@,
        Registry::PyPI => "PyPI"@,
        Registry::PubDev => "pub.dev"@,
        Registry::Npm => "npm"@,
        Registry::GitHubReleases => "GitHub Releases"@,
        Registry::Docker => "Docker"@,
        Registry::NoRegistry => "无"@,
    }
}

impl Language {
    pub fn name(&self) -> (r: &str)
        ensures
            r@ == language_name(*self),
    {
        match self {
            Language::Rust => "Rust",
            Language::Python => "Python",
            Language::Go => "Go",
            Language::Dart => "Dart",
            Language::TypeScript => "TypeScript",
            Language::Unknown(s) => s.as_str(),
        }
    }

    /// A copy of the language.
    pub fn duplicate(&self) -> (r: Language)
        ensures
            language_name(r) == language_name(*self),
            r is Unknown <==> self is Unknown,
            r is Rust <==> self is Rust,
            r is Python <==> self is Python,
            r is Go <==> self is Go,
            r is Dart <==> self is Dart,
            r is TypeScript <==> self is TypeScript,
    {
        match self {
            Language::Rust => Language::Rust,
            Language::Python => Language::Python,
            Language::Go => Language::Go,
            Language::Dart => Language::Dart,
            Language::TypeScript => Language::TypeScript,
            Language::Unknown(s) => Language::Unknown(s.clone()),
        }
    }
}

impl BuildTool {
    pub fn name(&self) -> (r: &str)
        ensures
            r@ == build_tool_name(*self),
    {
        match self {
            BuildTool::Cargo => "cargo",
            BuildTool::Uv => "uv",
            BuildTool::Go => "go build",
            BuildTool::Flutter => "flutter build",
            BuildTool::Npm => "npm",
            BuildTool::Unknown(s) => s.as_str(),
        }
    }
}

impl Registry {
    pub fn name(&self) -> (r: &str)
        ensures
            r@ == registry_name(*self),
    {
        match self {
            Registry::Crates => "crates.io",
            Registry::PyPI => "PyPI",
            Registry::PubDev => "pub.dev",
            Registry::Npm => "npm",
            Registry::GitHubReleases => "GitHub Releases",
            Registry::Docker => "Docker",
            Registry::NoRegistry => "无",
        }
    }
}

// ───────────────────────────── defaults ────────────────────────────────

impl Default for StageRelease {
    fn default() -> (r: StageRelease)
        ensures
            r.changelog@ == "CHANGELOG.md"@,
            r.pre_publish@.len() == 0,
    {
        StageRelease { changelog: String::from_str("CHANGELOG.md"), pre_publish: Vec::new() }
    }
}

impl Default for Stages {
    fn default() -> (r: Stages)
        ensures
            r.build.command is None,
            r.test.command is None,
            r.test.threshold.bits == DEFAULT_THRESHOLD_BITS,
            r.release.changelog@ == "CHANGELOG.md"@,
            r.release.pre_publish@.len() == 0,
    {
        Stages {
            build: StageBuild { command: None },
            test: StageTest { command: None, threshold: Threshold { bits: DEFAULT_THRESHOLD_BITS } },
            release: StageRelease::default(),
        }
    }
}

impl Default for Platforms {
    fn default() -> (r: Platforms)
        ensures
            r.source_control@ == "github"@,
            r.ci@ == "github_actions"@,
            r.artifact_registry == Registry::NoRegistry,
    {
        Platforms {
            source_control: String::from_str("github"),
            ci: String::from_str("github_actions"),
            artifact_registry: Registry::NoRegistry,
        }
    }
}

impl Default for VersionSource {
    fn default() -> (r: VersionSource)
        ensures
            r.source_type == SourceType::Auto,
            r.path is None,
    {
        VersionSource { source_type: SourceType::Auto, path: None }
    }
}

impl Default for Sources {
    fn default() -> (r: Sources)
        ensures
            r.version.source_type == SourceType::Auto,
            r.version.path is None,
    {
        Sources { version: VersionSource::default() }
    }
}

/// Whether `c` is the contract used when none can be read.
pub open spec fn is_default_contract(c: Contract) -> bool {
    &&& c.stages.build.command is None
    &&& c.stages.test.command is None
    &&& c.stages.test.threshold.bits == DEFAULT_THRESHOLD_BITS
    &&& c.stages.release.changelog@ == "CHANGELOG.md"@
    &&& c.stages.release.pre_publish@.len() == 0
    &&& c.platforms.source_control@ == "github"@
    &&& c.platforms.ci@ == "github_actions"@
    &&& c.platforms.artifact_registry == Registry::NoRegistry
    &&& c.sources.version.source_type == SourceType::Auto
    &&& c.sources.version.path is None
    &&& c.scopes@.len() == 0
}

/// The contract used when none can be read.
pub fn default_contract() -> (r: Contract)
    ensures
        is_default_contract(r),
{
    Contract {
        stages: Stages::default(),
        platforms: Platforms::default(),
        sources: Sources::default(),
        scopes: Vec::new(),
    }
}


// ─────────────────────────── contract documents ────────────────────────

/// The contract file in the four-dimension format, as read.
#[derive(Debug)]
pub struct ContractYaml {
    pub stages: Option<StagesYaml>,
    pub platforms: Option<PlatformsYaml>,
    pub sources: Option<SourcesYaml>,
    /// Scope name and settings, in ascending name order.
    pub scopes: Option<Vec<(String, ScopeYaml)>>,
}

#[derive(Debug)]
pub struct StagesYaml {
    pub build: Option<BuildYaml>,
    pub test: Option<TestYaml>,
    pub release: Option<ReleaseYaml>,
}

#[derive(Debug)]
pub struct BuildYaml {
    pub command: Option<String>,
}

#[derive(Debug)]
pub struct TestYaml {
    pub command: Option<String>,
    pub threshold: Option<Threshold>,
}

#[derive(Debug)]
pub struct ReleaseYaml {
    pub changelog: Option<String>,
    pub pre_publish: Option<Vec<String>>,
}

#[derive(Debug)]
pub struct PlatformsYaml {
    pub source_control: Option<String>,
    pub ci: Option<String>,
    pub artifact_registry: Option<String>,
}

#[derive(Debug)]
pub struct SourcesYaml {
    pub version: Option<VersionSourceYaml>,
}

#[derive(Debug)]
pub struct VersionSourceYaml {
    pub source_type: Option<String>,
    pub path: Option<String>,
}

#[derive(Debug)]
pub struct ScopeYaml {
    pub dir: String,
    pub language: Option<String>,
    pub framework: Option<String>,
    pub build_tool: Option<String>,
    pub registry: Option<String>,
    pub release: Option<ReleaseYaml>,
    pub test_threshold: Option<Threshold>,
}

/// The older format: scope name to directory, in ascending name order.
#[derive(Debug)]
pub struct OldContractYaml {
    pub scopes: Vec<(String, String)>,
}

pub open spec fn opt_view(o: Option<String>) -> Option<Seq<char>> {
    match o {
        Some(s) => Some(s@),
        None => None,
    }
}

pub open spec fn or_default(o: Option<String>, d: Seq<char>) -> Seq<char> {
    match o {
        Some(s) => s@,
        None => d,
    }
}

/// The registry a name stands for.
pub open spec fn registry_of(s: Option<Seq<char>>) -> Registry {
    match s {
        Some(n) => if n == "crates"@ {
            Registry::Crates
        } else if n == "pypi"@ {
            Registry::PyPI
        } else if n == "pubdev"@ {
            Registry::PubDev
        } else if n == "npm"@ {
            Registry::Npm
        } else if n == "github"@ || n == "github_releases"@ {
            Registry::GitHubReleases
        } else if n == "docker"@ {
            Registry::Docker
        } else {
            Registry::NoRegistry
        },
        None => Registry::NoRegistry,
    }
}

pub fn parse_registry(s: Option<&str>) -> (r: Registry)
    ensures
        r == registry_of(
            match s {
                Some(x) => Some(x@),
                None => None,
            },
        ),
{
    match s {
        Some(n) => if str_is(n, "crates") {
            Registry::Crates
        } else if str_is(n, "pypi") {
            Registry::PyPI
        } else if str_is(n, "pubdev") {
            Registry::PubDev
        } else if str_is(n, "npm") {
            Registry::Npm
        } else if str_is(n, "github") || str_is(n, "github_releases") {
            Registry::GitHubReleases
        } else if str_is(n, "docker") {
            Registry::Docker
        } else {
            Registry::NoRegistry
        },
        None => Registry::NoRegistry,
    }
}

/// The version source a name stands for.
pub open spec fn source_type_of(s: Option<Seq<char>>) -> SourceType {
    match s {
        Some(n) => if n == "cargo"@ {
            SourceType::Cargo
        } else if n == "python"@ {
            SourceType::Python
        } else if n == "go"@ {
            SourceType::Go
        } else if n == "dart"@ {
            SourceType::Dart
        } else if n == "node"@ || n == "typescript"@ {
            SourceType::Node
        } else {
            SourceType::Auto
        },
        None => SourceType::Auto,
    }
}

pub fn parse_source_type(s: Option<&str>) -> (r: SourceType)
    ensures
        r == source_type_of(
            match s {
                Some(x) => Some(x@),
                None => None,
            },
        ),
{
    match s {
        Some(n) => if str_is(n, "cargo") {
            SourceType::Cargo
        } else if str_is(n, "python") {
            SourceType::Python
        } else if str_is(n, "go") {
            SourceType::Go
        } else if str_is(n, "dart") {
            SourceType::Dart
        } else if str_is(n, "node") || str_is(n, "typescript") {
            SourceType::Node
        } else {
            SourceType::Auto
        },
        None => SourceType::Auto,
    }
}

/// Whether `l` is the language a declared name stands for (`auto` when none).
pub open spec fn language_is(l: Language, s: Option<Seq<char>>) -> bool {
    match s {
        Some(n) => if n == "rust"@ {
            l is Rust
        } else if n == "python"@ {
            l is Python
        } else if n == "go"@ {
            l is Go
        } else if n == "dart"@ {
            l is Dart
        } else if n == "typescript"@ || n == "ts"@ || n == "node"@ {
            l is TypeScript
        } else {
            l matches Language::Unknown(x) && x@ == n
        },
        None => l matches Language::Unknown(x) && x@ == "auto"@,
    }
}

pub fn parse_language(s: Option<String>) -> (r: Language)
    ensures
        language_is(r, opt_view(s)),
{
    match s {
        Some(n) => if str_is(n.as_str(), "rust") {
            Language::Rust
        } else if str_is(n.as_str(), "python") {
            Language::Python
        } else if str_is(n.as_str(), "go") {
            Language::Go
        } else if str_is(n.as_str(), "dart") {
            Language::Dart
        } else if str_is(n.as_str(), "typescript") || str_is(n.as_str(), "ts") || str_is(
            n.as_str(),
            "node",
        ) {
            Language::TypeScript
        } else {
            Language::Unknown(n)
        },
        None => Language::Unknown(String::from_str("auto")),
    }
}

/// Whether `b` is the build tool a declared name stands for (`auto` when none).
pub open spec fn build_tool_is(b: BuildTool, s: Option<Seq<char>>) -> bool {
    match s {
        Some(n) => if n == "cargo"@ {
            b is Cargo
        } else if n == "uv"@ {
            b is Uv
        } else if n == "go"@ {
            b is Go
        } else if n == "flutter"@ {
            b is Flutter
        } else if n == "npm"@ {
            b is Npm
        } else {
            b matches BuildTool::Unknown(x) && x@ == n
        },
        None => b matches BuildTool::Unknown(x) && x@ == "auto"@,
    }
}

pub fn parse_build_tool(s: Option<String>) -> (r: BuildTool)
    ensures
        build_tool_is(r, opt_view(s)),
{
    match s {
        Some(n) => if str_is(n.as_str(), "cargo") {
            BuildTool::Cargo
        } else if str_is(n.as_str(), "uv") {
            BuildTool::Uv
        } else if str_is(n.as_str(), "go") {
            BuildTool::Go
        } else if str_is(n.as_str(), "flutter") {
            BuildTool::Flutter
        } else if str_is(n.as_str(), "npm") {
            BuildTool::Npm
        } else {
            BuildTool::Unknown(n)
        },
        None => BuildTool::Unknown(String::from_str("auto")),
    }
}

/// Whether `r` is the release settings that a release section gives.
pub open spec fn release_from(y: Option<ReleaseYaml>, r: StageRelease) -> bool {
    match y {
        Some(y) => {
            &&& r.changelog@ == or_default(y.changelog, "CHANGELOG.md"@)
            &&& r.pre_publish.deep_view() == match y.pre_publish {
                Some(p) => p.deep_view(),
                None => Seq::empty(),
            }
        },
        None => r.changelog@ == "CHANGELOG.md"@ && r.pre_publish@.len() == 0,
    }
}

fn release_of(y: Option<ReleaseYaml>) -> (r: StageRelease)
    ensures
        release_from(y, r),
{
    match y {
        Some(y) => {
            let changelog = match y.changelog {
                Some(c) => c,
                None => String::from_str("CHANGELOG.md"),
            };
            let pre_publish = match y.pre_publish {
                Some(p) => p,
                None => Vec::new(),
            };
            proof {
                assert(pre_publish@.len() == 0 ==> pre_publish.deep_view() =~= Seq::empty());
            }
            StageRelease { changelog, pre_publish }
        },
        None => StageRelease::default(),
    }
}

/// Whether `s` is the stages that a stages section gives.
pub open spec fn stages_from(y: Option<StagesYaml>, s: Stages) -> bool {
    match y {
        Some(y) => {
            &&& opt_view(s.build.command) == match y.build {
                Some(b) => opt_view(b.command),
                None => None,
            }
            &&& opt_view(s.test.command) == match y.test {
                Some(t) => opt_view(t.command),
                None => None,
            }
            &&& s.test.threshold.bits == match y.test {
                Some(t) => match t.threshold {
                    Some(x) => x.bits,
                    None => DEFAULT_THRESHOLD_BITS,
                },
                None => DEFAULT_THRESHOLD_BITS,
            }
            &&& release_from(y.release, s.release)
        },
        None => {
            &&& s.build.command is None
            &&& s.test.command is None
            &&& s.test.threshold.bits == DEFAULT_THRESHOLD_BITS
            &&& release_from(None, s.release)
        },
    }
}

fn stages_of(y: Option<StagesYaml>) -> (r: Stages)
    ensures
        stages_from(y, r),
{
    match y {
        Some(y) => {
            let build_command = match y.build {
                Some(b) => b.command,
                None => None,
            };
            let (test_command, threshold) = match y.test {
                Some(t) => (
                    t.command,
                    match t.threshold {
                        Some(x) => x,
                        None => Threshold { bits: DEFAULT_THRESHOLD_BITS },
                    },
                ),
                None => (None, Threshold { bits: DEFAULT_THRESHOLD_BITS }),
            };
            Stages {
                build: StageBuild { command: build_command },
                test: StageTest { command: test_command, threshold },
                release: release_of(y.release),
            }
        },
        None => Stages::default(),
    }
}

/// Whether `p` is the platforms that a platforms section gives.
pub open spec fn platforms_from(y: Option<PlatformsYaml>, p: Platforms) -> bool {
    match y {
        Some(y) => {
            &&& p.source_control@ == or_default(y.source_control, "github"@)
            &&& p.ci@ == or_default(y.ci, "github_actions"@)
            &&& p.artifact_registry == registry_of(opt_view(y.artifact_registry))
        },
        None => {
            &&& p.source_control@ == "github"@
            &&& p.ci@ == "github_actions"@
            &&& p.artifact_registry == Registry::NoRegistry
        },
    }
}

fn platforms_of(y: Option<PlatformsYaml>) -> (r: Platforms)
    ensures
        platforms_from(y, r),
{
    match y {
        Some(p) => {
            let artifact_registry = match &p.artifact_registry {
                Some(a) => parse_registry(Some(a.as_str())),
                None => parse_registry(None),
            };
            Platforms {
                source_control: match p.source_control {
                    Some(x) => x,
                    None => String::from_str("github"),
                },
                ci: match p.ci {
                    Some(x) => x,
                    None => String::from_str("github_actions"),
                },
                artifact_registry,
            }
        },
        None => Platforms::default(),
    }
}

/// Whether `s` is the sources that a sources section gives.
pub open spec fn sources_from(y: Option<SourcesYaml>, s: Sources) -> bool {
    match y {
        Some(SourcesYaml { version: Some(v) }) => {
            &&& s.version.source_type == source_type_of(opt_view(v.source_type))
            &&& opt_view(s.version.path) == opt_view(v.path)
        },
        _ => s.version.source_type == SourceType::Auto && s.version.path is None,
    }
}

fn sources_of(y: Option<SourcesYaml>) -> (r: Sources)
    ensures
        sources_from(y, r),
{
    match y {
        Some(s) => match s.version {
            Some(v) => {
                let source_type = match &v.source_type {
                    Some(t) => parse_source_type(Some(t.as_str())),
                    None => parse_source_type(None),
                };
                Sources { version: VersionSource { source_type, path: v.path } }
            },
            None => Sources::default(),
        },
        None => Sources::default(),
    }
}

/// Whether `s` is the scope that the named scope settings give.
pub open spec fn scope_from(name: String, y: ScopeYaml, s: Scope) -> bool {
    &&& s.name@ == name@
    &&& s.dir@ == y.dir@
    &&& language_is(s.language, opt_view(y.language))
    &&& s.framework@ == or_default(y.framework, Seq::empty())
    &&& build_tool_is(s.build_tool, opt_view(y.build_tool))
    &&& s.registry == registry_of(opt_view(y.registry))
    &&& release_from(y.release, s.release)
    &&& s.test_threshold == y.test_threshold
}

fn scope_of(name: String, y: ScopeYaml) -> (r: Scope)
    ensures
        scope_from(name, y, r),
{
    let registry = match &y.registry {
        Some(a) => parse_registry(Some(a.as_str())),
        None => parse_registry(None),
    };
    Scope {
        name,
        dir: y.dir,
        language: parse_language(y.language),
        framework: match y.framework {
            Some(f) => f,
            None => String::new(),
        },
        build_tool: parse_build_tool(y.build_tool),
        registry,
        release: release_of(y.release),
        test_threshold: y.test_threshold,
    }
}

/// Whether `c` is the contract that a four-dimension document gives: each
/// section as declared, defaults for what is left out, one scope per entry.
pub open spec fn contract_from(y: ContractYaml, c: Contract) -> bool {
    &&& stages_from(y.stages, c.stages)
    &&& platforms_from(y.platforms, c.platforms)
    &&& sources_from(y.sources, c.sources)
    &&& match y.scopes {
        Some(v) => {
            &&& c.scopes@.len() == v@.len()
            &&& forall|i: int|
                0 <= i < v@.len() ==> scope_from(#[trigger] v@[i].0, v@[i].1, c.scopes@[i])
        },
        None => c.scopes@.len() == 0,
    }
}

impl ContractYaml {
    /// The contract this document declares.
    pub fn into_contract(self) -> (r: Contract)
        ensures
            contract_from(self, r),
    {
        let stages = stages_of(self.stages);
        let platforms = platforms_of(self.platforms);
        let sources = sources_of(self.sources);
        let mut scopes: Vec<Scope> = Vec::new();
        match self.scopes {
            Some(entries) => {
                let ghost orig = entries@;
                let mut rest = entries;
                let mut taken: Vec<(String, ScopeYaml)> = Vec::new();
                while rest.len() > 0
                    invariant
                        rest@ + taken@.reverse() == orig,
                    decreases rest.len(),
                {
                    let x = rest.pop().unwrap();
                    taken.push(x);
                    proof {
                        assert(rest@ + taken@.reverse() =~= orig);
                    }
                }
                while taken.len() > 0
                    invariant
                        scopes@.len() + taken@.len() == orig.len(),
                        taken@.reverse() == orig.skip(scopes@.len() as int),
                        forall|i: int|
                            0 <= i < scopes@.len() ==> scope_from(
                                #[trigger] orig[i].0,
                                orig[i].1,
                                scopes@[i],
                            ),
                    decreases taken.len(),
                {
                    let ghost k: int = scopes@.len() as int;
                    let ghost tk = taken@;
                    proof {
                        assert(tk.reverse()[0] == tk[tk.len() - 1]);
                        assert(orig.skip(k)[0] == orig[k]);
                    }
                    let (name, cfg) = taken.pop().unwrap();
                    proof {
                        assert(orig[k] == (name, cfg));
                        assert(taken@.reverse() =~= tk.reverse().skip(1));
                        assert(tk.reverse().skip(1) =~= orig.skip(k + 1));
                    }
                    let s = scope_of(name, cfg);
                    scopes.push(s);
                }
            },
            None => {},
        }
        Contract { stages, platforms, sources, scopes }
    }
}


// ───────────────────────────── the old format ──────────────────────────

/// Which project files a directory holds.
#[derive(Debug, Clone, Copy, PartialEq, Eq, Structural)]
pub struct FileMarkers {
    pub cargo_toml: bool,
    pub pyproject_toml: bool,
    pub requirements_txt: bool,
    pub go_mod: bool,
    pub pubspec_yaml: bool,
    pub package_json: bool,
}

/// The language that a directory's files indicate, the first rule that holds.
pub open spec fn language_by_files(m: FileMarkers, l: Language) -> bool {
    if m.cargo_toml {
        l is Rust
    } else if m.pyproject_toml || m.requirements_txt {
        l is Python
    } else if m.go_mod {
        l is Go
    } else if m.pubspec_yaml {
        l is Dart
    } else if m.package_json {
        l is TypeScript
    } else {
        l matches Language::Unknown(x) && x@ == "无法识别"@
    }
}

/// Detects a directory's language from the project files it holds.
pub fn detect_by_files(markers: &FileMarkers) -> (r: Language)
    ensures
        language_by_files(*markers, r),
{
    if markers.cargo_toml {
        Language::Rust
    } else if markers.pyproject_toml || markers.requirements_txt {
        Language::Python
    } else if markers.go_mod {
        Language::Go
    } else if markers.pubspec_yaml {
        Language::Dart
    } else if markers.package_json {
        Language::TypeScript
    } else {
        Language::Unknown(String::from_str("无法识别"))
    }
}

/// Same as [`detect_by_files`].
pub fn detect_language(markers: &FileMarkers) -> (r: Language)
    ensures
        language_by_files(*markers, r),
{
    detect_by_files(markers)
}

/// A scope's language: the declared one, or, when undeclared, the one its
/// directory's files indicate.
pub fn resolve_language(scope: &Scope, markers: &FileMarkers) -> (r: Language)
    ensures
        scope.language is Unknown ==> language_by_files(*markers, r),
        !(scope.language is Unknown) ==> language_name(r) == language_name(scope.language) && (
        r is Rust <==> scope.language is Rust) && (r is Python <==> scope.language is Python) && (
        r is Go <==> scope.language is Go) && (r is Dart <==> scope.language is Dart) && (r
            is TypeScript <==> scope.language is TypeScript) && !(r is Unknown),
{
    match &scope.language {
        Language::Unknown(_) => detect_by_files(markers),
        lang => lang.duplicate(),
    }
}

/// Whether `s` is the scope the old format gives for `name` and `dir`.
pub open spec fn old_scope_from(name: String, dir: String, m: FileMarkers, s: Scope) -> bool {
    &&& s.name@ == name@
    &&& s.dir@ == dir@
    &&& language_by_files(m, s.language)
    &&& s.framework@.len() == 0
    &&& s.build_tool matches BuildTool::Unknown(x) && x@ == "auto"@
    &&& s.registry == Registry::NoRegistry
    &&& s.release.changelog@ == "CHANGELOG.md"@
    &&& s.release.pre_publish@.len() == 0
    &&& s.test_threshold is None
}

impl OldContractYaml {
    /// The contract of an old-format document: default stages, platforms and
    /// sources, and one scope per entry whose language is detected from the
    /// files in its directory (`markers[i]` for the `i`-th entry).
    pub fn into_contract(self, markers: &[FileMarkers]) -> (r: Contract)
        requires
            markers.len() == self.scopes.len(),
        ensures
            r.scopes@.len() == self.scopes@.len(),
            forall|i: int|
                0 <= i < self.scopes@.len() ==> old_scope_from(
                    #[trigger] self.scopes@[i].0,
                    self.scopes@[i].1,
                    markers@[i],
                    r.scopes@[i],
                ),
            r.stages.build.command is None,
            r.stages.test.command is None,
            r.stages.test.threshold.bits == DEFAULT_THRESHOLD_BITS,
            r.stages.release.changelog@ == "CHANGELOG.md"@,
            r.stages.release.pre_publish@.len() == 0,
            r.platforms.source_control@ == "github"@,
            r.platforms.ci@ == "github_actions"@,
            r.platforms.artifact_registry == Registry::NoRegistry,
            r.sources.version.source_type == SourceType::Auto,
            r.sources.version.path is None,
    {
        let ghost orig = self.scopes@;
        let mut rest = self.scopes;
        let mut taken: Vec<(String, String)> = Vec::new();
        while rest.len() > 0
            invariant
                rest@ + taken@.reverse() == orig,
            decreases rest.len(),
        {
            let x = rest.pop().unwrap();
            taken.push(x);
            proof {
                assert(rest@ + taken@.reverse() =~= orig);
            }
        }
        let mut scopes: Vec<Scope> = Vec::new();
        while taken.len() > 0
            invariant
                scopes@.len() + taken@.len() == orig.len(),
                markers@.len() == orig.len(),
                taken@.reverse() == orig.skip(scopes@.len() as int),
                forall|i: int|
                    0 <= i < scopes@.len() ==> old_scope_from(
                        #[trigger] orig[i].0,
                        orig[i].1,
                        markers@[i],
                        scopes@[i],
                    ),
            decreases taken.len(),
        {
            let ghost k: int = scopes@.len() as int;
            let ghost tk = taken@;
            proof {
                assert(tk.reverse()[0] == tk[tk.len() - 1]);
                assert(orig.skip(k)[0] == orig[k]);
            }
            let (name, dir) = taken.pop().unwrap();
            proof {
                assert(orig[k] == (name, dir));
                assert(taken@.reverse() =~= tk.reverse().skip(1));
                assert(tk.reverse().skip(1) =~= orig.skip(k + 1));
            }
            let language = detect_by_files(&markers[scopes.len()]);
            scopes.push(
                Scope {
                    name,
                    dir,
                    language,
                    framework: String::new(),
                    build_tool: BuildTool::Unknown(String::from_str("auto")),
                    registry: Registry::NoRegistry,
                    release: StageRelease::default(),
                    test_threshold: None,
                },
            );
        }
        Contract {
            stages: Stages::default(),
            platforms: Platforms::default(),
            sources: Sources::default(),
            scopes,
        }
    }
}

// ─────────────────────────── convenience access ────────────────────────

/// Whether a scope declares release settings of its own.
pub open spec fn has_custom_release(s: Scope) -> bool {
    s.release.pre_publish@.len() != 0 || s.release.changelog@ != "CHANGELOG.md"@
}

/// The release settings of a scope: its own when it declares any, else the
/// contract's.
pub fn scope_release<'a>(contract: &'a Contract, scope: &'a Scope) -> (r: &'a StageRelease)
    ensures
        has_custom_release(*scope) ==> r == &scope.release,
        !has_custom_release(*scope) ==> r == &contract.stages.release,
{
    let has_custom = scope.release.pre_publish.len() != 0 || !str_is(
        scope.release.changelog.as_str(),
        "CHANGELOG.md",
    );
    if has_custom {
        &scope.release
    } else {
        &contract.stages.release
    }
}

/// The coverage threshold of a scope: its own, else the contract's.
pub fn scope_test_threshold(contract: &Contract, scope: &Scope) -> (r: Threshold)
    ensures
        r == match scope.test_threshold {
            Some(t) => t,
            None => contract.stages.test.threshold,
        },
{
    match scope.test_threshold {
        Some(t) => t,
        None => contract.stages.test.threshold,
    }
}

// ──────────────────────────── version status ───────────────────────────

/// A version tag without its scope and `v`: the text after the last `/`,
/// with one leading `v` removed.
pub open spec fn normalize_version_spec(v: Seq<char>) -> Seq<char> {
    let a = split(v, '/').last();
    if a.len() > 0 && a[0] == 'v' {
        a.drop_first()
    } else {
        a
    }
}

pub fn normalize_version(version: &str) -> (r: String)
    ensures
        r@ == normalize_version_spec(version@),
{
    let v = chars_of(version);
    let parts = split_chars(&v, '/');
    let last = &parts[parts.len() - 1];
    proof {
        assert(parts.deep_view().last() == parts@[parts.len() - 1]@);
        assert(parts@[parts.len() - 1].deep_view() =~= parts@[parts.len() - 1]@);
    }
    if last.len() > 0 && last[0] == 'v' {
        let t = crate::text::slice_of(last, 1, last.len());
        assert(t@ =~= last@.drop_first());
        string_of(&t)
    } else {
        string_of(last)
    }
}

/// Whether a tag line belongs to `scope`: scoped to it, or unscoped.
pub open spec fn tag_for_scope(t: Seq<char>, scope: Seq<char>) -> bool {
    starts_with(t, scope.push('/')) || !crate::text::has_char(t, '/')
}

pub open spec fn tags_for_scope(ls: Seq<Seq<char>>, scope: Seq<char>) -> Seq<Seq<char>> {
    ls.filter(|t: Seq<char>| tag_for_scope(t, scope))
}

pub open spec fn scoped_tags(ls: Seq<Seq<char>>, scope: Seq<char>) -> Seq<Seq<char>> {
    ls.filter(|t: Seq<char>| starts_with(t, scope.push('/')))
}

/// The version of a scope from `git tag --sort=-version:refname` output: the
/// first tag scoped to it, else the first unscoped one, normalized.
pub open spec fn latest_tag_spec(output: Seq<char>, scope: Seq<char>) -> Option<Seq<char>> {
    let ls = tags_for_scope(lines(output), scope);
    let sc = scoped_tags(lines(output), scope);
    if sc.len() > 0 {
        Some(normalize_version_spec(sc[0]))
    } else if ls.len() > 0 {
        Some(normalize_version_spec(ls[0]))
    } else {
        None
    }
}

/// Picks a scope's latest version from the listed tags (newest first).
pub fn latest_tag_from_list(output: &str, scope_name: &str) -> (r: Option<String>)
    ensures
        opt_view(r) == latest_tag_spec(output@, scope_name@),
{
    let text = chars_of(output);
    let ls = lines_chars(&text);
    let mut prefix = chars_of(scope_name);
    prefix.push('/');
    let mut first_any: Option<usize> = None;
    let mut i: usize = 0;
    let ghost all = ls.deep_view();
    let ghost pfx = scope_name@.push('/');
    while i < ls.len()
        invariant
            i <= ls.len(),
            all == ls.deep_view(),
            all == lines(output@),
            prefix@ == pfx,
            pfx == scope_name@.push('/'),
            scoped_tags(all.take(i as int), scope_name@).len() == 0,
            match first_any {
                Some(j) => j < i && tags_for_scope(all.take(i as int), scope_name@).len() > 0
                    && tags_for_scope(all.take(i as int), scope_name@)[0] == all[j as int],
                None => tags_for_scope(all.take(i as int), scope_name@).len() == 0,
            },
        decreases ls.len() - i,
    {
        proof {
            reveal_with_fuel(Seq::<_>::filter, 1);
            assert(all.take(i + 1).drop_last() =~= all.take(i as int));
            assert(ls@[i as int].deep_view() =~= ls@[i as int]@);
            assert(all.take(i + 1).last() == ls@[i as int]@);
        }
        let t = &ls[i];
        let scoped = starts_with_chars(t, &prefix);
        if scoped {
            let v = string_of(t);
            proof {
                lemma_filter_first_hit(all, i as int, |t: Seq<char>| starts_with(t, pfx));
            }
            return Some(normalize_version(v.as_str()));
        }
        let has_slash = crate::text::has_char_exec(t, '/');
        if !has_slash && first_any.is_none() {
            first_any = Some(i);
        }
        proof {
            lemma_filter_prefix_stable(all, i as int, |t: Seq<char>| tag_for_scope(t, scope_name@));
        }
        i += 1;
    }
    proof {
        assert(all.take(i as int) =~= all);
    }
    match first_any {
        Some(j) => {
            let v = string_of(&ls[j]);
            proof {
                assert(ls@[j as int].deep_view() =~= ls@[j as int]@);
            }
            Some(normalize_version(v.as_str()))
        },
        None => None,
    }
}

/// When the first `i` elements have no hit and element `i` hits, the filter
/// of the whole sequence starts with element `i`.
proof fn lemma_filter_first_hit(s: Seq<Seq<char>>, i: int, p: spec_fn(Seq<char>) -> bool)
    requires
        0 <= i < s.len(),
        s.take(i).filter(p).len() == 0,
        p(s[i]),
    ensures
        s.filter(p).len() > 0,
        s.filter(p)[0] == s[i],
    decreases s.len(),
{
    reveal_with_fuel(Seq::<_>::filter, 1);
    if s.len() == i + 1 {
        assert(s.drop_last() =~= s.take(i));
    } else {
        assert(s.drop_last().take(i) =~= s.take(i));
        lemma_filter_first_hit(s.drop_last(), i, p);
        s.drop_last().lemma_filter_len(p);
    }
}

/// A non-empty filter of a prefix keeps its first element when the prefix grows.
proof fn lemma_filter_prefix_stable(s: Seq<Seq<char>>, i: int, p: spec_fn(Seq<char>) -> bool)
    requires
        0 <= i < s.len(),
    ensures
        s.take(i).filter(p).len() > 0 ==> s.take(i + 1).filter(p).len() > 0 && s.take(i + 1).filter(
            p,
        )[0] == s.take(i).filter(p)[0],
{
    reveal_with_fuel(Seq::<_>::filter, 1);
    assert(s.take(i + 1).drop_last() =~= s.take(i));
}

/// The configuration file that holds the version for a language, if any.
pub open spec fn config_file_spec(l: Language) -> Option<Seq<char>> {
    match l {
        Language::Rust => Some("Cargo.toml"@),
        Language::Python => Some("pyproject.toml"@),
        Language::TypeScript => Some("package.json"@),
        Language::Dart => Some("pubspec.yaml"@),
        _ => None,
    }
}

pub fn config_file_for(lang: &Language) -> (r: Option<&'static str>)
    ensures
        match r {
            Some(f) => config_file_spec(*lang) == Some(f@),
            None => config_file_spec(*lang) is None,
        },
{
    match lang {
        Language::Rust => Some("Cargo.toml"),
        Language::Python => Some("pyproject.toml"),
        Language::TypeScript => Some("package.json"),
        Language::Dart => Some("pubspec.yaml"),
        _ => None,
    }
}

/// The version a trimmed configuration line declares, if any: the quoted
/// text after `version = "`, or the value after `"version":` with spaces,
/// commas and quotes trimmed (when not empty).
pub open spec fn line_version(t: Seq<char>) -> Option<Seq<char>> {
    let k1 = "version = \""@;
    let k2 = "\"version\":"@;
    if starts_with(t, k1) && find_from(t.skip(k1.len() as int), '"', 0) is Some {
        Some(t.skip(k1.len() as int).take(find_from(t.skip(k1.len() as int), '"', 0)->0))
    } else if starts_with(t, k2) && trim_quoted(t.skip(k2.len() as int)).len() > 0 {
        Some(trim_quoted(t.skip(k2.len() as int)))
    } else {
        None
    }
}

/// `rest.trim().trim_matches(',').trim_matches('"')`.
pub open spec fn trim_quoted(rest: Seq<char>) -> Seq<char> {
    let a = trim(rest);
    let b = trim_end_matches(trim_start_matches(a, seq![',']), seq![',']);
    trim_end_matches(trim_start_matches(b, seq!['"']), seq!['"'])
}

/// The version declared by the first line that declares one.
pub open spec fn config_version_from(ls: Seq<Seq<char>>, k: int) -> Option<Seq<char>>
    decreases ls.len() - k,
{
    if k < 0 || k >= ls.len() {
        None
    } else {
        match line_version(trim(ls[k])) {
            Some(v) => Some(v),
            None => config_version_from(ls, k + 1),
        }
    }
}

pub open spec fn config_version_spec(content: Seq<char>) -> Option<Seq<char>> {
    config_version_from(lines(content), 0)
}

fn trim_quoted_chars(rest: &[char]) -> (r: Vec<char>)
    ensures
        r@ == trim_quoted(rest@),
{
    let comma = vec![','];
    let quote = vec!['"'];
    assert(comma@ =~= seq![',']);
    assert(quote@ =~= seq!['"']);
    let a = trim_chars(rest);
    let b1 = trim_start_matches_chars(&a, &comma);
    let b = trim_end_matches_chars(&b1, &comma);
    let c1 = trim_start_matches_chars(&b, &quote);
    trim_end_matches_chars(&c1, &quote)
}

fn line_version_chars(t: &[char]) -> (r: Option<Vec<char>>)
    ensures
        match r {
            Some(v) => line_version(t@) == Some(v@),
            None => line_version(t@) is None,
        },
{
    let k1 = chars_of("version = \"");
    let k2 = chars_of("\"version\":");
    match strip_prefix_chars(t, &k1) {
        Some(v) => {
            match crate::text::find_char_from(&v, '"', 0) {
                Some(end) => {
                    proof {
                        crate::text::lemma_find_from(v@, '"', 0);
                    }
                    let out = crate::text::slice_of(&v, 0, end);
                    assert(out@ =~= v@.take(end as int));
                    return Some(out);
                },
                None => {},
            }
        },
        None => {},
    }
    match strip_prefix_chars(t, &k2) {
        Some(rest) => {
            let v = trim_quoted_chars(&rest);
            if v.len() > 0 {
                Some(v)
            } else {
                None
            }
        },
        None => None,
    }
}

/// The version a configuration file's text declares, if any.
pub fn config_version_in(content: &str) -> (r: Option<String>)
    ensures
        opt_view(r) == config_version_spec(content@),
{
    let text = chars_of(content);
    let ls = lines_chars(&text);
    let mut i: usize = 0;
    while i < ls.len()
        invariant
            i <= ls.len(),
            ls.deep_view() == lines(content@),
            config_version_spec(content@) == config_version_from(ls.deep_view(), i as int),
        decreases ls.len() - i,
    {
        proof {
            assert(ls@[i as int].deep_view() =~= ls@[i as int]@);
        }
        let t = trim_chars(&ls[i]);
        match line_version_chars(&t) {
            Some(v) => {
                return Some(string_of(&v));
            },
            None => {},
        }
        i += 1;
    }
    None
}

/// Whether the tag version and the configured version agree: both equal, or
/// both absent.
pub open spec fn consistent_spec(tag: Option<Seq<char>>, config: Option<Seq<char>>) -> bool {
    match (tag, config) {
        (Some(t), Some(c)) => t == c,
        (None, None) => true,
        _ => false,
    }
}

impl VersionStatus {
    pub fn new(tag_version: Option<String>, config_version: Option<String>) -> (r: VersionStatus)
        ensures
            opt_view(r.tag_version) == opt_view(tag_version),
            opt_view(r.config_version) == opt_view(config_version),
            r.consistent == consistent_spec(opt_view(tag_version), opt_view(config_version)),
    {
        let consistent = match (&tag_version, &config_version) {
            (Some(t), Some(c)) => *t == *c,
            (None, None) => true,
            _ => false,
        };
        VersionStatus { tag_version, config_version, consistent }
    }
}

} // verus!
