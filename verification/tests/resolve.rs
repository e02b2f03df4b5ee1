use rattler_installs_packages::artifact_name::ArtifactName;
use rattler_installs_packages::discovery::Discovery;
use rattler_installs_packages::package_name::NormalizedPackageName;
use rattler_installs_packages::pool::{NameId, Pool, SolvableId, VersionSet, VersionSetId};
use rattler_installs_packages::project_info::{
    group_by_version, ArtifactHashes, ArtifactInfo, DistInfoMetadata, VersionArtifacts, Yanked,
};
use rattler_installs_packages::provider::PypiDependencyProvider;
use rattler_installs_packages::requirement::{MarkerEnvironment, Requirement};
use rattler_installs_packages::resolve::{plan_package, select_artifacts};
use rattler_installs_packages::specifiers::Specifiers;
use rattler_installs_packages::version::Version;

fn name(text: &str) -> NormalizedPackageName {
    NormalizedPackageName::new(text)
}

fn environment() -> MarkerEnvironment {
    MarkerEnvironment {
        os_name: "posix".to_string(),
        sys_platform: "linux".to_string(),
        platform_machine: "x86_64".to_string(),
        platform_python_implementation: "CPython".to_string(),
        platform_release: "6.1".to_string(),
        platform_system: "Linux".to_string(),
        platform_version: "1".to_string(),
        python_version: "3.9".to_string(),
        python_full_version: "3.9.0".to_string(),
        implementation_name: "cpython".to_string(),
        implementation_version: "3.9.0".to_string(),
        extra: String::new(),
    }
}

fn artifact(file: &str, package: &str, yanked: bool) -> ArtifactInfo {
    ArtifactInfo {
        filename: ArtifactName::from_filename(file, &name(package)).unwrap(),
        url: format!("https://files.example.org/{file}"),
        hashes: ArtifactHashes { sha256: None, md5: None },
        requires_python: None,
        dist_info_metadata: DistInfoMetadata {
            available: false,
            hashes: ArtifactHashes { sha256: None, md5: None },
        },
        yanked: Yanked { yanked, reason: None },
    }
}

fn wheel(package: &str, version: &str, yanked: bool) -> ArtifactInfo {
    artifact(&format!("{package}-{version}-py3-none-any.whl"), package, yanked)
}

fn sdist(package: &str, version: &str) -> ArtifactInfo {
    artifact(&format!("{package}-{version}.tar.gz"), package, false)
}

fn entry(version: &str, artifacts: Vec<ArtifactInfo>) -> VersionArtifacts {
    VersionArtifacts { version: Version::parse(version).unwrap(), artifacts }
}

struct Release {
    version: &'static str,
    wheels: bool,
    yanked: bool,
    requires: Vec<&'static str>,
}

fn release(version: &'static str, requires: &[&'static str]) -> Release {
    Release { version, wheels: true, yanked: false, requires: requires.to_vec() }
}

struct Index {
    packages: Vec<(&'static str, Vec<Release>)>,
}

impl Index {
    fn artifacts(&self, package: &str) -> Option<Vec<VersionArtifacts>> {
        let (_, releases) = self.packages.iter().find(|(n, _)| *n == package)?;
        Some(
            releases
                .iter()
                .map(|r| {
                    let mut artifacts = vec![sdist(package, r.version)];
                    if r.wheels {
                        artifacts.push(wheel(package, r.version, r.yanked));
                    }
                    entry(r.version, artifacts)
                })
                .collect(),
        )
    }

    fn requirements(&self, package: &str, version: &str) -> Vec<Requirement> {
        let (_, releases) = self.packages.iter().find(|(n, _)| *n == package).unwrap();
        let release = releases.iter().find(|r| r.version == version).unwrap();
        release.requires.iter().map(|text| Requirement::parse(text).unwrap()).collect()
    }
}

fn discover(index: &Index, roots: &[&str]) -> (PypiDependencyProvider, Vec<String>) {
    let roots: Vec<NormalizedPackageName> = roots.iter().map(|r| name(r)).collect();
    let mut discovery = Discovery::new(&roots, environment());
    let mut fetched = Vec::new();
    while let Some(package) = discovery.next_package() {
        fetched.push(package.as_str().to_string());
        let Some(entries) = index.artifacts(package.as_str()) else { continue };
        let id = discovery.begin_package(&package);
        for request in plan_package(&entries) {
            let entry = &entries[request.version];
            let requires = index.requirements(package.as_str(), entry.version.as_str());
            discovery.record_version(id, entry, &requires);
        }
    }
    (discovery.finish(), fetched)
}

fn flask_index() -> Index {
    Index {
        packages: vec![
            (
                "flask",
                vec![
                    release("2.3.3", &["werkzeug >=2.3.7", "click >=8.1.3"]),
                    release("3.0.0rc1", &["werkzeug >=3.0.0"]),
                    release(
                        "3.0.0",
                        &[
                            "Werkzeug >=3.0.0",
                            "Jinja2 >=3.1.2",
                            "click >=8.1.3",
                            "importlib-metadata >=3.6.0 ; python_version < \"3.10\"",
                            "colorama ; sys_platform == \"win32\"",
                            "asgiref >=3.2 ; extra == \"async\"",
                        ],
                    ),
                    Release { version: "3.0.1", wheels: true, yanked: true, requires: vec![] },
                    Release { version: "3.0.2", wheels: false, yanked: false, requires: vec![] },
                ],
            ),
            ("werkzeug", vec![release("2.3.7", &[]), release("3.0.0", &["MarkupSafe >=2.1.1"])]),
            ("jinja2", vec![release("3.1.2", &["MarkupSafe >=2.0"])]),
            ("click", vec![release("8.1.7", &["colorama ; platform_system == \"Windows\""])]),
            ("markupsafe", vec![release("2.1.3", &[]), release("2.1.4.dev1", &[])]),
            ("importlib-metadata", vec![release("6.8.0", &["zipp >=0.5", "flask"])]),
        ],
    }
}

fn candidate_versions(provider: &PypiDependencyProvider, package: &str) -> Option<Vec<String>> {
    let id = provider.pool().lookup_package_name(&name(package))?;
    let candidates = provider.get_candidates(id)?;
    Some(
        provider
            .describe(&candidates.candidates)
            .into_iter()
            .map(|(n, v)| {
                assert_eq!(n, package);
                v
            })
            .collect(),
    )
}

fn dependencies(provider: &PypiDependencyProvider, package: &str, version: &str) -> Vec<String> {
    let id = provider.pool().lookup_package_name(&name(package)).unwrap();
    let candidates = provider.get_candidates(id).unwrap().candidates;
    let solvable = candidates
        .iter()
        .copied()
        .find(|s| provider.pool().resolve_solvable(*s).version.as_str() == version)
        .unwrap();
    provider
        .get_dependencies(solvable)
        .requirements
        .iter()
        .map(|vs| {
            let set = provider.pool().resolve_version_set(*vs);
            let package = provider.pool().resolve_package_name(set.name);
            let clauses: Vec<&str> =
                (0..set.specifiers.len()).map(|i| set.specifiers.clause(i)).collect();
            format!("{} {}", package.as_str(), clauses.join(","))
        })
        .collect()
}

#[test]
fn select_artifacts_keeps_wheels_that_were_not_yanked() {
    let artifacts = vec![
        sdist("a", "1.0"),
        wheel("a", "1.0", false),
        wheel("a", "1.0", true),
        artifact("a-1.0-cp311-cp311-linux_x86_64.whl", "a", false),
    ];
    assert_eq!(select_artifacts(&artifacts), vec![1, 3]);
    assert_eq!(select_artifacts(&Vec::new()), Vec::<usize>::new());
    assert!(artifacts[1].is_wheel() && artifacts[1].is_usable());
    assert!(artifacts[2].is_wheel() && !artifacts[2].is_usable());
    assert!(!artifacts[0].is_wheel());
}

#[test]
fn plan_drops_unstable_yanked_and_wheelless_versions() {
    let entries = vec![
        entry("1.0", vec![sdist("a", "1.0"), wheel("a", "1.0", false)]),
        entry("1.1a1", vec![wheel("a", "1.1a1", false)]),
        entry("1.1.dev3", vec![wheel("a", "1.1.dev3", false)]),
        entry("1.1", vec![wheel("a", "1.1", true)]),
        entry("1.2", vec![sdist("a", "1.2")]),
        entry("1.3", vec![]),
        entry("1.4.post1", vec![wheel("a", "1.4.post1", true), wheel("a", "1.4.post1", false)]),
    ];
    let plan = plan_package(&entries);
    let listed: Vec<(usize, Vec<usize>)> =
        plan.iter().map(|r| (r.version, r.artifacts.clone())).collect();
    assert_eq!(listed, vec![(0, vec![1]), (6, vec![1])]);
}

#[test]
fn version_with_one_yanked_artifact_is_no_candidate() {
    let entries = vec![entry("1.0", vec![wheel("a", "1.0", true)])];
    assert!(plan_package(&entries).is_empty());
    let mut discovery = Discovery::new(&vec![name("a")], environment());
    let package = discovery.next_package().unwrap();
    let id = discovery.begin_package(&package);
    assert_eq!(discovery.record_version(id, &entries[0], &Vec::new()), None);
    let provider = discovery.finish();
    assert!(provider.get_candidates(id).is_none());
    assert_eq!(provider.pool().solvables_len(), 0);
}

#[test]
fn package_with_unstable_versions_only_has_no_candidates() {
    let index = Index {
        packages: vec![("a", vec![release("1.0a1", &["b"]), release("1.0.dev1", &[]), release("2.0rc1", &[])])],
    };
    assert!(plan_package(&index.artifacts("a").unwrap()).is_empty());
    let (provider, fetched) = discover(&index, &["a"]);
    assert_eq!(fetched, vec!["a"]);
    assert_eq!(candidate_versions(&provider, "a"), None);
    assert_eq!(provider.pool().names_len(), 1);
    assert_eq!(provider.pool().solvables_len(), 0);
}

#[test]
fn record_version_refuses_what_cannot_be_a_candidate() {
    let mut discovery = Discovery::new(&vec![name("a")], environment());
    let package = discovery.next_package().unwrap();
    let id = discovery.begin_package(&package);
    let requires = vec![Requirement::parse("b").unwrap()];
    assert_eq!(
        discovery.record_version(id, &entry("1.0rc1", vec![wheel("a", "1.0rc1", false)]), &requires),
        None
    );
    assert_eq!(discovery.record_version(id, &entry("1.0", vec![sdist("a", "1.0")]), &requires), None);
    assert_eq!(discovery.pending(), 0);
    let stable = entry("1.0", vec![wheel("a", "1.0", false)]);
    assert_eq!(discovery.record_version(id, &stable, &requires), Some(SolvableId(0)));
    assert_eq!(discovery.pending(), 1);
    assert_eq!(discovery.seen_count(), 2);
    let same = entry("1.0.0", vec![wheel("a", "1.0.0", false)]);
    assert_eq!(discovery.record_version(id, &same, &requires), None);
    let provider = discovery.finish();
    assert_eq!(provider.get_candidates(id).unwrap().candidates, vec![SolvableId(0)]);
    assert_eq!(provider.get_dependencies(SolvableId(0)).requirements, vec![VersionSetId(0)]);
    assert_eq!(provider.get_dependencies(SolvableId(7)).requirements, Vec::<VersionSetId>::new());
    assert!(provider.get_candidates(NameId(9)).is_none());
}

#[test]
fn discovery_reaches_every_required_package_once() {
    let (provider, fetched) = discover(&flask_index(), &["flask", "Flask", "flask"]);
    assert_eq!(
        fetched,
        vec!["flask", "werkzeug", "click", "jinja2", "importlib-metadata", "markupsafe", "zipp"]
    );
    assert_eq!(candidate_versions(&provider, "flask"), Some(vec!["2.3.3".to_string(), "3.0.0".to_string()]));
    assert_eq!(
        candidate_versions(&provider, "werkzeug"),
        Some(vec!["2.3.7".to_string(), "3.0.0".to_string()])
    );
    assert_eq!(candidate_versions(&provider, "markupsafe"), Some(vec!["2.1.3".to_string()]));
    assert_eq!(candidate_versions(&provider, "zipp"), None);
    assert_eq!(candidate_versions(&provider, "colorama"), None);
    assert_eq!(candidate_versions(&provider, "asgiref"), None);
    assert!(provider.pool().lookup_package_name(&name("colorama")).is_none());
    assert_eq!(
        dependencies(&provider, "flask", "3.0.0"),
        vec!["werkzeug >=3.0.0", "jinja2 >=3.1.2", "click >=8.1.3", "importlib-metadata >=3.6.0"]
    );
    assert_eq!(dependencies(&provider, "importlib-metadata", "6.8.0"), vec!["zipp >=0.5", "flask "]);
    assert_eq!(dependencies(&provider, "click", "8.1.7"), Vec::<String>::new());
}

#[test]
fn discovery_interns_equal_values_to_equal_numbers() {
    let (provider, _) = discover(&flask_index(), &["flask"]);
    let pool = provider.pool();
    let click = pool.lookup_package_name(&name("click")).unwrap();
    let old = dependencies(&provider, "flask", "2.3.3");
    assert_eq!(old, vec!["werkzeug >=2.3.7", "click >=8.1.3"]);
    let flask = pool.lookup_package_name(&name("flask")).unwrap();
    let candidates = provider.get_candidates(flask).unwrap().candidates;
    let first = provider.get_dependencies(candidates[0]).requirements;
    let second = provider.get_dependencies(candidates[1]).requirements;
    assert_eq!(first[1], second[2]);
    assert_eq!(pool.resolve_version_set_package_name(first[1]), click);
    assert_ne!(first[0], second[0]);
}

#[test]
fn pool_interning() {
    let mut pool = Pool::new();
    let a = pool.intern_package_name(&name("a"));
    let b = pool.intern_package_name(&name("b"));
    assert_eq!((a, b), (NameId(0), NameId(1)));
    assert_eq!(pool.intern_package_name(&name("A")), a);
    assert_eq!(pool.lookup_package_name(&name("b")), Some(b));
    assert_eq!(pool.lookup_package_name(&name("c")), None);
    assert_eq!(pool.names_len(), 2);
    assert_eq!(pool.resolve_package_name(b).as_str(), "b");
    let s0 = pool.intern_solvable(a, Version::parse("1.0").unwrap());
    let s1 = pool.intern_solvable(b, Version::parse("1.0").unwrap());
    let s2 = pool.intern_solvable(a, Version::parse("1.1").unwrap());
    assert_eq!((s0, s1, s2), (SolvableId(0), SolvableId(1), SolvableId(2)));
    assert_eq!(pool.intern_solvable(a, Version::parse("1.0.0").unwrap()), s0);
    assert_eq!(pool.solvables_len(), 3);
    assert_eq!(pool.resolve_solvable(s2).name, a);
    assert_eq!(pool.resolve_solvable(s2).version.as_str(), "1.1");
    let v0 = pool.intern_version_set(a, Specifiers::parse(">=1.0").unwrap());
    let v1 = pool.intern_version_set(b, Specifiers::parse(">=1.0").unwrap());
    let v2 = pool.intern_version_set(a, Specifiers::empty());
    assert_eq!((v0, v1, v2), (VersionSetId(0), VersionSetId(1), VersionSetId(2)));
    assert_eq!(pool.intern_version_set(a, Specifiers::parse(">= 1.0").unwrap()), v0);
    assert_eq!(pool.intern_version_set(a, Specifiers::empty()), v2);
    assert_eq!(pool.version_sets_len(), 3);
    assert_eq!(pool.resolve_version_set_package_name(v1), b);
    assert_eq!(pool.resolve_version_set(v0).specifiers.clause(0), ">=1.0");
}

#[test]
fn version_set_contains_what_meets_the_specifiers() {
    let set = VersionSet { name: NameId(0), specifiers: Specifiers::parse(">=1.0,<2").unwrap() };
    assert!(set.contains(&Version::parse("1.5").unwrap()));
    assert!(!set.contains(&Version::parse("2.0").unwrap()));
    let any = VersionSet { name: NameId(0), specifiers: Specifiers::empty() };
    assert!(any.contains(&Version::parse("0.0.1.dev1").unwrap()));
    let broken =
        VersionSet { name: NameId(0), specifiers: Specifiers::from_clauses(vec!["?".to_string()]) };
    assert!(!broken.contains(&Version::parse("1.0").unwrap()));
}

#[test]
fn sort_candidates_is_strictly_descending() {
    let mut provider = PypiDependencyProvider::new();
    let a = provider.intern_package_name(&name("a"));
    let texts = ["1.0", "3.0", "1.0.post1", "2.0", "10.0", "2.0.1", "1!0.1", "0.9"];
    let mut ids = Vec::new();
    for text in texts {
        ids.push(provider.add_candidate(a, Version::parse(text).unwrap()).unwrap());
    }
    assert_eq!(provider.add_candidate(a, Version::parse("2.0.0").unwrap()), None);
    let mut sorted = provider.get_candidates(a).unwrap().candidates;
    assert_eq!(sorted, ids);
    provider.sort_candidates(&mut sorted);
    let versions: Vec<String> = provider.describe(&sorted).into_iter().map(|(_, v)| v).collect();
    assert_eq!(versions, vec!["1!0.1", "10.0", "3.0", "2.0.1", "2.0", "1.0.post1", "1.0", "0.9"]);
    for pair in sorted.windows(2) {
        let higher = &provider.pool().resolve_solvable(pair[0]).version;
        let lower = &provider.pool().resolve_solvable(pair[1]).version;
        assert!(lower.is_lower_than(higher));
    }
    let mut empty = Vec::new();
    provider.sort_candidates(&mut empty);
    assert!(empty.is_empty());
}

#[test]
fn roots_are_interned_in_order() {
    let (mut provider, _) = discover(&flask_index(), &["flask"]);
    let sets_before = provider.pool().version_sets_len();
    let roots = vec![
        Requirement::parse("flask >=3").unwrap(),
        Requirement::parse("click >=8.1.3").unwrap(),
        Requirement::parse("unknown-package").unwrap(),
        Requirement::parse("Flask>=3").unwrap(),
    ];
    let ids = provider.intern_roots(&roots);
    assert_eq!(ids.len(), 4);
    assert_eq!(ids[0], VersionSetId(sets_before));
    assert!(ids[1].0 < sets_before);
    assert_eq!(ids[2], VersionSetId(sets_before + 1));
    assert_eq!(ids[3], ids[0]);
    let unknown = provider.pool().lookup_package_name(&name("unknown-package")).unwrap();
    assert!(provider.get_candidates(unknown).is_none());
    assert_eq!(provider.pool().resolve_version_set_package_name(ids[2]), unknown);
}

#[test]
fn group_by_version_orders_versions_from_the_highest() {
    let artifacts = vec![
        sdist("a", "1.0"),
        wheel("a", "2.0", false),
        wheel("a", "1.0", false),
        wheel("a", "1.5rc1", true),
        artifact("a-1.0.0-cp311-cp311-linux_x86_64.whl", "a", false),
        sdist("a", "2.0"),
        wheel("a", "0.1", false),
    ];
    let entries = group_by_version(artifacts);
    let listed: Vec<(&str, Vec<String>)> = entries
        .iter()
        .map(|e| (e.version.as_str(), e.artifacts.iter().map(|a| a.filename.to_filename()).collect()))
        .collect();
    assert_eq!(
        listed,
        vec![
            ("2.0", vec!["a-2.0-py3-none-any.whl".to_string(), "a-2.0.tar.gz".to_string()]),
            ("1.5rc1", vec!["a-1.5rc1-py3-none-any.whl".to_string()]),
            (
                "1.0",
                vec![
                    "a-1.0.tar.gz".to_string(),
                    "a-1.0-py3-none-any.whl".to_string(),
                    "a-1.0.0-cp311-cp311-linux_x86_64.whl".to_string(),
                ]
            ),
            ("0.1", vec!["a-0.1-py3-none-any.whl".to_string()]),
        ]
    );
    assert!(group_by_version(Vec::new()).is_empty());
    let plan = plan_package(&entries);
    let planned: Vec<(usize, Vec<usize>)> = plan.iter().map(|r| (r.version, r.artifacts.clone())).collect();
    assert_eq!(planned, vec![(0, vec![0]), (2, vec![1, 2]), (3, vec![0])]);
}

#[test]
fn discovery_tells_what_waits() {
    let mut discovery = Discovery::new(&vec![name("b"), name("a"), name("B")], environment());
    let waiting: Vec<String> = discovery.waiting().iter().map(|n| n.as_str().to_string()).collect();
    assert_eq!(waiting, vec!["b", "a"]);
    assert_eq!(discovery.pending(), 2);
    assert_eq!(discovery.next_package().unwrap().as_str(), "b");
    let waiting: Vec<String> = discovery.waiting().iter().map(|n| n.as_str().to_string()).collect();
    assert_eq!(waiting, vec!["a"]);
    assert_eq!(discovery.seen_count(), 2);
    assert_eq!(discovery.next_package().unwrap().as_str(), "a");
    assert!(discovery.next_package().is_none());
    assert!(discovery.next_package().is_none());
}

#[test]
fn legacy_version_can_be_a_candidate() {
    let entries = group_by_version(vec![
        wheel("pytz", "2011k", false),
        wheel("pytz", "2023.3", false),
        wheel("pytz", "2004d", false),
        wheel("pytz", "2011.dev1", false),
    ]);
    let listed: Vec<&str> = entries.iter().map(|e| e.version.as_str()).collect();
    assert_eq!(listed, vec!["2023.3", "2011.dev1", "2011k", "2004d"]);
    let planned: Vec<usize> = plan_package(&entries).iter().map(|r| r.version).collect();
    assert_eq!(planned, vec![0, 2, 3]);
}
