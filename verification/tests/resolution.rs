use rattler_installs_packages::artifact_name::ArtifactName;
use rattler_installs_packages::discovery::Discovery;
use rattler_installs_packages::package_name::NormalizedPackageName;
use rattler_installs_packages::pool as library;
use rattler_installs_packages::project_info::{
    ArtifactHashes, ArtifactInfo, DistInfoMetadata, VersionArtifacts, Yanked,
};
use rattler_installs_packages::provider::PypiDependencyProvider;
use rattler_installs_packages::requirement::{MarkerEnvironment, Requirement};
use rattler_installs_packages::resolve::plan_package;
use rattler_installs_packages::specifiers::Specifiers;
use rattler_installs_packages::version::Version;
use rattler_libsolv_rs::{
    Candidates, DefaultSolvableDisplay, Dependencies, DependencyProvider, NameId, Pool,
    SolvableId, Solver, VersionSet, VersionSetId,
};
use std::cmp::Ordering;
use std::collections::HashMap;
use std::fmt::{Display, Formatter};
use std::rc::Rc;

#[derive(Clone, Debug, Hash, PartialEq, Eq)]
struct PypiVersionSet(Vec<String>);

impl Display for PypiVersionSet {
    fn fmt(&self, f: &mut Formatter<'_>) -> std::fmt::Result {
        f.write_str(&self.0.join(", "))
    }
}

#[derive(Debug)]
struct PypiVersion(Version);

impl PartialEq for PypiVersion {
    fn eq(&self, other: &Self) -> bool {
        self.0.same_rank_as(&other.0)
    }
}

impl Eq for PypiVersion {}

impl PartialOrd for PypiVersion {
    fn partial_cmp(&self, other: &Self) -> Option<Ordering> {
        Some(self.cmp(other))
    }
}

impl Ord for PypiVersion {
    fn cmp(&self, other: &Self) -> Ordering {
        if self.0.is_lower_than(&other.0) {
            Ordering::Less
        } else if other.0.is_lower_than(&self.0) {
            Ordering::Greater
        } else {
            Ordering::Equal
        }
    }
}

impl Display for PypiVersion {
    fn fmt(&self, f: &mut Formatter<'_>) -> std::fmt::Result {
        f.write_str(self.0.as_str())
    }
}

impl VersionSet for PypiVersionSet {
    type V = PypiVersion;

    fn contains(&self, v: &Self::V) -> bool {
        let set = library::VersionSet {
            name: library::NameId(0),
            specifiers: Specifiers::from_clauses(self.0.clone()),
        };
        set.contains(&v.0)
    }
}

struct SolverProvider {
    pool: Pool<PypiVersionSet, String>,
    discovered: Rc<PypiDependencyProvider>,
    names: HashMap<NameId, usize>,
    solvables: Vec<SolvableId>,
    solvable_numbers: Rc<HashMap<SolvableId, usize>>,
    version_sets: Vec<VersionSetId>,
}

impl SolverProvider {
    fn new(discovered: Rc<PypiDependencyProvider>) -> Self {
        let pool = Pool::new();
        let from = discovered.pool();
        let mut name_ids = Vec::new();
        let mut names = HashMap::new();
        for i in 0..from.names_len() {
            let text = from.resolve_package_name(library::NameId(i)).as_str().to_string();
            let id = pool.intern_package_name(text);
            names.insert(id, i);
            name_ids.push(id);
        }
        let mut solvables = Vec::new();
        let mut solvable_numbers = HashMap::new();
        for i in 0..from.solvables_len() {
            let solvable = from.resolve_solvable(library::SolvableId(i));
            let id = pool
                .intern_solvable(name_ids[solvable.name.0], PypiVersion(solvable.version.duplicate()));
            solvable_numbers.insert(id, i);
            solvables.push(id);
        }
        let mut version_sets = Vec::new();
        for i in 0..from.version_sets_len() {
            let set = from.resolve_version_set(library::VersionSetId(i));
            let clauses =
                (0..set.specifiers.len()).map(|k| set.specifiers.clause(k).to_string()).collect();
            version_sets.push(pool.intern_version_set(name_ids[set.name.0], PypiVersionSet(clauses)));
        }
        let solvable_numbers = Rc::new(solvable_numbers);
        SolverProvider {
            pool,
            discovered: discovered.clone(),
            names,
            solvables,
            solvable_numbers,
            version_sets,
        }
    }
}

impl DependencyProvider<PypiVersionSet, String> for SolverProvider {
    fn pool(&self) -> &Pool<PypiVersionSet, String> {
        &self.pool
    }

    fn sort_candidates(&self, _solver: &Solver<PypiVersionSet, String, Self>, solvables: &mut [SolvableId]) {
        let mut numbers: Vec<library::SolvableId> =
            solvables.iter().map(|id| library::SolvableId(self.solvable_numbers[id])).collect();
        self.discovered.sort_candidates(&mut numbers);
        for (slot, number) in solvables.iter_mut().zip(numbers) {
            *slot = self.solvables[number.0];
        }
    }

    fn get_candidates(&self, name: NameId) -> Option<Candidates> {
        let number = *self.names.get(&name)?;
        let found = self.discovered.get_candidates(library::NameId(number))?;
        Some(Candidates {
            candidates: found.candidates.iter().map(|s| self.solvables[s.0]).collect(),
            ..Candidates::default()
        })
    }

    fn get_dependencies(&self, solvable: SolvableId) -> Dependencies {
        let Some(number) = self.solvable_numbers.get(&solvable) else {
            return Dependencies::default();
        };
        let found = self.discovered.get_dependencies(library::SolvableId(*number));
        Dependencies {
            requirements: found.requirements.iter().map(|v| self.version_sets[v.0]).collect(),
            ..Dependencies::default()
        }
    }
}

fn environment() -> MarkerEnvironment {
    MarkerEnvironment {
        os_name: "posix".to_string(),
        sys_platform: "linux".to_string(),
        platform_machine: "x86_64".to_string(),
        platform_python_implementation: "CPython".to_string(),
        platform_release: "6.1".to_string(),
        platform_system: "Linux".to_string(),
        platform_version: "1".to_string(),
        python_version: "3.9".to_string(),
        python_full_version: "3.9.0".to_string(),
        implementation_name: "cpython".to_string(),
        implementation_version: "3.9.0".to_string(),
        extra: String::new(),
    }
}

type Index = Vec<(&'static str, Vec<(&'static str, Vec<&'static str>)>)>;

fn artifacts(package: &str, version: &str) -> VersionArtifacts {
    let file = format!("{package}-{version}-py3-none-any.whl");
    VersionArtifacts {
        version: Version::parse(version).unwrap(),
        artifacts: vec![ArtifactInfo {
            filename: ArtifactName::from_filename(&file, &NormalizedPackageName::new(package)).unwrap(),
            url: format!("https://files.example.org/{file}"),
            hashes: ArtifactHashes { sha256: None, md5: None },
            requires_python: None,
            dist_info_metadata: DistInfoMetadata {
                available: false,
                hashes: ArtifactHashes { sha256: None, md5: None },
            },
            yanked: Yanked { yanked: false, reason: None },
        }],
    }
}

fn resolve(index: &Index, specs: &[&str]) -> Result<Vec<(String, String)>, String> {
    let roots: Vec<Requirement> = specs.iter().map(|s| Requirement::parse(s).unwrap()).collect();
    let names: Vec<NormalizedPackageName> = roots.iter().map(|r| r.name.duplicate()).collect();
    let mut discovery = Discovery::new(&names, environment());
    while let Some(package) = discovery.next_package() {
        let Some((_, releases)) = index.iter().find(|(n, _)| *n == package.as_str()) else {
            continue;
        };
        let id = discovery.begin_package(&package);
        let entries: Vec<VersionArtifacts> =
            releases.iter().map(|(v, _)| artifacts(package.as_str(), v)).collect();
        for request in plan_package(&entries) {
            let requires: Vec<Requirement> =
                releases[request.version].1.iter().map(|t| Requirement::parse(t).unwrap()).collect();
            discovery.record_version(id, &entries[request.version], &requires);
        }
    }
    let mut discovered = discovery.finish();
    let root_numbers = discovered.intern_roots(&roots);
    let discovered = Rc::new(discovered);
    let provider = SolverProvider::new(discovered.clone());
    let numbers = provider.solvable_numbers.clone();
    let root_sets = root_numbers.iter().map(|v| provider.version_sets[v.0]).collect();
    let mut solver = Solver::new(provider);
    match solver.solve(root_sets) {
        Ok(chosen) => {
            let chosen_numbers: Vec<library::SolvableId> =
                chosen.iter().map(|id| library::SolvableId(numbers[id])).collect();
            assert!(discovered.check_solution(&root_numbers, &chosen_numbers));
            let pool = solver.pool();
            let mut rows: Vec<(String, String)> = chosen
                .into_iter()
                .map(|id| {
                    let solvable = pool.resolve_solvable(id);
                    (pool.resolve_package_name(solvable.name_id()).clone(), solvable.inner().to_string())
                })
                .collect();
            rows.sort();
            Ok(rows)
        }
        Err(problem) => Err(problem.display_user_friendly(&solver, &DefaultSolvableDisplay).to_string()),
    }
}

fn flask_index() -> Index {
    vec![
        (
            "flask",
            vec![
                ("2.3.3", vec!["werkzeug >=2.3.7", "click >=8.1.3"]),
                (
                    "3.0.0",
                    vec![
                        "Werkzeug >=3.0.0",
                        "Jinja2 >=3.1.2",
                        "click >=8.1.3",
                        "importlib-metadata >=3.6.0 ; python_version < \"3.10\"",
                        "colorama ; sys_platform == \"win32\"",
                    ],
                ),
                ("3.1.0rc1", vec!["nothing-there"]),
            ],
        ),
        ("werkzeug", vec![("2.3.7", vec![]), ("3.0.0", vec!["MarkupSafe >=2.1.1"]), ("3.0.1", vec!["MarkupSafe >=2.1.1"])]),
        ("jinja2", vec![("3.1.2", vec!["MarkupSafe >=2.0"])]),
        ("click", vec![("8.1.6", vec![]), ("8.1.7", vec![])]),
        ("markupsafe", vec![("2.0.0", vec![]), ("2.1.3", vec![])]),
        ("importlib-metadata", vec![("6.8.0", vec!["zipp >=0.5"])]),
        ("zipp", vec![("3.17.0", vec![]), ("0.4", vec![])]),
    ]
}

fn row(name: &str, version: &str) -> (String, String) {
    (name.to_string(), version.to_string())
}

#[test]
fn resolution_of_flask_takes_the_newest_versions_that_fit() {
    let rows = resolve(&flask_index(), &["flask"]).unwrap();
    assert_eq!(
        rows,
        vec![
            row("click", "8.1.7"),
            row("flask", "3.0.0"),
            row("importlib-metadata", "6.8.0"),
            row("jinja2", "3.1.2"),
            row("markupsafe", "2.1.3"),
            row("werkzeug", "3.0.1"),
            row("zipp", "3.17.0"),
        ]
    );
}

#[test]
fn resolution_meets_the_root_specifiers() {
    let rows = resolve(&flask_index(), &["flask <3", "click !=8.1.7"]).unwrap();
    assert_eq!(
        rows,
        vec![
            row("click", "8.1.6"),
            row("flask", "2.3.3"),
            row("markupsafe", "2.1.3"),
            row("werkzeug", "3.0.1"),
        ]
    );
    let rows = resolve(&flask_index(), &["flask <3", "werkzeug <3"]).unwrap();
    assert_eq!(
        rows,
        vec![row("click", "8.1.7"), row("flask", "2.3.3"), row("werkzeug", "2.3.7")]
    );
}

#[test]
fn resolution_that_cannot_be_met_names_the_conflict() {
    let index: Index = vec![
        ("a", vec![("1.0", vec!["c <2"])]),
        ("b", vec![("1.0", vec!["c >=2"])]),
        ("c", vec![("1.0", vec![]), ("2.0", vec![])]),
    ];
    let message = resolve(&index, &["a ==1.0", "b ==1.0"]).unwrap_err();
    assert!(message.contains("a"), "{message}");
    assert!(message.contains("b"), "{message}");
    assert!(message.contains("c"), "{message}");
    assert!(resolve(&index, &["a ==1.0"]).is_ok());
}

#[test]
fn resolution_of_a_package_without_candidates_fails() {
    let index: Index = vec![("a", vec![("1.0rc1", vec![])])];
    assert!(resolve(&index, &["a"]).is_err());
    assert!(resolve(&index, &["missing"]).is_err());
}

#[test]
fn check_solution_tells_a_solution_from_what_is_none() {
    let mut provider = PypiDependencyProvider::new();
    let a = provider.intern_package_name(&NormalizedPackageName::new("a"));
    let b = provider.intern_package_name(&NormalizedPackageName::new("b"));
    let a1 = provider.add_candidate(a, Version::parse("1.0").unwrap()).unwrap();
    let a2 = provider.add_candidate(a, Version::parse("2.0").unwrap()).unwrap();
    let b1 = provider.add_candidate(b, Version::parse("1.0").unwrap()).unwrap();
    let b2 = provider.add_candidate(b, Version::parse("2.0").unwrap()).unwrap();
    provider.add_dependency(a2, b, Specifiers::parse(">=2").unwrap());
    provider.add_dependency(a1, b, Specifiers::parse("<2").unwrap());
    let roots = provider.intern_roots(&vec![Requirement::parse("a").unwrap()]);
    assert!(provider.check_solution(&roots, &vec![a2, b2]));
    assert!(provider.check_solution(&roots, &vec![b1, a1]));
    assert!(provider.check_solution(&Vec::new(), &Vec::new()));
    assert!(provider.check_solution(&Vec::new(), &vec![b1]));
    assert!(!provider.check_solution(&roots, &Vec::new()));
    assert!(!provider.check_solution(&roots, &vec![b2]));
    assert!(!provider.check_solution(&roots, &vec![a2]));
    assert!(!provider.check_solution(&roots, &vec![a2, b1]));
    assert!(!provider.check_solution(&roots, &vec![a1, a2, b1]));
    assert!(!provider.check_solution(&roots, &vec![a2, b2, library::SolvableId(17)]));
    assert!(!provider.check_solution(&vec![library::VersionSetId(17)], &vec![a2, b2]));
}
