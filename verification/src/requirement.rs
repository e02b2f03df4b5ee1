//! Requirements: a package name with the versions asked of it, and the
//! environments in which it is asked.

use vstd::prelude::*;
use crate::package_name::{normalize, normalized, NormalizedPackageName};
use crate::specifiers::Specifiers;
use crate::text::{count_char, count_of, texts};

verus! {

/// The environment that markers are evaluated against: one text for each key
/// that a marker may name.
#[derive(Debug)]
pub struct MarkerEnvironment {
    pub os_name: String,
    pub sys_platform: String,
    pub platform_machine: String,
    pub platform_python_implementation: String,
    pub platform_release: String,
    pub platform_system: String,
    pub platform_version: String,
    pub python_version: String,
    pub python_full_version: String,
    pub implementation_name: String,
    pub implementation_version: String,
    pub extra: String,
}

/// A marker expression: a boolean expression over the keys of the
/// environment, as text.
#[derive(Debug)]
pub struct MarkerExpr {
    text: String,
}

/// The error of a marker that cannot be evaluated: its text is no marker
/// expression or holds more `(` than are read, it names an unknown key, or
/// the environment holds no version where one is needed.
#[derive(Debug, PartialEq, Eq, Structural)]
pub enum MarkerError {
    CannotEvaluate,
}

/// A requirement: the package asked for, the versions of it that will do,
/// the extras asked of it, and the marker under which it is asked.
#[derive(Debug)]
pub struct Requirement {
    pub name: NormalizedPackageName,
    pub specifiers: Specifiers,
    pub extras: Vec<String>,
    pub url: Option<String>,
    pub env_marker: Option<MarkerExpr>,
}

/// The parts of a requirement as its text gives them.
pub struct RequirementParts {
    pub name: Seq<char>,
    pub extras: Seq<Seq<char>>,
    pub specifiers: Seq<Seq<char>>,
    pub url: Option<Seq<char>>,
    pub marker: Option<Seq<char>>,
}

/// The mathematical value of a [`Requirement`].
pub struct RequirementData {
    pub name: Seq<char>,
    pub specifiers: Seq<Seq<char>>,
    pub extras: Seq<Seq<char>>,
    pub url: Option<Seq<char>>,
    pub env_marker: Option<Seq<char>>,
}

/// The value of the marker with the text `marker` in the environment whose
/// texts are `env`, in the order of [`MarkerEnvironment`]'s fields; nothing
/// where it cannot be evaluated.
pub uninterp spec fn marker_value(marker: Seq<char>, env: Seq<Seq<char>>) -> Option<bool>;

/// The parts of the requirement that a text denotes, where it denotes one.
pub uninterp spec fn requirement_of_text(text: Seq<char>) -> Option<RequirementParts>;

/// How many `(` a requirement or a marker may hold. Brackets can be nested,
/// and a text with more of them than this is not read.
pub const MAX_BRACKETS: usize = 64;

/// Whether a text holds no more `(` than are read.
pub open spec fn few_brackets(text: Seq<char>) -> bool {
    count_of(text, '(') <= MAX_BRACKETS
}

/// The parts of the requirement that a text is read as: those that it
/// denotes, where it holds no more `(` than are read.
pub open spec fn requirement_in(text: Seq<char>) -> Option<RequirementParts> {
    if few_brackets(text) {
        requirement_of_text(text)
    } else {
        None
    }
}

/// The value that a marker is given in an environment: the one that it
/// has there, where it holds no more `(` than are read.
pub open spec fn marker_in(marker: Seq<char>, env: Seq<Seq<char>>) -> Option<bool> {
    if few_brackets(marker) {
        marker_value(marker, env)
    } else {
        None
    }
}

/// Each name of `names` in normal form.
pub open spec fn all_normalized(names: Seq<Seq<char>>) -> Seq<Seq<char>> {
    Seq::new(names.len(), |i: int| normalized(names[i]))
}

/// The requirement that its parts make: the name and the extras in normal
/// form, the rest as it is.
pub open spec fn requirement_from_parts(parts: RequirementParts) -> RequirementData {
    RequirementData {
        name: normalized(parts.name),
        specifiers: parts.specifiers,
        extras: all_normalized(parts.extras),
        url: parts.url,
        env_marker: parts.marker,
    }
}

impl MarkerEnvironment {
    /// The texts of the environment, in the order of the fields.
    pub open spec fn view(&self) -> Seq<Seq<char>> {
        seq![
            self.os_name@,
            self.sys_platform@,
            self.platform_machine@,
            self.platform_python_implementation@,
            self.platform_release@,
            self.platform_system@,
            self.platform_version@,
            self.python_version@,
            self.python_full_version@,
            self.implementation_name@,
            self.implementation_version@,
            self.extra@,
        ]
    }
}

impl MarkerExpr {
    /// The text of the expression.
    pub closed spec fn view(&self) -> Seq<char> {
        self.text@
    }

    pub fn new(text: &str) -> (r: Self)
        ensures
            r@ == text@,
    {
        MarkerExpr { text: text.to_owned() }
    }

    pub fn as_str(&self) -> (r: &str)
        ensures
            r@ == self@,
    {
        self.text.as_str()
    }

    /// The value of the expression in `env`.
    pub fn eval(&self, env: &MarkerEnvironment) -> (r: Result<bool, MarkerError>)
        ensures
            r == match marker_in(self@, env@) {
                Some(b) => Ok::<bool, MarkerError>(b),
                None => Err::<bool, MarkerError>(MarkerError::CannotEvaluate),
            },
    {
        if count_char(self.text.as_str(), '(') > MAX_BRACKETS {
            return Err(MarkerError::CannotEvaluate);
        }
        match evaluate_marker(self.text.as_str(), env) {
            Some(b) => Ok(b),
            None => Err(MarkerError::CannotEvaluate),
        }
    }

    /// Whether the expression is true in `env`. One that cannot be
    /// evaluated counts as false.
    pub fn holds(&self, env: &MarkerEnvironment) -> (r: bool)
        ensures
            r == (marker_in(self@, env@) == Some(true)),
    {
        match self.eval(env) {
            Ok(b) => b,
            Err(_) => false,
        }
    }

    /// A copy of this expression.
    pub fn duplicate(&self) -> (r: Self)
        ensures
            r@ == self@,
    {
        MarkerExpr { text: self.text.clone() }
    }
}

/// The texts of what a requirement's parser gave.
struct ParsedRequirement {
    name: String,
    extras: Vec<String>,
    specifiers: Vec<String>,
    url: Option<String>,
    marker: Option<String>,
}

impl ParsedRequirement {
    spec fn view(&self) -> RequirementParts {
        RequirementParts {
            name: self.name@,
            extras: texts(self.extras@),
            specifiers: texts(self.specifiers@),
            url: match self.url {
                Some(u) => Some(u@),
                None => None,
            },
            marker: match self.marker {
                Some(m) => Some(m@),
                None => None,
            },
        }
    }
}

impl Requirement {
    pub open spec fn view(&self) -> RequirementData {
        RequirementData {
            name: self.name@,
            specifiers: self.specifiers@,
            extras: texts(self.extras@),
            url: match self.url {
                Some(u) => Some(u@),
                None => None,
            },
            env_marker: match self.env_marker {
                Some(m) => Some(m@),
                None => None,
            },
        }
    }

    /// Whether the requirement is asked in `env`: it has no marker, or its
    /// marker is true there.
    pub open spec fn applies(&self, env: Seq<Seq<char>>) -> bool {
        match self.env_marker {
            Some(m) => marker_in(m@, env) == Some(true),
            None => true,
        }
    }

    /// Reads a requirement such as
    /// `requests[security] >=2.8.1, ==2.8.* ; python_version > "3.8"`.
    pub fn parse(text: &str) -> (r: Option<Requirement>)
        ensures
            match requirement_in(text@) {
                Some(parts) => r matches Some(q) && q@ == requirement_from_parts(parts),
                None => r is None,
            },
    {
        if count_char(text, '(') > MAX_BRACKETS {
            return None;
        }
        match parse_requirement_text(text) {
            None => None,
            Some(parsed) => {
                let ghost parts = parsed@;
                let mut extras: Vec<String> = Vec::new();
                let mut i: usize = 0;
                while i < parsed.extras.len()
                    invariant
                        i <= parsed.extras.len(),
                        extras@.len() == i,
                        forall|j: int|
                            0 <= j < i ==> extras@[j]@ == normalized(parsed.extras@[j]@),
                    decreases parsed.extras.len() - i,
                {
                    extras.push(normalize(parsed.extras[i].as_str()));
                    i += 1;
                }
                let name = NormalizedPackageName::new(parsed.name.as_str());
                let specifiers = Specifiers::from_clauses(parsed.specifiers);
                let env_marker = match parsed.marker {
                    Some(m) => Some(MarkerExpr { text: m }),
                    None => None,
                };
                let q = Requirement { name, specifiers, extras, url: parsed.url, env_marker };
                assert(q@.extras =~= all_normalized(parts.extras));
                Some(q)
            },
        }
    }

    /// Whether the requirement is asked in `env`.
    pub fn applies_in(&self, env: &MarkerEnvironment) -> (r: bool)
        ensures
            r == self.applies(env@),
    {
        match &self.env_marker {
            Some(m) => m.holds(env),
            None => true,
        }
    }
}

/// `pep508_rs::Requirement::from_str`: the parts of the requirement that
/// `text` denotes, the clauses and the marker written out by their
/// `to_string`; nothing where `text` is no requirement. The parser calls
/// itself once more for each `(` that is open in a marker, so it is given
/// texts with few `(` only.
#[verifier::external_body]
fn parse_requirement_text(text: &str) -> (r: Option<ParsedRequirement>)
    requires
        few_brackets(text@),
    ensures
        match requirement_of_text(text@) {
            Some(parts) => r matches Some(p) && p@ == parts,
            None => r is None,
        },
{
    let r = text.parse::<pep508_rs::Requirement>().ok()?;
    let (specifiers, url) = match r.version_or_url {
        Some(pep508_rs::VersionOrUrl::VersionSpecifier(s)) => (s.iter().map(|c| c.to_string()).collect(), None),
        Some(pep508_rs::VersionOrUrl::Url(u)) => (Vec::new(), Some(u.to_string())),
        None => (Vec::new(), None),
    };
    let marker = r.marker.map(|m| m.to_string());
    Some(ParsedRequirement { name: r.name, extras: r.extras.unwrap_or_default(), specifiers, url, marker })
}

/// `pep508_rs::MarkerTree::evaluate`: the value of the marker read from
/// `marker` in an environment made of the texts of `env`, with `env.extra`
/// as the one extra; nothing where `marker` cannot be read or one of the
/// three versions of the environment is no version. The parser calls itself
/// once more for each `(` that is open, so it is given markers with few `(`
/// only.
#[verifier::external_body]
fn evaluate_marker(marker: &str, env: &MarkerEnvironment) -> (r: Option<bool>)
    requires
        few_brackets(marker@),
    ensures
        r == marker_value(marker@, env@),
{
    let tree = marker.parse::<pep508_rs::MarkerTree>().ok()?;
    let outside = pep508_rs::MarkerEnvironment {
        implementation_name: env.implementation_name.clone(), os_name: env.os_name.clone(),
        implementation_version: env.implementation_version.parse().ok()?,
        platform_machine: env.platform_machine.clone(), platform_release: env.platform_release.clone(),
        platform_python_implementation: env.platform_python_implementation.clone(),
        platform_system: env.platform_system.clone(), platform_version: env.platform_version.clone(),
        python_full_version: env.python_full_version.parse().ok()?,
        python_version: env.python_version.parse().ok()?, sys_platform: env.sys_platform.clone(),
    };
    Some(tree.evaluate(&outside, &[env.extra.as_str()]))
}

} // verus!
