//! Version specifiers: conjunctions of clauses such as `>=1.0` that a
//! version has to meet.

use vstd::prelude::*;
use crate::text::{duplicate_texts, same_texts, texts};
use crate::version::{version_of_text, Version};

verus! {

/// An ordered conjunction of clauses, each an operator and a version.
#[derive(Debug)]
pub struct Specifiers {
    clauses: Vec<String>,
}

/// The error of a clause that cannot be held against a version.
#[derive(Debug)]
pub enum SpecifierError {
    /// Holds the text of the clause.
    InvalidClause(String),
}

/// The clauses that a text of specifiers consists of, each as text, where
/// the text is one of specifiers.
pub uninterp spec fn clauses_of_text(text: Seq<char>) -> Option<Seq<Seq<char>>>;

/// Whether the clause with the text `clause` accepts the version with the
/// text `version`, where both are what they should be.
pub uninterp spec fn clause_accepts(clause: Seq<char>, version: Seq<char>) -> Option<bool>;

/// Whether a version meets every clause. The clauses are held against it in
/// order, up to the first that refuses it or cannot be evaluated.
pub open spec fn satisfied(clauses: Seq<Seq<char>>, version: Seq<char>) -> Result<bool, Seq<char>>
    decreases clauses.len(),
{
    if clauses.len() == 0 {
        Ok(true)
    } else {
        match clause_accepts(clauses[0], version) {
            None => Err(clauses[0]),
            Some(false) => Ok(false),
            Some(true) => satisfied(clauses.drop_first(), version),
        }
    }
}

/// The empty conjunction accepts any version.
pub proof fn lemma_empty_accepts_all(version: Seq<char>)
    ensures
        satisfied(Seq::empty(), version) == Ok::<bool, Seq<char>>(true),
{
}

impl Specifiers {
    /// The texts of the clauses, in order.
    pub closed spec fn view(&self) -> Seq<Seq<char>> {
        texts(self.clauses@)
    }

    /// The conjunction of no clause.
    pub fn empty() -> (r: Self)
        ensures
            r@ == Seq::<Seq<char>>::empty(),
    {
        let r = Specifiers { clauses: Vec::new() };
        assert(r@ =~= Seq::<Seq<char>>::empty());
        r
    }

    /// Reads specifiers such as `>=1.0, !=1.3.*, <2.0`.
    pub fn parse(text: &str) -> (r: Option<Self>)
        ensures
            match clauses_of_text(text@) {
                Some(clauses) => r matches Some(s) && s@ == clauses,
                None => r is None,
            },
    {
        match parse_clauses(text) {
            Some(clauses) => Some(Specifiers { clauses }),
            None => None,
        }
    }

    /// The conjunction of the clauses with the given texts.
    pub fn from_clauses(clauses: Vec<String>) -> (r: Self)
        ensures
            r@ == texts(clauses@),
    {
        Specifiers { clauses }
    }

    /// The number of clauses.
    pub fn len(&self) -> (r: usize)
        ensures
            r == self@.len(),
    {
        self.clauses.len()
    }

    /// The text of clause `i`.
    pub fn clause(&self, i: usize) -> (r: &str)
        requires
            i < self@.len(),
        ensures
            r@ == self@[i as int],
    {
        self.clauses[i].as_str()
    }

    /// Whether `version` meets every clause. A clause that cannot be held
    /// against the version gives the error; none can be held against a
    /// version that is not of the scheme of PEP 440, so a legacy version
    /// meets the empty conjunction only.
    pub fn satisfied_by(&self, version: &Version) -> (r: Result<bool, SpecifierError>)
        ensures
            match satisfied(self@, version.text()) {
                Ok(b) => r == Ok::<bool, SpecifierError>(b),
                Err(clause) => r matches Err(SpecifierError::InvalidClause(t)) && t@ == clause,
            },
            version_of_text(version.text()) is None && self@.len() > 0 ==> r is Err,
    {
        let mut i: usize = 0;
        assert(self@.skip(0) =~= self@);
        while i < self.clauses.len()
            invariant
                i <= self.clauses.len(),
                version_of_text(version.text()) is None ==> i == 0,
                satisfied(self@, version.text()) == satisfied(self@.skip(i as int), version.text()),
            decreases self.clauses.len() - i,
        {
            proof {
                assert(self@.skip(i as int)[0] == self.clauses@[i as int]@);
                assert(self@.skip(i as int).drop_first() =~= self@.skip(i + 1));
            }
            match clause_contains(self.clauses[i].as_str(), version.as_str()) {
                None => {
                    return Err(SpecifierError::InvalidClause(self.clauses[i].clone()));
                },
                Some(false) => {
                    return Ok(false);
                },
                Some(true) => {},
            }
            i += 1;
        }
        Ok(true)
    }

    /// Whether two conjunctions hold the same clauses in the same order.
    pub fn same(&self, other: &Specifiers) -> (r: bool)
        ensures
            r == (self@ == other@),
    {
        same_texts(&self.clauses, &other.clauses)
    }

    /// A copy of these specifiers.
    pub fn duplicate(&self) -> (r: Self)
        ensures
            r@ == self@,
    {
        Specifiers { clauses: duplicate_texts(&self.clauses) }
    }
}

/// `pep440_rs::VersionSpecifiers::from_str`, then `to_string` of each
/// `VersionSpecifier`: the clauses of `text`, each written out, where `text`
/// is a list of clauses separated by commas.
#[verifier::external_body]
fn parse_clauses(text: &str) -> (r: Option<Vec<String>>)
    ensures
        match clauses_of_text(text@) {
            Some(clauses) => r matches Some(v) && texts(v@) == clauses,
            None => r is None,
        },
{
    let parsed = text.parse::<pep440_rs::VersionSpecifiers>().ok()?;
    Some(parsed.iter().map(|clause| clause.to_string()).collect())
}

/// `pep440_rs::VersionSpecifier::contains`: whether the clause read from
/// `clause` accepts the version read from `version`; nothing where one of
/// the two cannot be read. The version is read by
/// `pep440_rs::Version::from_str`, so there is nothing where `version` is
/// no version of the scheme of PEP 440.
#[verifier::external_body]
fn clause_contains(clause: &str, version: &str) -> (r: Option<bool>)
    ensures
        r == clause_accepts(clause@, version@),
        version_of_text(version@) is None ==> r is None,
{
    let clause = clause.parse::<pep440_rs::VersionSpecifier>().ok()?;
    let version = version.parse::<pep440_rs::Version>().ok()?;
    Some(clause.contains(&version))
}

} // verus!
