//! Turns the advisories that a dependency scanner reports into issues of a
//! tracker: one issue per advisory, none twice, and never more calls than the
//! tracker's rate limit allows.

use crate::deny::output::{Diagnostic, Graph};
use crate::progenitor::{
    descend, first_level, forest_leaf, lemma_forest_leaf_descends, lemma_forest_of_leaves,
    lemma_next_level_depth, max_depth, progenitor, trees,
};
use crate::text::{opt_str, split, split_str, strs, trim, trim_str};
use std::convert::Infallible;
use vstd::prelude::*;
use vstd::string::StringExecFns;

pub use crate::config::{Config, CrateConfig};

pub mod client;
pub mod config;
pub mod deny;
pub mod driver;
pub mod progenitor;
pub mod text;
pub mod title;

verus! {

/// A repository of the tracker, `owner/name`.
#[derive(Clone, Debug)]
pub struct GitHubRepo {
    pub owner: String,
    pub name: String,
}

/// Why a string does not name a repository.
#[derive(Clone, Copy, Debug, PartialEq, Eq, Structural)]
pub enum RepoError {
    /// There is no `/`, so no repository name follows the owner.
    MissingRepo,
    /// There is more than one `/`.
    TooManyParts,
}

/// One security finding, ready to be filed. `title` is derived from the
/// other fields, and two advisories with one title are one ticket.
#[derive(Clone, Debug)]
pub struct Advisory {
    pub title: String,
    pub id: String,
    pub body: String,
    pub withdrawn: bool,
    /// The progenitor: the package at the end of the longest dependency path
    /// to the vulnerable one.
    pub crate_name: Option<String>,
}

/// An advisory as plain values.
pub struct AdvisoryView {
    pub title: Seq<char>,
    pub id: Seq<char>,
    pub body: Seq<char>,
    pub withdrawn: bool,
    pub crate_name: Option<Seq<char>>,
}

impl View for Advisory {
    type V = AdvisoryView;

    open spec fn view(&self) -> AdvisoryView {
        AdvisoryView {
            title: self.title@,
            id: self.id@,
            body: self.body@,
            withdrawn: self.withdrawn,
            crate_name: opt_str(self.crate_name),
        }
    }
}

/// The advisories of `list` as plain values.
pub open spec fn advisory_views(list: Seq<Advisory>) -> Seq<AdvisoryView> {
    list.map_values(|a: Advisory| a@)
}

/// The labels given on the command line.
#[derive(Clone, Debug)]
pub struct Labels(Vec<String>);

impl RepoError {
    /// The error in words.
    pub fn message(&self) -> (text: String)
        ensures
            text@ == match *self {
                RepoError::MissingRepo => "missing repo"@,
                RepoError::TooManyParts => "too many parts"@,
            },
    {
        match self {
            RepoError::MissingRepo => "missing repo".to_owned(),
            RepoError::TooManyParts => "too many parts".to_owned(),
        }
    }
}

impl GitHubRepo {
    /// What `owner/name` means: the owner and the name where `s` holds
    /// exactly one `/`, either of which may be empty.
    pub open spec fn parse(s: Seq<char>) -> Result<(Seq<char>, Seq<char>), RepoError> {
        let parts = split(s, '/');
        if parts.len() == 1 {
            Err(RepoError::MissingRepo)
        } else if parts.len() == 2 {
            Ok((parts[0], parts[1]))
        } else {
            Err(RepoError::TooManyParts)
        }
    }

    /// Reads a repository from `owner/name`.
    pub fn from_str(s: &str) -> (parsed: Result<GitHubRepo, RepoError>)
        ensures
            match parsed {
                Ok(repo) => Self::parse(s@) == Ok::<_, RepoError>((repo.owner@, repo.name@)),
                Err(e) => Self::parse(s@) == Err::<(Seq<char>, Seq<char>), _>(e),
            },
    {
        let mut parts = split_str(s, '/');
        let ghost views = strs(parts@);
        if parts.len() > 2 {
            return Err(RepoError::TooManyParts);
        }
        let name = match parts.pop() {
            Some(name) => name,
            None => return Err(RepoError::MissingRepo),
        };
        let owner = match parts.pop() {
            Some(owner) => owner,
            None => return Err(RepoError::MissingRepo),
        };
        proof {
            assert(views[1] == name@);
            assert(views[0] == owner@);
        }
        Ok(GitHubRepo { owner, name })
    }
}

impl std::str::FromStr for GitHubRepo {
    type Err = RepoError;

    fn from_str(s: &str) -> (parsed: Result<Self, Self::Err>)
        ensures
            match parsed {
                Ok(repo) => GitHubRepo::parse(s@) == Ok::<_, RepoError>((repo.owner@, repo.name@)),
                Err(e) => GitHubRepo::parse(s@) == Err::<(Seq<char>, Seq<char>), _>(e),
            },
    {
        GitHubRepo::from_str(s)
    }
}

impl View for Labels {
    type V = Seq<Seq<char>>;

    closed spec fn view(&self) -> Seq<Seq<char>> {
        strs(self.0@)
    }
}

impl Labels {
    /// The pieces of a list, each without the white space at its ends, and
    /// without those of which nothing is left.
    pub open spec fn trimmed(pieces: Seq<Seq<char>>) -> Seq<Seq<char>>
        decreases pieces.len(),
    {
        if pieces.len() == 0 {
            Seq::empty()
        } else {
            let before = Self::trimmed(pieces.drop_last());
            let label = trim(pieces.last());
            if label.len() > 0 {
                before.push(label)
            } else {
                before
            }
        }
    }

    /// What a list of labels separated by commas means.
    pub open spec fn parse(s: Seq<char>) -> Seq<Seq<char>> {
        Self::trimmed(split(s, ','))
    }

    /// Reads labels separated by commas. White space around a label does not
    /// count, and an empty label is left out. Never fails.
    pub fn from_str(s: &str) -> (parsed: Result<Labels, Infallible>)
        ensures
            parsed matches Ok(labels) && labels@ == Self::parse(s@),
    {
        let parts = split_str(s, ',');
        let mut labels: Vec<String> = Vec::new();
        let mut i: usize = 0;
        while i < parts.len()
            invariant
                i <= parts@.len(),
                strs(labels@) == Self::trimmed(strs(parts@).take(i as int)),
            decreases parts@.len() - i,
        {
            let label = trim_str(parts[i].as_str());
            proof {
                let upto = strs(parts@).take(i + 1);
                assert(upto.drop_last() =~= strs(parts@).take(i as int));
                assert(upto.last() == parts@[i as int]@);
                assert(strs(labels@.push(label)) =~= strs(labels@).push(label@));
            }
            if !label.as_str().is_empty() {
                labels.push(label);
            }
            i += 1;
        }
        proof {
            assert(strs(parts@).take(i as int) =~= strs(parts@));
        }
        Ok(Labels(labels))
    }

    /// The labels, in the order in which they were given.
    pub fn into_vec(self) -> (labels: Vec<String>)
        ensures
            strs(labels@) == self@,
    {
        self.0
    }
}

impl std::str::FromStr for Labels {
    type Err = Infallible;

    fn from_str(s: &str) -> (parsed: Result<Self, Self::Err>)
        ensures
            parsed matches Ok(labels) && labels@ == Labels::parse(s@),
    {
        Labels::from_str(s)
    }
}

impl Advisory {
    /// The title of an advisory: `root: [id] message` where it has a
    /// progenitor `root`, else `[id] message`.
    pub open spec fn title_of(
        root: Option<Seq<char>>,
        id: Seq<char>,
        message: Seq<char>,
    ) -> Seq<char> {
        match root {
            Some(root) => root + seq![':', ' ', '['] + id + seq![']', ' '] + message,
            None => seq!['['] + id + seq![']', ' '] + message,
        }
    }

    /// The progenitor of a diagnostic: that of its dependency paths, and
    /// nothing where it carries none.
    pub open spec fn root_of(d: Diagnostic) -> Option<Seq<char>> {
        match d.graphs {
            Some(graphs) => progenitor(graphs@),
            None => None,
        }
    }

    /// The advisory that a diagnostic with an advisory payload becomes.
    pub open spec fn normalized(d: Diagnostic) -> AdvisoryView
        recommends
            d.advisory is Some,
    {
        let payload = d.advisory->0;
        AdvisoryView {
            title: Self::title_of(Self::root_of(d), payload.id@, d.message@),
            id: payload.id@,
            body: payload.description@,
            withdrawn: payload.withdrawn is Some,
            crate_name: Self::root_of(d),
        }
    }

    /// Whether the title is what the other fields make it: the title of the
    /// progenitor and the id with some message.
    pub open spec fn well_formed(self) -> bool {
        exists|message: Seq<char>|
            self@.title == #[trigger] Self::title_of(self@.crate_name, self@.id, message)
    }

    /// Builds the title of an advisory.
    pub fn title(root: &Option<String>, id: &str, message: &str) -> (title: String)
        ensures
            title@ == Self::title_of(opt_str(*root), id@, message@),
    {
        let mut title = String::new();
        proof {
            reveal_strlit(": [");
            reveal_strlit("[");
            reveal_strlit("] ");
        }
        match root {
            Some(name) => {
                title.append(name.as_str());
                title.append(": [");
                assert(title@ =~= name@ + seq![':', ' ', '[']);
            },
            None => {
                title.append("[");
                assert(title@ =~= seq!['[']);
            },
        }
        title.append(id);
        title.append("] ");
        title.append(message);
        assert("] "@ =~= seq![']', ' ']);
        title
    }

    /// Finds the progenitor of the dependency paths `graphs`: the name of the
    /// leaf at the end of the longest chain of parents, the first such leaf
    /// where several chains are equally long, and nothing where there is no
    /// path at all.
    pub fn find_progenitor(graphs: Vec<Graph>) -> (root: Option<String>)
        ensures
            match root {
                Some(name) => progenitor(graphs@) == Some(name@),
                None => progenitor(graphs@) is None,
            },
    {
        if graphs.len() == 0 {
            return None;
        }
        let mut level = first_level(&graphs);
        loop
            invariant
                level@.len() > 0,
                graphs@.len() > 0,
                forest_leaf(trees(level@)) == forest_leaf(graphs@),
            decreases max_depth(trees(level@)),
        {
            let next = descend(&level);
            proof {
                lemma_next_level_depth(trees(level@));
            }
            if next.len() == 0 {
                proof {
                    lemma_forest_of_leaves(trees(level@));
                }
                return Some(level[0].name.clone());
            }
            proof {
                lemma_forest_leaf_descends(trees(level@));
            }
            level = next;
        }
    }
}

/// What the conversion gives is stated by the contract of `try_from` over
/// the advisory's view. No function of specifications says it: the strings
/// of the result are only known by what they hold.
impl vstd::std_specs::convert::TryFromSpecImpl<Diagnostic> for Advisory {
    open spec fn obeys_try_from_spec() -> bool {
        false
    }

    open spec fn try_from_spec(d: Diagnostic) -> Result<Self, Diagnostic> {
        Err(d)
    }
}

impl TryFrom<Diagnostic> for Advisory {
    type Error = Diagnostic;

    /// Normalizes a diagnostic. One that carries no advisory is no finding:
    /// it is handed back unchanged, which is a skip and no failure.
    fn try_from(d: Diagnostic) -> (normalized: Result<Advisory, Diagnostic>)
        ensures
            match normalized {
                Ok(advisory) => {
                    &&& d.advisory is Some
                    &&& advisory@ == Advisory::normalized(d)
                    &&& advisory.well_formed()
                },
                Err(skipped) => d.advisory is None && skipped == d,
            },
    {
        let Diagnostic { advisory, code, message, graphs, labels, notes, severity } = d;
        let payload = match advisory {
            Some(payload) => payload,
            None => {
                return Err(
                    Diagnostic { advisory: None, code, message, graphs, labels, notes, severity },
                );
            },
        };
        let crate_name = match graphs {
            Some(graphs) => Advisory::find_progenitor(graphs),
            None => None,
        };
        let title = Advisory::title(&crate_name, payload.id.as_str(), message.as_str());
        let advisory = Advisory {
            title,
            id: payload.id,
            body: payload.description,
            withdrawn: payload.withdrawn.is_some(),
            crate_name,
        };
        assert(advisory@.title == Advisory::title_of(
            advisory@.crate_name,
            advisory@.id,
            message@,
        ));
        Ok(advisory)
    }
}

} // verus!
