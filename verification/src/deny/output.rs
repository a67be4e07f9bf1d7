use vstd::prelude::*;

verus! {

/// One record of the scanner's report.
#[derive(Clone, Debug)]
pub enum Object {
    Diagnostic(Diagnostic),
    Summary(Summary),
}

/// The totals that close a report.
#[derive(Clone, Debug)]
pub struct Summary {
    pub advisories: AdvisorySummary,
}

#[derive(Clone, Debug)]
pub struct AdvisorySummary {
    pub errors: usize,
    pub helps: usize,
    pub notes: usize,
    pub warnings: usize,
}

/// One finding of the scanner. Only a diagnostic that carries an advisory
/// describes a vulnerability; the others are informational.
#[derive(Clone, Debug)]
pub struct Diagnostic {
    pub advisory: Option<Advisory>,
    pub code: String,
    pub message: String,
    pub graphs: Option<Vec<Graph>>,
    pub labels: Option<Vec<Label>>,
    pub notes: Vec<String>,
    pub severity: String,
}

/// The advisory database's entry, as the scanner reports it.
#[derive(Clone, Debug)]
pub struct Advisory {
    pub aliases: Vec<String>,
    pub categories: Vec<String>,
    pub collection: String,
    pub cvss: Option<String>,
    pub date: String,
    pub description: String,
    pub id: String,
    pub keywords: Vec<String>,
    pub package: String,
    pub references: Vec<String>,
    pub related: Vec<String>,
    pub title: String,
    pub url: String,
    pub withdrawn: Option<String>,
}

/// One node of a dependency path: a package, and in `parents` the packages
/// that depend on it.
#[derive(Debug)]
pub struct Graph {
    pub name: String,
    pub parents: Vec<Graph>,
    pub repeat: bool,
    pub version: String,
}

/// A place in a source file that a diagnostic points at.
#[derive(Clone, Debug)]
pub struct Label {
    pub column: usize,
    pub line: usize,
    pub message: String,
    pub span: String,
}

impl Graph {
    /// Two trees of the same shape whose nodes agree in every field.
    pub open spec fn same_as(self, other: Graph) -> bool
        decreases self,
    {
        &&& self.name@ == other.name@
        &&& self.version@ == other.version@
        &&& self.repeat == other.repeat
        &&& self.parents@.len() == other.parents@.len()
        &&& forall|i: int|
            0 <= i < self.parents@.len() ==> (#[trigger] self.parents@[i]).same_as(other.parents@[i])
    }
}

impl Clone for Graph {
    fn clone(&self) -> (copy: Self)
        ensures
            self.same_as(copy),
        decreases self,
    {
        let mut parents: Vec<Graph> = Vec::new();
        let mut i: usize = 0;
        while i < self.parents.len()
            invariant
                i <= self.parents@.len(),
                parents@.len() == i,
                forall|k: int| 0 <= k < i ==> (#[trigger] self.parents@[k]).same_as(parents@[k]),
            decreases self.parents@.len() - i,
        {
            parents.push(self.parents[i].clone());
            i += 1;
        }
        Graph {
            name: self.name.clone(),
            parents,
            repeat: self.repeat,
            version: self.version.clone(),
        }
    }
}

} // verus!
