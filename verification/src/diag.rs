//! Diagnostics attributed to structured paths.
//!
//! Every message a step emits points at the declaration responsible for it,
//! as a path of attribute names, mapping keys and list indices
//! (`read["name"].cmd`, `inputs.key`).  Diagnostics accumulate on a shared
//! collector for the whole step; a step produces no result exactly when the
//! collector holds at least one error.

use vstd::prelude::*;

verus! {

/// One step of a structured attribute path.
#[derive(Debug, Clone)]
pub enum PathStep {
    /// A named attribute (`.cmd`).
    Attribute(String),
    /// A mapping key (`["name"]`).
    Key(String),
    /// A list index (`[0]`).
    Index(u64),
}

/// The view of a path step.
pub ghost enum PathStepV {
    Attribute(Seq<char>),
    Key(Seq<char>),
    Index(u64),
}

impl View for PathStep {
    type V = PathStepV;

    open spec fn view(&self) -> PathStepV {
        match self {
            PathStep::Attribute(s) => PathStepV::Attribute(s@),
            PathStep::Key(s) => PathStepV::Key(s@),
            PathStep::Index(i) => PathStepV::Index(*i),
        }
    }
}

/// A structured path to the declaration a diagnostic is about.
#[derive(Debug, Clone)]
pub struct AttrPath {
    pub steps: Vec<PathStep>,
}

impl View for AttrPath {
    type V = Seq<PathStepV>;

    open spec fn view(&self) -> Seq<PathStepV> {
        self.steps@.map_values(|s: PathStep| s@)
    }
}

/// The view of a path rooted at attribute `name`.
pub open spec fn path_root(name: Seq<char>) -> Seq<PathStepV> {
    seq![PathStepV::Attribute(name)]
}

impl AttrPath {
    /// The empty path (the resource itself).
    pub fn root() -> (r: Self)
        ensures
            r@ =~= Seq::<PathStepV>::empty(),
    {
        AttrPath { steps: Vec::new() }
    }

    /// A path rooted at attribute `name`.
    pub fn new(name: &str) -> (r: Self)
        ensures
            r@ =~= path_root(name@),
    {
        let mut steps: Vec<PathStep> = Vec::new();
        steps.push(PathStep::Attribute(name.to_owned()));
        AttrPath { steps }
    }

    /// Extend the path with an attribute name.
    pub fn attribute(self, name: &str) -> (r: Self)
        ensures
            r@ =~= self@.push(PathStepV::Attribute(name@)),
    {
        let mut steps = self.steps;
        steps.push(PathStep::Attribute(name.to_owned()));
        AttrPath { steps }
    }

    /// Extend the path with a mapping key.
    pub fn key(self, k: String) -> (r: Self)
        ensures
            r@ =~= self@.push(PathStepV::Key(k@)),
    {
        let mut steps = self.steps;
        steps.push(PathStep::Key(k));
        AttrPath { steps }
    }

    /// Extend the path with a list index.
    pub fn index(self, i: u64) -> (r: Self)
        ensures
            r@ =~= self@.push(PathStepV::Index(i)),
    {
        let mut steps = self.steps;
        steps.push(PathStep::Index(i));
        AttrPath { steps }
    }
}

impl PathStep {
    /// A copy with the same content.
    pub fn dup(&self) -> (r: Self)
        ensures
            r@ == self@,
    {
        match self {
            PathStep::Attribute(s) => PathStep::Attribute(s.clone()),
            PathStep::Key(s) => PathStep::Key(s.clone()),
            PathStep::Index(i) => PathStep::Index(*i),
        }
    }
}

impl AttrPath {
    /// A copy with the same steps.
    pub fn duplicate(&self) -> (r: Self)
        ensures
            r@ == self@,
    {
        let n = self.steps.len();
        let mut steps: Vec<PathStep> = Vec::new();
        let mut i: usize = 0;
        while i < n
            invariant
                n == self.steps@.len(),
                i <= n,
                steps@.len() == i,
                forall|j: int| #![auto] 0 <= j < i ==> steps@[j]@ == self.steps@[j]@,
            decreases n - i,
        {
            steps.push(self.steps[i].dup());
            i = i + 1;
        }
        let r = AttrPath { steps };
        proof {
            assert(r@ =~= self@);
        }
        r
    }
}

/// One diagnostic: a summary, an optional detail, and the path it is about.
#[derive(Debug, Clone)]
pub struct Diagnostic {
    pub summary: String,
    pub detail: String,
    pub path: AttrPath,
}

/// The view of a diagnostic.
pub ghost struct DiagnosticV {
    pub summary: Seq<char>,
    pub detail: Seq<char>,
    pub path: Seq<PathStepV>,
}

impl View for Diagnostic {
    type V = DiagnosticV;

    open spec fn view(&self) -> DiagnosticV {
        DiagnosticV { summary: self.summary@, detail: self.detail@, path: self.path@ }
    }
}

/// The collector of a step's diagnostics, errors apart from warnings.
#[derive(Debug)]
pub struct Diagnostics {
    pub errors: Vec<Diagnostic>,
    pub warnings: Vec<Diagnostic>,
}

impl Diagnostics {
    /// An empty collector.
    pub fn new() -> (r: Self)
        ensures
            r.errors@.len() == 0,
            r.warnings@.len() == 0,
    {
        Diagnostics { errors: Vec::new(), warnings: Vec::new() }
    }

    /// Whether at least one error has been collected.
    pub fn has_errors(&self) -> (r: bool)
        ensures
            r == (self.errors@.len() > 0),
    {
        self.errors.len() > 0
    }

    /// Record an error.
    pub fn error(&mut self, summary: String, detail: String, path: AttrPath)
        ensures
            final(self).errors@ =~= old(self).errors@.push(
                Diagnostic { summary, detail, path },
            ),
            final(self).warnings@ == old(self).warnings@,
    {
        self.errors.push(Diagnostic { summary, detail, path });
    }

    /// Record an error with no detail.
    pub fn error_short(&mut self, summary: String, path: AttrPath)
        ensures
            final(self).errors@.len() == old(self).errors@.len() + 1,
            final(self).errors@.subrange(0, old(self).errors@.len() as int) =~= old(self).errors@,
            final(self).errors@.last()@.summary == summary@,
            final(self).errors@.last()@.path == path@,
            final(self).errors@.last()@.detail =~= Seq::<char>::empty(),
            final(self).warnings@ == old(self).warnings@,
    {
        self.errors.push(Diagnostic { summary, detail: String::new(), path });
        proof {
            assert(final(self).errors@.drop_last() =~= old(self).errors@);
            assert(final(self).errors@.subrange(0, old(self).errors@.len() as int) =~= old(
                self,
            ).errors@);
        }
    }

    /// Record a warning.
    pub fn warning(&mut self, summary: String, detail: String, path: AttrPath)
        ensures
            final(self).warnings@ =~= old(self).warnings@.push(
                Diagnostic { summary, detail, path },
            ),
            final(self).errors@ == old(self).errors@,
    {
        self.warnings.push(Diagnostic { summary, detail, path });
    }

    /// Merge another collector's findings into this one.
    pub fn absorb(&mut self, mut other: Diagnostics)
        ensures
            final(self).errors@ =~= old(self).errors@ + other.errors@,
            final(self).warnings@ =~= old(self).warnings@ + other.warnings@,
    {
        self.errors.append(&mut other.errors);
        self.warnings.append(&mut other.warnings);
    }
}

/// Whether `post` is `pre` with exactly one diagnostic appended, holding
/// the given summary, detail and path.
pub open spec fn pushed_diag(
    pre: Seq<Diagnostic>,
    post: Seq<Diagnostic>,
    summary: Seq<char>,
    detail: Seq<char>,
    path: Seq<PathStepV>,
) -> bool {
    &&& post.len() == pre.len() + 1
    &&& post.subrange(0, pre.len() as int) == pre
    &&& post.last()@.summary == summary
    &&& post.last()@.detail == detail
    &&& post.last()@.path == path
}

} // verus!
