//! Planning and running one accumulation pass.
//!
//! Paths are relative to the directory being organized, as a list of
//! segments: `["image", "2024-03-01", "a.jpg"]` is `<root>/image/2024-03-01/a.jpg`.
use vstd::prelude::*;
use crate::utils::{AccumulateType, FileSplitMap};

pub mod organize_flat_directory;
pub mod organize_recursive_directory;

pub use crate::utils::{get_default_file_labels, get_default_file_split_map};

verus! {

/// The options of one accumulation pass, as the command line gives them.
#[derive(Clone, Debug)]
pub struct Args {
    pub directory: String,
    pub accumulate_type: AccumulateType,
    pub recursive: bool,
    pub silent: bool,
    pub file_type_split: bool,
    pub back: bool,
}

/// What the planners read: the timestamp to use, whether files are split by
/// type, the names never moved, and the extension table.
pub struct AccumulationConfig {
    pub accumulate_type: AccumulateType,
    pub file_type_split: bool,
    pub excluded: Vec<String>,
    pub split_map: FileSplitMap,
}

impl AccumulationConfig {
    /// The configuration of `args`, with the given exclusion list and the
    /// default extension table.
    pub fn new(args: &Args, excluded: Vec<String>) -> (r: AccumulationConfig)
        ensures
            r.accumulate_type == args.accumulate_type,
            r.file_type_split == args.file_type_split,
            r.excluded == excluded,
            r.split_map@ == crate::utils::split_map_of(crate::utils::default_labels_model()),
    {
        AccumulationConfig {
            accumulate_type: args.accumulate_type,
            file_type_split: args.file_type_split,
            excluded,
            split_map: get_default_file_split_map(),
        }
    }
}

/// Whether `name` is one of the names never moved.
pub open spec fn excluded_name(cfg: &AccumulationConfig, name: Seq<char>) -> bool {
    cfg.excluded.deep_view().contains(name)
}

/// Whether `name` is one of `names`.
pub fn contains_name(names: &Vec<String>, name: &String) -> (r: bool)
    ensures
        r == names.deep_view().contains(name@),
{
    let mut i: usize = 0;
    while i < names.len()
        invariant
            i <= names@.len(),
            forall|j: int| 0 <= j < i ==> names@[j]@ != name@,
        decreases names@.len() - i,
    {
        if names[i] == *name {
            assert(names.deep_view()[i as int] == name@);
            return true;
        }
        i = i + 1;
    }
    assert(!names.deep_view().contains(name@)) by {
        if names.deep_view().contains(name@) {
            let k = choose|k: int| 0 <= k < names.deep_view().len() && names.deep_view()[k] == name@;
            assert(names@[k]@ == name@);
        }
    }
    false
}

/// One filesystem operation of a plan.
#[derive(Clone, Debug, PartialEq, Eq)]
pub enum Op {
    /// Create the directory, and any missing parent, unless it exists.
    EnsureDir(Vec<String>),
    /// Rename the first path to the second.
    Move(Vec<String>, Vec<String>),
    /// Remove the directory, which should be empty by now.
    RemoveDir(Vec<String>),
}

pub enum OpView {
    EnsureDir(Seq<Seq<char>>),
    Move(Seq<Seq<char>>, Seq<Seq<char>>),
    RemoveDir(Seq<Seq<char>>),
}

impl View for Op {
    type V = OpView;

    open spec fn view(&self) -> OpView {
        match self {
            Op::EnsureDir(p) => OpView::EnsureDir(p.deep_view()),
            Op::Move(a, b) => OpView::Move(a.deep_view(), b.deep_view()),
            Op::RemoveDir(p) => OpView::RemoveDir(p.deep_view()),
        }
    }
}

/// Why a pass stopped, with the path concerned.
#[derive(Clone, Debug, PartialEq, Eq)]
pub enum AccumulateError {
    MetadataUnavailable(Vec<String>),
    DirectoryListingFailed(Vec<String>),
    DestinationCreateFailed(Vec<String>),
    RelocationFailed(Vec<String>),
    SourceRemovalFailed(Vec<String>),
}

pub enum ErrorView {
    MetadataUnavailable(Seq<Seq<char>>),
    DirectoryListingFailed(Seq<Seq<char>>),
    DestinationCreateFailed(Seq<Seq<char>>),
    RelocationFailed(Seq<Seq<char>>),
    SourceRemovalFailed(Seq<Seq<char>>),
}

impl View for AccumulateError {
    type V = ErrorView;

    open spec fn view(&self) -> ErrorView {
        match self {
            AccumulateError::MetadataUnavailable(p) => ErrorView::MetadataUnavailable(p.deep_view()),
            AccumulateError::DirectoryListingFailed(p) => ErrorView::DirectoryListingFailed(
                p.deep_view(),
            ),
            AccumulateError::DestinationCreateFailed(p) => ErrorView::DestinationCreateFailed(
                p.deep_view(),
            ),
            AccumulateError::RelocationFailed(p) => ErrorView::RelocationFailed(p.deep_view()),
            AccumulateError::SourceRemovalFailed(p) => ErrorView::SourceRemovalFailed(p.deep_view()),
        }
    }
}

pub open spec fn error_opt_view(e: Option<AccumulateError>) -> Option<ErrorView> {
    match e {
        Some(x) => Some(x@),
        None => None,
    }
}

pub open spec fn ops_view(ops: Seq<Op>) -> Seq<OpView> {
    ops.map_values(|o: Op| o@)
}

/// The operations of a pass in the order they are to be performed, and the
/// error met while planning, if any. A plan with an error still holds the
/// operations planned before it: they are performed, and the pass then ends
/// with that error.
#[derive(Clone, Debug)]
pub struct Plan {
    pub ops: Vec<Op>,
    pub error: Option<AccumulateError>,
}

pub struct PlanView {
    pub ops: Seq<OpView>,
    pub error: Option<ErrorView>,
}

impl View for Plan {
    type V = PlanView;

    open spec fn view(&self) -> PlanView {
        PlanView { ops: ops_view(self.ops@), error: error_opt_view(self.error) }
    }
}

/// The error that a failed operation ends a pass with.
pub open spec fn failure_of(op: OpView) -> ErrorView {
    match op {
        OpView::EnsureDir(p) => ErrorView::DestinationCreateFailed(p),
        OpView::Move(from, _) => ErrorView::RelocationFailed(from),
        OpView::RemoveDir(p) => ErrorView::SourceRemovalFailed(p),
    }
}

fn copy_path(p: &Vec<String>) -> (r: Vec<String>)
    ensures
        r.deep_view() == p.deep_view(),
{
    let mut r: Vec<String> = Vec::new();
    let mut i: usize = 0;
    while i < p.len()
        invariant
            i <= p@.len(),
            r@.len() == i,
            forall|j: int| 0 <= j < i ==> r@[j]@ == p@[j]@,
        decreases p@.len() - i,
    {
        r.push(p[i].clone());
        i = i + 1;
    }
    assert(r.deep_view() =~= p.deep_view());
    r
}

/// Hands out the operations of a plan in order, one at a time, and stops at
/// the first that fails. Nothing is undone.
pub struct Execution {
    ops: Vec<Op>,
    planned_error: Option<AccumulateError>,
    next: usize,
    failure: Option<AccumulateError>,
}

impl Execution {
    /// The operations of the plan.
    pub closed spec fn planned(&self) -> Seq<OpView> {
        ops_view(self.ops@)
    }

    /// The error the plan ends with, if any.
    pub closed spec fn planned_error(&self) -> Option<ErrorView> {
        error_opt_view(self.planned_error)
    }

    /// The operations performed so far, all of which succeeded.
    pub closed spec fn performed(&self) -> Seq<OpView> {
        ops_view(self.ops@).take(self.next as int)
    }

    /// The error of the operation that failed, if one did.
    pub closed spec fn failure(&self) -> Option<ErrorView> {
        error_opt_view(self.failure)
    }

    pub closed spec fn wf(&self) -> bool {
        self.next <= self.ops@.len()
    }

    /// Whether the pass has ended: an operation failed, or all were performed.
    pub open spec fn finished(&self) -> bool {
        self.failure() is Some || self.performed().len() == self.planned().len()
    }

    /// How a finished pass ends: with the failed operation's error, else with
    /// the plan's error, else with success.
    pub open spec fn outcome_of(&self) -> Result<(), ErrorView> {
        match self.failure() {
            Some(e) => Err(e),
            None => match self.planned_error() {
                Some(e) => Err(e),
                None => Ok(()),
            },
        }
    }

    pub fn new(plan: Plan) -> (r: Execution)
        ensures
            r.wf(),
            r.planned() == plan@.ops,
            r.planned_error() == plan@.error,
            r.performed() == Seq::<OpView>::empty(),
            r.failure() is None,
    {
        let r = Execution { ops: plan.ops, planned_error: plan.error, next: 0, failure: None };
        assert(r.performed() =~= Seq::<OpView>::empty());
        r
    }

    /// The next operation to perform, or `None` once the pass has ended.
    pub fn next_op(&self) -> (r: Option<&Op>)
        requires
            self.wf(),
        ensures
            r is None <==> self.finished(),
            r matches Some(o) ==> o@ == self.planned()[self.performed().len() as int],
            self.performed().len() <= self.planned().len(),
    {
        if self.failure.is_some() || self.next == self.ops.len() {
            None
        } else {
            Some(&self.ops[self.next])
        }
    }

    /// Records whether the operation handed out last succeeded. After a
    /// failure the pass has ended: nothing further is handed out, and it ends
    /// with that operation's error.
    pub fn record(&mut self, succeeded: bool)
        requires
            old(self).wf(),
            !old(self).finished(),
        ensures
            final(self).wf(),
            final(self).planned() == old(self).planned(),
            final(self).planned_error() == old(self).planned_error(),
            old(self).performed().len() < old(self).planned().len(),
            succeeded ==> final(self).failure() is None && final(self).performed() == old(
                self,
            ).performed().push(old(self).planned()[old(self).performed().len() as int]),
            !succeeded ==> final(self).performed() == old(self).performed() && final(self).failure()
                == Some(failure_of(old(self).planned()[old(self).performed().len() as int])),
            !succeeded ==> final(self).finished(),
    {
        assert(self.planned().len() == self.ops@.len());
        assert(self.performed().len() == self.next);
        let len = self.ops.len();
        assert(self.next < len);
        if succeeded {
            self.next = self.next + 1;
            assert(self.performed() =~= old(self).performed().push(
                old(self).planned()[old(self).performed().len() as int],
            ));
        } else {
            let e = match &self.ops[self.next] {
                Op::EnsureDir(p) => AccumulateError::DestinationCreateFailed(copy_path(p)),
                Op::Move(from, _) => AccumulateError::RelocationFailed(copy_path(from)),
                Op::RemoveDir(p) => AccumulateError::SourceRemovalFailed(copy_path(p)),
            };
            self.failure = Some(e);
        }
    }

    /// Whether the pass has ended.
    pub fn is_finished(&self) -> (r: bool)
        requires
            self.wf(),
        ensures
            r == self.finished(),
    {
        self.failure.is_some() || self.next == self.ops.len()
    }

    /// How the finished pass ended.
    pub fn into_outcome(self) -> (r: Result<(), AccumulateError>)
        requires
            self.wf(),
            self.finished(),
        ensures
            r matches Ok(()) ==> self.outcome_of() is Ok,
            r matches Err(e) ==> self.outcome_of() == Err::<(), ErrorView>(e@),
            self.outcome_of() is Ok ==> self.performed() == self.planned(),
    {
        match self.failure {
            Some(e) => Err(e),
            None => {
                assert(self.performed() =~= self.planned());
                match self.planned_error {
                    Some(e) => Err(e),
                    None => Ok(()),
                }
            },
        }
    }
}

} // verus!
