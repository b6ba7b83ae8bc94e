//! Prepending the day label to the names of a directory's entries.
use vstd::prelude::*;
use vstd::string::StringExecFns;
use crate::folder_accumulate::{
    AccumulateError, ErrorView, Op, OpView, Plan, PlanView, contains_name, ops_view,
};
use crate::utils::{AccumulateType, CandidateEntry, entry_day, get_accumulated_date};

verus! {

/// Which entries are renamed.
#[derive(Clone, Copy, Debug, PartialEq, Eq, Structural)]
pub enum Target {
    Files,
    Directories,
    All,
}

/// What the renaming pass reads.
pub struct PrependConfig {
    pub target: Target,
    pub accumulate_type: AccumulateType,
    pub excluded: Vec<String>,
}

pub open spec fn is_target(target: Target, e: CandidateEntry) -> bool {
    match target {
        Target::Files => !e.is_dir,
        Target::Directories => e.is_dir,
        Target::All => true,
    }
}

/// The new name of an entry named `name` with day label `day`.
pub open spec fn prepended_name(day: Seq<char>, name: Seq<char>) -> Seq<char> {
    day + " - "@ + name
}

/// The renaming plan of a listing, given the names this pass has already
/// produced: each targeted entry whose name is neither excluded nor one of
/// those names is renamed in place. Stops at the first entry without a day
/// label.
pub open spec fn prepend_plan(cfg: &PrependConfig, listing: Seq<CandidateEntry>) -> (
    PlanView,
    Set<Seq<char>>,
)
    decreases listing.len(),
{
    if listing.len() == 0 {
        (PlanView { ops: seq![], error: None }, Set::empty())
    } else {
        let (p, produced) = prepend_plan(cfg, listing.drop_last());
        let e = listing.last();
        if p.error is Some || !is_target(cfg.target, e) || cfg.excluded.deep_view().contains(e.name@)
            || produced.contains(e.name@) {
            (p, produced)
        } else {
            match entry_day(e, cfg.accumulate_type) {
                None => (
                    PlanView {
                        ops: p.ops,
                        error: Some(ErrorView::MetadataUnavailable(seq![e.name@])),
                    },
                    produced,
                ),
                Some(day) => {
                    let new_name = prepended_name(day, e.name@);
                    (
                        PlanView {
                            ops: p.ops + seq![OpView::Move(seq![e.name@], seq![new_name])],
                            error: None,
                        },
                        produced.insert(new_name),
                    )
                },
            }
        }
    }
}

proof fn lemma_prepend_stops(cfg: &PrependConfig, listing: Seq<CandidateEntry>, n: int)
    requires
        0 <= n <= listing.len(),
        prepend_plan(cfg, listing.take(n)).0.error is Some,
    ensures
        prepend_plan(cfg, listing) == prepend_plan(cfg, listing.take(n)),
    decreases listing.len() - n,
{
    if n < listing.len() {
        assert(listing.take(n + 1).drop_last() == listing.take(n));
        lemma_prepend_stops(cfg, listing, n + 1);
    } else {
        assert(listing.take(n) == listing);
    }
}

/// Plans the renaming pass over a snapshot of the directory's entries.
pub fn plan_prepend_date(cfg: &PrependConfig, listing: &Vec<CandidateEntry>) -> (r: Plan)
    ensures
        r@ == prepend_plan(cfg, listing@).0,
{
    let mut ops: Vec<Op> = Vec::new();
    // The names produced so far. A list, not a `HashSet`: vstd's set
    // specification covers only key types with its key model, which `String`
    // lacks.
    let mut produced: Vec<String> = Vec::new();
    let mut i: usize = 0;
    assert(ops_view(ops@) =~= seq![]);
    assert(produced.deep_view().to_set() =~= Set::empty());
    while i < listing.len()
        invariant
            i <= listing@.len(),
            ({
                let (p, names) = prepend_plan(cfg, listing@.take(i as int));
                &&& p.error is None
                &&& ops_view(ops@) == p.ops
                &&& produced.deep_view().to_set() == names
            }),
        decreases listing@.len() - i,
    {
        let e = &listing[i];
        assert(listing@.take(i + 1).drop_last() == listing@.take(i as int));
        assert(listing@.take(i + 1).last() == *e);
        let targeted = match cfg.target {
            Target::Files => !e.is_dir,
            Target::Directories => e.is_dir,
            Target::All => true,
        };
        if targeted && !contains_name(&cfg.excluded, &e.name) && !contains_name(&produced, &e.name) {
            match get_accumulated_date(e, cfg.accumulate_type) {
                None => {
                    let path = vec![e.name.clone()];
                    assert(path.deep_view() =~= seq![e.name@]);
                    let error = AccumulateError::MetadataUnavailable(path);
                    assert(error@ == ErrorView::MetadataUnavailable(seq![e.name@]));
                    proof {
                        lemma_prepend_stops(cfg, listing@, i + 1);
                    }
                    return Plan { ops, error: Some(error) };
                },
                Some(day) => {
                    let ghost before = ops_view(ops@);
                    let mut new_name = day;
                    new_name.append(" - ");
                    new_name.append(e.name.as_str());
                    assert(new_name@ == prepended_name(day@, e.name@));
                    let source = vec![e.name.clone()];
                    let target = vec![new_name.clone()];
                    assert(source.deep_view() =~= seq![e.name@]);
                    assert(target.deep_view() =~= seq![new_name@]);
                    ops.push(Op::Move(source, target));
                    assert(ops_view(ops@) =~= before + seq![
                        OpView::Move(seq![e.name@], seq![new_name@]),
                    ]);
                    let ghost names = produced.deep_view();
                    produced.push(new_name);
                    assert(produced.deep_view() =~= names.push(new_name@));
                    proof {
                        names.lemma_push_to_set_commute(new_name@);
                    }
                },
            }
        }
        i = i + 1;
    }
    assert(listing@.take(listing@.len() as int) == listing@);
    Plan { ops, error: None }
}

} // verus!
