//! The flat pass: every file directly in the directory goes to
//! `[<type>/]<day>/`.
use vstd::prelude::*;
use crate::folder_accumulate::{
    AccumulateError, AccumulationConfig, ErrorView, Op, OpView, Plan, PlanView, excluded_name,
    contains_name,
};
use crate::utils::{CandidateEntry, classify, entry_day, get_accumulated_date, type_label};

verus! {

/// Whether a pass moves `e`: it is a file and its name is not excluded.
pub open spec fn is_candidate(cfg: &AccumulationConfig, e: CandidateEntry) -> bool {
    !e.is_dir && !excluded_name(cfg, e.name@)
}

/// The folder, relative to the root, that a file named `name` with day label
/// `day` goes to.
pub open spec fn flat_destination(cfg: &AccumulationConfig, name: Seq<char>, day: Seq<char>) -> Seq<
    Seq<char>,
> {
    if cfg.file_type_split {
        seq![type_label(cfg.split_map@, name), day]
    } else {
        seq![day]
    }
}

/// The operations for one entry of the listing, or the error it meets.
pub open spec fn flat_entry_ops(cfg: &AccumulationConfig, e: CandidateEntry) -> Result<
    Seq<OpView>,
    ErrorView,
> {
    if !is_candidate(cfg, e) {
        Ok(seq![])
    } else {
        match entry_day(e, cfg.accumulate_type) {
            None => Err(ErrorView::MetadataUnavailable(seq![e.name@])),
            Some(day) => {
                let dir = flat_destination(cfg, e.name@, day);
                Ok(seq![OpView::EnsureDir(dir), OpView::Move(seq![e.name@], dir.push(e.name@))])
            },
        }
    }
}

/// The flat plan of a listing: the entries' operations in listing order, up
/// to the first entry that meets an error.
pub open spec fn flat_plan(cfg: &AccumulationConfig, listing: Seq<CandidateEntry>) -> PlanView
    decreases listing.len(),
{
    if listing.len() == 0 {
        PlanView { ops: seq![], error: None }
    } else {
        let p = flat_plan(cfg, listing.drop_last());
        if p.error is Some {
            p
        } else {
            match flat_entry_ops(cfg, listing.last()) {
                Ok(o) => PlanView { ops: p.ops + o, error: None },
                Err(e) => PlanView { ops: p.ops, error: Some(e) },
            }
        }
    }
}

/// Plans the flat pass over a snapshot of the directory's entries.
pub fn organize_flat_directory(cfg: &AccumulationConfig, listing: &Vec<CandidateEntry>) -> (r: Plan)
    ensures
        r@ == flat_plan(cfg, listing@),
{
    let mut ops: Vec<Op> = Vec::new();
    let mut i: usize = 0;
    assert(crate::folder_accumulate::ops_view(ops@) =~= seq![]);
    while i < listing.len()
        invariant
            i <= listing@.len(),
            flat_plan(cfg, listing@.take(i as int)) == (PlanView {
                ops: crate::folder_accumulate::ops_view(ops@),
                error: None,
            }),
        decreases listing@.len() - i,
    {
        let e = &listing[i];
        assert(listing@.take(i + 1).drop_last() == listing@.take(i as int));
        assert(listing@.take(i + 1).last() == *e);
        if !e.is_dir && !contains_name(&cfg.excluded, &e.name) {
            match get_accumulated_date(e, cfg.accumulate_type) {
                None => {
                    let path = vec![e.name.clone()];
                    assert(path.deep_view() =~= seq![e.name@]);
                    let error = AccumulateError::MetadataUnavailable(path);
                    let r = Plan { ops, error: Some(error) };
                    proof {
                        lemma_flat_plan_stops(cfg, listing@, i as int + 1);
                        assert(listing@.take(listing@.len() as int) == listing@);
                        assert(error@ == ErrorView::MetadataUnavailable(seq![e.name@]));
                    }
                    return r;
                },
                Some(day) => {
                    let ghost old_ops = ops@;
                    let (dir, target) = if cfg.file_type_split {
                        let label = classify(&cfg.split_map, &e.name);
                        (
                            vec![label.clone(), day.clone()],
                            vec![label, day, e.name.clone()],
                        )
                    } else {
                        (vec![day.clone()], vec![day, e.name.clone()])
                    };
                    let ghost dir_v = dir.deep_view();
                    assert(dir_v == flat_destination(cfg, e.name@, day@));
                    assert(target.deep_view() =~= dir_v.push(e.name@));
                    ops.push(Op::EnsureDir(dir));
                    let source = vec![e.name.clone()];
                    assert(source.deep_view() =~= seq![e.name@]);
                    ops.push(Op::Move(source, target));
                    assert(crate::folder_accumulate::ops_view(ops@) =~= crate::folder_accumulate::ops_view(old_ops) + seq![
                        OpView::EnsureDir(dir_v),
                        OpView::Move(seq![e.name@], dir_v.push(e.name@)),
                    ]);
                },
            }
        }
        i = i + 1;
    }
    assert(listing@.take(listing@.len() as int) == listing@);
    Plan { ops, error: None }
}

/// Once the plan of a prefix has an error, longer prefixes keep that plan.
proof fn lemma_flat_plan_stops(cfg: &AccumulationConfig, listing: Seq<CandidateEntry>, n: int)
    requires
        0 <= n <= listing.len(),
        flat_plan(cfg, listing.take(n)).error is Some,
    ensures
        flat_plan(cfg, listing) == flat_plan(cfg, listing.take(n)),
    decreases listing.len() - n,
{
    if n < listing.len() {
        assert(listing.take(n + 1).drop_last() == listing.take(n));
        lemma_flat_plan_stops(cfg, listing, n + 1);
    } else {
        assert(listing.take(n) == listing);
    }
}

/// Exhaustiveness: when the flat plan of a listing has no error, each file
/// of the listing whose name is not excluded has a day label, and the plan
/// moves it to `[<type>/]<day>/<name>`.
pub proof fn flat_plan_is_exhaustive(cfg: &AccumulationConfig, listing: Seq<CandidateEntry>, i: int)
    requires
        flat_plan(cfg, listing).error is None,
        0 <= i < listing.len(),
        is_candidate(cfg, listing[i]),
    ensures
        entry_day(listing[i], cfg.accumulate_type) is Some,
        flat_plan(cfg, listing).ops.contains(
            OpView::Move(
                seq![listing[i].name@],
                flat_destination(
                    cfg,
                    listing[i].name@,
                    entry_day(listing[i], cfg.accumulate_type)->0,
                ).push(listing[i].name@),
            ),
        ),
    decreases listing.len(),
{
    let p = flat_plan(cfg, listing.drop_last());
    let e = listing[i];
    if i == listing.len() - 1 {
        let day = entry_day(e, cfg.accumulate_type)->0;
        let dir = flat_destination(cfg, e.name@, day);
        let mv = OpView::Move(seq![e.name@], dir.push(e.name@));
        let whole = flat_plan(cfg, listing).ops;
        assert(whole == p.ops + seq![OpView::EnsureDir(dir), mv]);
        assert(whole[p.ops.len() as int + 1] == mv);
    } else {
        assert(listing.drop_last()[i] == e);
        flat_plan_is_exhaustive(cfg, listing.drop_last(), i);
        let day = entry_day(e, cfg.accumulate_type)->0;
        let mv = OpView::Move(seq![e.name@], flat_destination(cfg, e.name@, day).push(e.name@));
        let k = choose|k: int| 0 <= k < p.ops.len() && p.ops[k] == mv;
        let o = flat_entry_ops(cfg, listing.last())->Ok_0;
        assert(flat_plan(cfg, listing).ops == p.ops + o);
        assert(flat_plan(cfg, listing).ops[k] == mv);
    }
}

/// Exclusion: no move of a flat plan takes an entry whose name is excluded.
pub proof fn flat_plan_keeps_excluded(cfg: &AccumulationConfig, listing: Seq<CandidateEntry>)
    ensures
        forall|k: int|
            0 <= k < flat_plan(cfg, listing).ops.len() ==> (
            #[trigger] flat_plan(cfg, listing).ops[k] matches OpView::Move(src, _)
                ==> src.len() > 0 && !excluded_name(cfg, src.last())),
    decreases listing.len(),
{
    if listing.len() > 0 {
        flat_plan_keeps_excluded(cfg, listing.drop_last());
        let p = flat_plan(cfg, listing.drop_last());
        let whole = flat_plan(cfg, listing).ops;
        if p.error is None {
            if let Ok(o) = flat_entry_ops(cfg, listing.last()) {
                assert forall|k: int| 0 <= k < whole.len() implies (#[trigger] whole[k] matches OpView::Move(
                    src,
                    _,
                ) ==> src.len() > 0 && !excluded_name(cfg, src.last())) by {
                    if k >= p.ops.len() {
                        assert(whole[k] == o[k - p.ops.len()]);
                    } else {
                        assert(whole[k] == p.ops[k]);
                    }
                }
            }
        }
    }
}

/// Over a listing of directories and files with excluded names, the flat
/// plan is empty and without error.
proof fn lemma_flat_plan_of_settled(cfg: &AccumulationConfig, listing: Seq<CandidateEntry>)
    requires
        forall|k: int| 0 <= k < listing.len() ==> !is_candidate(cfg, #[trigger] listing[k]),
    ensures
        flat_plan(cfg, listing) == (PlanView { ops: seq![], error: None }),
    decreases listing.len(),
{
    if listing.len() > 0 {
        let init = listing.drop_last();
        assert forall|k: int| 0 <= k < init.len() implies !is_candidate(cfg, #[trigger] init[k]) by {
            assert(init[k] == listing[k]);
        }
        lemma_flat_plan_of_settled(cfg, init);
        assert(!is_candidate(cfg, listing[listing.len() - 1]));
        assert(Seq::<OpView>::empty() + Seq::<OpView>::empty() =~= Seq::<OpView>::empty());
    }
}

/// What a successful flat pass over `before` leaves at the top level: the
/// entries it did not move, unchanged, and the folders named by the first
/// segment of each folder it made.
pub open spec fn flat_leftover(
    cfg: &AccumulationConfig,
    before: Seq<CandidateEntry>,
    after: Seq<CandidateEntry>,
) -> bool {
    forall|k: int|
        0 <= k < after.len() ==> (exists|j: int|
            0 <= j < before.len() && before[j] == #[trigger] after[k] && !is_candidate(cfg, before[j]))
            || (after[k].is_dir && exists|m: int|
            0 <= m < flat_plan(cfg, before).ops.len() && (#[trigger] flat_plan(cfg, before).ops[m]
                matches OpView::EnsureDir(p) && p.len() > 0 && p[0] == after[k].name@))
}

/// Idempotence: a second flat pass, over what a successful first pass left at
/// the top level, plans nothing, so the tree stays as the first pass left it.
pub proof fn flat_pass_twice_is_noop(
    cfg: &AccumulationConfig,
    before: Seq<CandidateEntry>,
    after: Seq<CandidateEntry>,
)
    requires
        flat_plan(cfg, before).error is None,
        flat_leftover(cfg, before, after),
    ensures
        flat_plan(cfg, after) == (PlanView { ops: seq![], error: None }),
{
    assert forall|k: int| 0 <= k < after.len() implies !is_candidate(cfg, #[trigger] after[k]) by {
        if !after[k].is_dir {
            let j = choose|j: int|
                0 <= j < before.len() && before[j] == after[k] && !is_candidate(cfg, before[j]);
        }
    }
    lemma_flat_plan_of_settled(cfg, after);
}

} // verus!
