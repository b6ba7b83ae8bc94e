//! The recursive pass: the files of each top-level sub-directory go to
//! sibling folders named `"<day> <sub-directory>"`, and the emptied
//! sub-directory is removed.
use vstd::prelude::*;
use vstd::string::StringExecFns;
use crate::folder_accumulate::{
    AccumulateError, AccumulationConfig, ErrorView, Op, OpView, Plan, PlanView, contains_name,
    ops_view,
};
use crate::folder_accumulate::organize_flat_directory::is_candidate;
use crate::utils::{CandidateEntry, entry_day, get_accumulated_date};

verus! {

/// A top-level entry, with the listing of its children taken when the
/// directory was listed (`None` for a file, or where listing it failed).
#[derive(Clone, Debug)]
pub struct TopEntry {
    pub name: String,
    pub is_dir: bool,
    pub children: Option<Vec<CandidateEntry>>,
}

/// The name of the folder that a file of sub-directory `dir` with day label
/// `day` goes to.
pub open spec fn recursive_destination(dir: Seq<char>, day: Seq<char>) -> Seq<char> {
    day + " "@ + dir
}

/// A plan under construction, with the destination folders already ensured.
pub struct RecursiveView {
    pub ops: Seq<OpView>,
    pub error: Option<ErrorView>,
    pub visited: Set<Seq<char>>,
}

/// The operations for the files of sub-directory `dir`, given the
/// destinations already ensured: each file that is not excluded is moved to
/// its destination, which is first ensured unless it already was. Stops at
/// the first file without a day label.
pub open spec fn recursive_group(
    cfg: &AccumulationConfig,
    dir: Seq<char>,
    files: Seq<CandidateEntry>,
    visited: Set<Seq<char>>,
) -> RecursiveView
    decreases files.len(),
{
    if files.len() == 0 {
        RecursiveView { ops: seq![], error: None, visited }
    } else {
        let g = recursive_group(cfg, dir, files.drop_last(), visited);
        let f = files.last();
        if g.error is Some || !is_candidate(cfg, f) {
            g
        } else {
            match entry_day(f, cfg.accumulate_type) {
                None => RecursiveView {
                    ops: g.ops,
                    error: Some(ErrorView::MetadataUnavailable(seq![dir, f.name@])),
                    visited: g.visited,
                },
                Some(day) => {
                    let dest = recursive_destination(dir, day);
                    let ensure = if g.visited.contains(dest) {
                        seq![]
                    } else {
                        seq![OpView::EnsureDir(seq![dest])]
                    };
                    RecursiveView {
                        ops: g.ops + ensure + seq![
                            OpView::Move(seq![dir, f.name@], seq![dest, f.name@]),
                        ],
                        error: None,
                        visited: g.visited.insert(dest),
                    }
                },
            }
        }
    }
}

/// The recursive plan of a listing: for each sub-directory in listing order,
/// its files' operations and then its removal; files at the top level are
/// left alone. Stops at the first error.
pub open spec fn recursive_plan(cfg: &AccumulationConfig, listing: Seq<TopEntry>) -> RecursiveView
    decreases listing.len(),
{
    if listing.len() == 0 {
        RecursiveView { ops: seq![], error: None, visited: Set::empty() }
    } else {
        let p = recursive_plan(cfg, listing.drop_last());
        let t = listing.last();
        if p.error is Some || !t.is_dir {
            p
        } else {
            match t.children {
                None => RecursiveView {
                    ops: p.ops,
                    error: Some(ErrorView::DirectoryListingFailed(seq![t.name@])),
                    visited: p.visited,
                },
                Some(files) => {
                    let g = recursive_group(cfg, t.name@, files@, p.visited);
                    if g.error is Some {
                        RecursiveView { ops: p.ops + g.ops, error: g.error, visited: g.visited }
                    } else {
                        RecursiveView {
                            ops: p.ops + g.ops + seq![OpView::RemoveDir(seq![t.name@])],
                            error: None,
                            visited: g.visited,
                        }
                    }
                },
            }
        }
    }
}

proof fn lemma_group_stops(
    cfg: &AccumulationConfig,
    dir: Seq<char>,
    files: Seq<CandidateEntry>,
    visited: Set<Seq<char>>,
    n: int,
)
    requires
        0 <= n <= files.len(),
        recursive_group(cfg, dir, files.take(n), visited).error is Some,
    ensures
        recursive_group(cfg, dir, files, visited) == recursive_group(cfg, dir, files.take(n), visited),
    decreases files.len() - n,
{
    if n < files.len() {
        assert(files.take(n + 1).drop_last() == files.take(n));
        lemma_group_stops(cfg, dir, files, visited, n + 1);
    } else {
        assert(files.take(n) == files);
    }
}

proof fn lemma_plan_stops(cfg: &AccumulationConfig, listing: Seq<TopEntry>, n: int)
    requires
        0 <= n <= listing.len(),
        recursive_plan(cfg, listing.take(n)).error is Some,
    ensures
        recursive_plan(cfg, listing) == recursive_plan(cfg, listing.take(n)),
    decreases listing.len() - n,
{
    if n < listing.len() {
        assert(listing.take(n + 1).drop_last() == listing.take(n));
        lemma_plan_stops(cfg, listing, n + 1);
    } else {
        assert(listing.take(n) == listing);
    }
}

/// Appends the operations for the files of sub-directory `dir` to `ops`, and
/// the destinations it ensures to `visited`; returns the error it stopped at.
fn plan_group(
    cfg: &AccumulationConfig,
    dir: &String,
    files: &Vec<CandidateEntry>,
    ops: &mut Vec<Op>,
    visited: &mut Vec<String>,
) -> (r: Option<AccumulateError>)
    ensures
        ({
            let g = recursive_group(cfg, dir@, files@, old(visited).deep_view().to_set());
            &&& ops_view(final(ops)@) == ops_view(old(ops)@) + g.ops
            &&& crate::folder_accumulate::error_opt_view(r) == g.error
            &&& final(visited).deep_view().to_set() == g.visited
        }),
{
    let ghost ops0 = ops_view(ops@);
    let ghost visited0 = visited.deep_view().to_set();
    let mut j: usize = 0;
    assert(ops_view(ops@) =~= ops0 + Seq::<OpView>::empty());
    while j < files.len()
        invariant
            j <= files@.len(),
            ops0 == ops_view(old(ops)@),
            visited0 == old(visited).deep_view().to_set(),
            ({
                let g = recursive_group(cfg, dir@, files@.take(j as int), visited0);
                &&& g.error is None
                &&& ops_view(ops@) == ops0 + g.ops
                &&& visited.deep_view().to_set() == g.visited
            }),
        decreases files@.len() - j,
    {
        let f = &files[j];
        let ghost g = recursive_group(cfg, dir@, files@.take(j as int), visited0);
        assert(files@.take(j + 1).drop_last() == files@.take(j as int));
        assert(files@.take(j + 1).last() == *f);
        if !f.is_dir && !contains_name(&cfg.excluded, &f.name) {
            match get_accumulated_date(f, cfg.accumulate_type) {
                None => {
                    let path = vec![dir.clone(), f.name.clone()];
                    assert(path.deep_view() =~= seq![dir@, f.name@]);
                    proof {
                        let g1 = recursive_group(cfg, dir@, files@.take(j + 1), visited0);
                        assert(is_candidate(cfg, *f));
                        assert(entry_day(*f, cfg.accumulate_type) is None);
                        assert(g1.ops == g.ops);
                        assert(g1.visited == g.visited);
                        assert(g1.error == Some(ErrorView::MetadataUnavailable(seq![dir@, f.name@])));
                        lemma_group_stops(cfg, dir@, files@, visited0, j + 1);
                        assert(files@.take(files@.len() as int) == files@);
                    }
                    let e = AccumulateError::MetadataUnavailable(path);
                    assert(e@ == ErrorView::MetadataUnavailable(seq![dir@, f.name@]));
                    return Some(e);
                },
                Some(day) => {
                    let ghost before = ops_view(ops@);
                    let mut dest = day;
                    dest.append(" ");
                    dest.append(dir.as_str());
                    assert(dest@ == recursive_destination(dir@, day@));
                    let seen = contains_name(visited, &dest);
                    let ghost ensure = if seen {
                        Seq::<OpView>::empty()
                    } else {
                        seq![OpView::EnsureDir(seq![dest@])]
                    };
                    if !seen {
                        let p = vec![dest.clone()];
                        assert(p.deep_view() =~= seq![dest@]);
                        ops.push(Op::EnsureDir(p));
                    }
                    assert(ops_view(ops@) =~= before + ensure);
                    let ghost mid = ops_view(ops@);
                    let source = vec![dir.clone(), f.name.clone()];
                    let target = vec![dest.clone(), f.name.clone()];
                    assert(source.deep_view() =~= seq![dir@, f.name@]);
                    assert(target.deep_view() =~= seq![dest@, f.name@]);
                    ops.push(Op::Move(source, target));
                    let ghost mv = OpView::Move(seq![dir@, f.name@], seq![dest@, f.name@]);
                    assert(ops_view(ops@) =~= mid + seq![mv]);
                    let ghost vs = visited.deep_view();
                    visited.push(dest);
                    assert(visited.deep_view() =~= vs.push(dest@));
                    proof {
                        vs.lemma_push_to_set_commute(dest@);
                    }
                    assert(ops0 + g.ops + ensure + seq![mv] =~= ops0 + (g.ops + ensure + seq![mv]));
                },
            }
        }
        j = j + 1;
    }
    assert(files@.take(files@.len() as int) == files@);
    None
}

/// Plans the recursive pass over a snapshot of the directory's entries.
pub fn organize_recursive_directory(cfg: &AccumulationConfig, listing: &Vec<TopEntry>) -> (r: Plan)
    ensures
        r@ == (PlanView {
            ops: recursive_plan(cfg, listing@).ops,
            error: recursive_plan(cfg, listing@).error,
        }),
{
    let mut ops: Vec<Op> = Vec::new();
    // The destinations ensured so far. A list, not a `HashSet`: vstd's set
    // specification covers only key types with its key model, which `String`
    // lacks.
    let mut visited: Vec<String> = Vec::new();
    let mut i: usize = 0;
    assert(ops_view(ops@) =~= seq![]);
    assert(visited.deep_view().to_set() =~= Set::empty());
    while i < listing.len()
        invariant
            i <= listing@.len(),
            ({
                let p = recursive_plan(cfg, listing@.take(i as int));
                &&& p.error is None
                &&& ops_view(ops@) == p.ops
                &&& visited.deep_view().to_set() == p.visited
            }),
        decreases listing@.len() - i,
    {
        let t = &listing[i];
        assert(listing@.take(i + 1).drop_last() == listing@.take(i as int));
        assert(listing@.take(i + 1).last() == *t);
        if t.is_dir {
            match &t.children {
                None => {
                    let path = vec![t.name.clone()];
                    assert(path.deep_view() =~= seq![t.name@]);
                    proof {
                        lemma_plan_stops(cfg, listing@, i + 1);
                    }
                    return Plan { ops, error: Some(AccumulateError::DirectoryListingFailed(path)) };
                },
                Some(files) => {
                    let err = plan_group(cfg, &t.name, files, &mut ops, &mut visited);
                    match err {
                        Some(e) => {
                            proof {
                                lemma_plan_stops(cfg, listing@, i + 1);
                            }
                            return Plan { ops, error: Some(e) };
                        },
                        None => {
                            let ghost before = ops_view(ops@);
                            let path = vec![t.name.clone()];
                            assert(path.deep_view() =~= seq![t.name@]);
                            ops.push(Op::RemoveDir(path));
                            assert(ops_view(ops@) =~= before + seq![
                                OpView::RemoveDir(seq![t.name@]),
                            ]);
                        },
                    }
                },
            }
        }
        i = i + 1;
    }
    assert(listing@.take(listing@.len() as int) == listing@);
    Plan { ops, error: None }
}

/// Whether each file of `files` that is not excluded is moved, at an index of
/// `ops` below `r`, from sub-directory `dir` to the sibling folder named by
/// its day label and `dir`.
pub open spec fn files_moved_before(
    cfg: &AccumulationConfig,
    ops: Seq<OpView>,
    r: int,
    dir: Seq<char>,
    files: Seq<CandidateEntry>,
) -> bool {
    forall|j: int|
        0 <= j < files.len() && is_candidate(cfg, #[trigger] files[j]) ==> entry_day(
            files[j],
            cfg.accumulate_type,
        ) is Some && exists|m: int|
            0 <= m < r && #[trigger] ops[m] == OpView::Move(
                seq![dir, files[j].name@],
                seq![
                    recursive_destination(dir, entry_day(files[j], cfg.accumulate_type)->0),
                    files[j].name@,
                ],
            )
}

proof fn lemma_group_moves(
    cfg: &AccumulationConfig,
    dir: Seq<char>,
    files: Seq<CandidateEntry>,
    visited: Set<Seq<char>>,
)
    requires
        recursive_group(cfg, dir, files, visited).error is None,
    ensures
        files_moved_before(
            cfg,
            recursive_group(cfg, dir, files, visited).ops,
            recursive_group(cfg, dir, files, visited).ops.len() as int,
            dir,
            files,
        ),
    decreases files.len(),
{
    if files.len() > 0 {
        let init = files.drop_last();
        lemma_group_moves(cfg, dir, init, visited);
        let g = recursive_group(cfg, dir, init, visited);
        let whole = recursive_group(cfg, dir, files, visited).ops;
        assert(whole.take(g.ops.len() as int) == g.ops);
        assert forall|j: int|
            0 <= j < files.len() && is_candidate(cfg, #[trigger] files[j]) implies entry_day(
                files[j],
                cfg.accumulate_type,
            ) is Some && exists|m: int|
                0 <= m < whole.len() && #[trigger] whole[m] == OpView::Move(
                    seq![dir, files[j].name@],
                    seq![
                        recursive_destination(dir, entry_day(files[j], cfg.accumulate_type)->0),
                        files[j].name@,
                    ],
                ) by {
            if j == files.len() - 1 {
                assert(whole[whole.len() - 1] == OpView::Move(
                    seq![dir, files[j].name@],
                    seq![
                        recursive_destination(dir, entry_day(files[j], cfg.accumulate_type)->0),
                        files[j].name@,
                    ],
                ));
            } else {
                assert(init[j] == files[j]);
                let mv = OpView::Move(
                    seq![dir, files[j].name@],
                    seq![
                        recursive_destination(dir, entry_day(files[j], cfg.accumulate_type)->0),
                        files[j].name@,
                    ],
                );
                let m = choose|m: int| 0 <= m < g.ops.len() && #[trigger] g.ops[m] == mv;
                assert(whole[m] == g.ops[m]);
            }
        }
    }
}

/// The plan of a shorter listing is a prefix of the plan of a longer one.
proof fn lemma_plan_prefix(cfg: &AccumulationConfig, listing: Seq<TopEntry>)
    requires
        listing.len() > 0,
    ensures
        ({
            let p = recursive_plan(cfg, listing.drop_last()).ops;
            let q = recursive_plan(cfg, listing).ops;
            p.len() <= q.len() && q.take(p.len() as int) == p
        }),
{
    let p = recursive_plan(cfg, listing.drop_last());
    let q = recursive_plan(cfg, listing).ops;
    assert(q.take(p.ops.len() as int) =~= p.ops);
}

/// Recursive cleanup: when the recursive plan of a listing has no error, each
/// top-level sub-directory was listed and is removed, after each of its files
/// that is not excluded has been moved to the sibling folder
/// `"<day> <sub-directory>"`.
pub proof fn recursive_plan_cleans_up(cfg: &AccumulationConfig, listing: Seq<TopEntry>, i: int)
    requires
        recursive_plan(cfg, listing).error is None,
        0 <= i < listing.len(),
        listing[i].is_dir,
    ensures
        listing[i].children is Some,
        exists|r: int|
            0 <= r < recursive_plan(cfg, listing).ops.len() && #[trigger] recursive_plan(
                cfg,
                listing,
            ).ops[r] == OpView::RemoveDir(seq![listing[i].name@]) && files_moved_before(
                cfg,
                recursive_plan(cfg, listing).ops,
                r,
                listing[i].name@,
                listing[i].children->0@,
            ),
    decreases listing.len(),
{
    let init = listing.drop_last();
    let p = recursive_plan(cfg, init);
    let q = recursive_plan(cfg, listing).ops;
    let t = listing[i];
    if i == listing.len() - 1 {
        let files = t.children->0@;
        let g = recursive_group(cfg, t.name@, files, p.visited);
        lemma_group_moves(cfg, t.name@, files, p.visited);
        let r = q.len() - 1;
        assert(q == p.ops + g.ops + seq![OpView::RemoveDir(seq![t.name@])]);
        assert forall|j: int|
            0 <= j < files.len() && is_candidate(cfg, #[trigger] files[j]) implies entry_day(
                files[j],
                cfg.accumulate_type,
            ) is Some && exists|m: int|
                0 <= m < r && #[trigger] q[m] == OpView::Move(
                    seq![t.name@, files[j].name@],
                    seq![
                        recursive_destination(t.name@, entry_day(files[j], cfg.accumulate_type)->0),
                        files[j].name@,
                    ],
                ) by {
            let mv = OpView::Move(
                seq![t.name@, files[j].name@],
                seq![
                    recursive_destination(t.name@, entry_day(files[j], cfg.accumulate_type)->0),
                    files[j].name@,
                ],
            );
            let m = choose|m: int| 0 <= m < g.ops.len() && #[trigger] g.ops[m] == mv;
            assert(q[p.ops.len() + m] == mv);
        }
        assert(q[r] == OpView::RemoveDir(seq![t.name@]));
    } else {
        assert(init[i] == t);
        recursive_plan_cleans_up(cfg, init, i);
        lemma_plan_prefix(cfg, listing);
        let r = choose|r: int|
            0 <= r < p.ops.len() && #[trigger] p.ops[r] == OpView::RemoveDir(seq![t.name@])
                && files_moved_before(cfg, p.ops, r, t.name@, t.children->0@);
        assert(q[r] == p.ops[r]);
        let files = t.children->0@;
        assert forall|j: int|
            0 <= j < files.len() && is_candidate(cfg, #[trigger] files[j]) implies entry_day(
                files[j],
                cfg.accumulate_type,
            ) is Some && exists|m: int|
                0 <= m < r && #[trigger] q[m] == OpView::Move(
                    seq![t.name@, files[j].name@],
                    seq![
                        recursive_destination(t.name@, entry_day(files[j], cfg.accumulate_type)->0),
                        files[j].name@,
                    ],
                ) by {
            let mv = OpView::Move(
                seq![t.name@, files[j].name@],
                seq![
                    recursive_destination(t.name@, entry_day(files[j], cfg.accumulate_type)->0),
                    files[j].name@,
                ],
            );
            let m = choose|m: int| 0 <= m < r && #[trigger] p.ops[m] == mv;
            assert(q[m] == p.ops[m]);
        }
    }
}

proof fn lemma_group_keeps_excluded(
    cfg: &AccumulationConfig,
    dir: Seq<char>,
    files: Seq<CandidateEntry>,
    visited: Set<Seq<char>>,
)
    ensures
        forall|k: int|
            0 <= k < recursive_group(cfg, dir, files, visited).ops.len() ==> (
            #[trigger] recursive_group(cfg, dir, files, visited).ops[k] matches OpView::Move(src, _)
                ==> src.len() > 0 && !crate::folder_accumulate::excluded_name(cfg, src.last())),
    decreases files.len(),
{
    if files.len() > 0 {
        lemma_group_keeps_excluded(cfg, dir, files.drop_last(), visited);
        let g = recursive_group(cfg, dir, files.drop_last(), visited);
        let whole = recursive_group(cfg, dir, files, visited).ops;
        assert forall|k: int| 0 <= k < whole.len() implies (#[trigger] whole[k] matches OpView::Move(
            src,
            _,
        ) ==> src.len() > 0 && !crate::folder_accumulate::excluded_name(cfg, src.last())) by {
            if k < g.ops.len() {
                assert(whole[k] == g.ops[k]);
            }
        }
    }
}

/// Exclusion: no move of a recursive plan takes a file whose name is
/// excluded.
pub proof fn recursive_plan_keeps_excluded(cfg: &AccumulationConfig, listing: Seq<TopEntry>)
    ensures
        forall|k: int|
            0 <= k < recursive_plan(cfg, listing).ops.len() ==> (
            #[trigger] recursive_plan(cfg, listing).ops[k] matches OpView::Move(src, _)
                ==> src.len() > 0 && !crate::folder_accumulate::excluded_name(cfg, src.last())),
    decreases listing.len(),
{
    if listing.len() > 0 {
        let init = listing.drop_last();
        recursive_plan_keeps_excluded(cfg, init);
        let p = recursive_plan(cfg, init);
        let whole = recursive_plan(cfg, listing).ops;
        let t = listing.last();
        if p.error is None && t.is_dir && t.children is Some {
            let g = recursive_group(cfg, t.name@, t.children->0@, p.visited);
            lemma_group_keeps_excluded(cfg, t.name@, t.children->0@, p.visited);
            assert forall|k: int| 0 <= k < whole.len() implies (
            #[trigger] whole[k] matches OpView::Move(src, _) ==> src.len() > 0
                && !crate::folder_accumulate::excluded_name(cfg, src.last())) by {
                if k < p.ops.len() {
                    assert(whole[k] == p.ops[k]);
                } else if k < p.ops.len() + g.ops.len() {
                    assert(whole[k] == g.ops[k - p.ops.len()]);
                }
            }
        }
    }
}

} // verus!
