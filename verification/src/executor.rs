//! The executor's decision logic: which directories a plan needs and, for
//! each planned movement, whether to move and to where. Touching the disk
//! happens outside the library; it reports back only whether each source
//! still exists, and performs the moves this module decides. A source that
//! has vanished is skipped, never an error — re-running a finished plan
//! therefore decides no move at all.
use vstd::prelude::*;

use crate::models::{
    view_movements, view_string_seq, CabinetPlanV, FileMovement, FileMovementV, OrganizationPlan,
};
use crate::scanner::after_last_slash;

verus! {

/// One decided move: the recorded source path and the full destination
/// path.
pub struct MoveOp {
    pub from: String,
    pub to: String,
}

/// Mathematical image of a `MoveOp`.
pub struct MoveOpV {
    pub from: Seq<char>,
    pub to: Seq<char>,
}

impl View for MoveOp {
    type V = MoveOpV;

    open spec fn view(&self) -> MoveOpV {
        MoveOpV { from: self.from@, to: self.to@ }
    }
}

/// The views of a sequence of decided moves.
pub open spec fn view_move_ops(v: Seq<MoveOp>) -> Seq<MoveOpV> {
    v.map_values(|m: MoveOp| m@)
}

proof fn lemma_view_move_ops_push(prev: Seq<MoveOp>, x: MoveOp)
    ensures
        view_move_ops(prev.push(x)) =~= view_move_ops(prev).push(x@),
{
    assert forall|j: int| 0 <= j < prev.len() + 1 implies view_move_ops(prev.push(x))[j]
        == view_move_ops(prev).push(x@)[j] by {
        if j < prev.len() {
            assert(view_move_ops(prev)[j] == prev[j]@);
        }
    }
}

/// A path one level below another: the parent, a separator, the name.
pub open spec fn spec_join(base: Seq<char>, name: Seq<char>) -> Seq<char> {
    base + "/"@ + name
}

/// Join one path component below a base path.
pub fn join_path(base: &str, name: &str) -> (r: String)
    ensures
        r@ == spec_join(base@, name@),
{
    let mut out: String = base.to_owned();
    out.append("/");
    out.append(name);
    proof {
        assert(out@ =~= base@ + "/"@ + name@);
    }
    out
}

/// The directories a plan needs: each cabinet's directory followed by the
/// directories of its shelves, cabinet by cabinet.
pub open spec fn spec_directories(base: Seq<char>, cabs: Seq<CabinetPlanV>) -> Seq<Seq<char>>
    decreases cabs.len(),
{
    if cabs.len() == 0 {
        Seq::empty()
    } else {
        spec_directories(base, cabs.drop_last()) + seq![spec_join(base, cabs.last().name)]
            + cabs.last().shelves.map_values(
            |sh: crate::models::ShelfPlanV| spec_join(spec_join(base, cabs.last().name), sh.name),
        )
    }
}

/// The destination file name of one movement: the suggested rename if one
/// was recorded, the source's own file name otherwise.
pub open spec fn spec_final_name(m: FileMovementV) -> Seq<char> {
    match m.new_name {
        Some(n) => n,
        None => after_last_slash(m.from),
    }
}

/// The full destination path of one movement:
/// `base/cabinet/shelf/final-name`.
pub open spec fn spec_destination(base: Seq<char>, m: FileMovementV) -> Seq<char> {
    spec_join(spec_join(spec_join(base, m.to_cabinet), m.to_shelf), spec_final_name(m))
}

/// Compute the full destination path of one movement.
pub fn destination_path(base: &str, m: &FileMovement) -> (r: String)
    ensures
        r@ == spec_destination(base@, m@),
{
    let dir = join_path(join_path(base, m.to_cabinet.as_str()).as_str(), m.to_shelf.as_str());
    let name = match m.new_name {
        Some(ref n) => n.clone(),
        None => crate::scanner::file_name_of(m.from.as_str()),
    };
    join_path(dir.as_str(), name.as_str())
}

/// Decide one movement: a move to its destination when the source still
/// exists, nothing at all when it has vanished.
pub fn movement_action(base: &str, m: &FileMovement, source_exists: bool) -> (r: Option<MoveOp>)
    ensures
        match r {
            Some(op) => source_exists && op.from@ == m@.from && op.to@ == spec_destination(
                base@,
                m@,
            ),
            None => !source_exists,
        },
{
    if source_exists {
        Some(MoveOp { from: m.from.clone(), to: destination_path(base, m) })
    } else {
        None
    }
}

/// The moves a plan decides, given which sources still exist: one per
/// movement whose source is present, in plan order.
pub open spec fn spec_actions(
    base: Seq<char>,
    movements: Seq<FileMovementV>,
    exists_flags: Seq<bool>,
) -> Seq<MoveOpV>
    decreases movements.len(),
{
    if movements.len() == 0 {
        Seq::empty()
    } else {
        spec_actions(base, movements.drop_last(), exists_flags.drop_last()) + if exists_flags[
            movements.len() - 1] {
            seq![
                MoveOpV {
                    from: movements.last().from,
                    to: spec_destination(base, movements.last()),
                },
            ]
        } else {
            Seq::empty()
        }
    }
}

/// Decide every movement of a plan. `source_exists` reports, movement by
/// movement, whether the recorded source path is still on disk.
pub fn plan_actions(base: &str, plan: &OrganizationPlan, source_exists: &Vec<bool>) -> (r: Vec<
    MoveOp,
>)
    requires
        source_exists@.len() == plan.movements@.len(),
    ensures
        view_move_ops(r@) =~= spec_actions(base@, view_movements(plan.movements@), source_exists@),
{
    let ghost movementsv = view_movements(plan.movements@);
    let ghost flags = source_exists@;
    let n = plan.movements.len();
    let mut out: Vec<MoveOp> = Vec::new();
    proof {
        assert(view_move_ops(out@) =~= spec_actions(
            base@,
            movementsv.subrange(0, 0),
            flags.subrange(0, 0),
        ));
    }
    for i in 0..n
        invariant
            n == plan.movements@.len(),
            flags == source_exists@,
            flags.len() == n,
            movementsv == view_movements(plan.movements@),
            movementsv.len() == n,
            view_move_ops(out@) =~= spec_actions(
                base@,
                movementsv.subrange(0, i as int),
                flags.subrange(0, i as int),
            ),
    {
        let ghost prev = out@;
        proof {
            assert(movementsv[i as int] == plan.movements@[i as int]@);
            assert(movementsv.subrange(0, i as int + 1).drop_last() =~= movementsv.subrange(
                0,
                i as int,
            ));
            assert(flags.subrange(0, i as int + 1).drop_last() =~= flags.subrange(0, i as int));
            assert(movementsv.subrange(0, i as int + 1).last() == movementsv[i as int]);
        }
        match movement_action(base, &plan.movements[i], source_exists[i]) {
            Some(op) => {
                let ghost opg = op;
                out.push(op);
                proof {
                    assert(out@ == prev.push(opg));
                    lemma_view_move_ops_push(prev, opg);
                }
            },
            None => {},
        }
        proof {
            assert(view_move_ops(out@) =~= spec_actions(
                base@,
                movementsv.subrange(0, i as int + 1),
                flags.subrange(0, i as int + 1),
            ));
        }
    }
    proof {
        assert(movementsv.subrange(0, n as int) =~= movementsv);
        assert(flags.subrange(0, n as int) =~= flags);
    }
    out
}

/// Idempotent execution: when every movement's source is already gone —
/// as after a completed run — the plan decides no move at all.
pub proof fn lemma_executor_idempotent(
    base: Seq<char>,
    movements: Seq<FileMovementV>,
    exists_flags: Seq<bool>,
)
    requires
        exists_flags.len() == movements.len(),
        forall|i: int| 0 <= i < exists_flags.len() ==> !exists_flags[i],
    ensures
        spec_actions(base, movements, exists_flags).len() == 0,
    decreases movements.len(),
{
    if movements.len() > 0 {
        lemma_executor_idempotent(base, movements.drop_last(), exists_flags.drop_last());
    }
}

/// List every directory the plan needs, cabinets first within each entry:
/// `base/cabinet`, then `base/cabinet/shelf` for each of its shelves.
pub fn directory_paths(base: &str, plan: &OrganizationPlan) -> (r: Vec<String>)
    ensures
        view_string_seq(r@) =~= spec_directories(
            base@,
            crate::models::view_cabinet_plans(plan.cabinets@),
        ),
{
    let ghost cabsv = crate::models::view_cabinet_plans(plan.cabinets@);
    let n = plan.cabinets.len();
    let mut out: Vec<String> = Vec::new();
    proof {
        assert(view_string_seq(out@) =~= spec_directories(base@, cabsv.subrange(0, 0)));
    }
    for i in 0..n
        invariant
            n == plan.cabinets@.len(),
            cabsv == crate::models::view_cabinet_plans(plan.cabinets@),
            cabsv.len() == n,
            view_string_seq(out@) =~= spec_directories(base@, cabsv.subrange(0, i as int)),
    {
        proof {
            assert(cabsv[i as int] == plan.cabinets@[i as int]@);
            assert(cabsv.subrange(0, i as int + 1).drop_last() =~= cabsv.subrange(0, i as int));
            assert(cabsv.subrange(0, i as int + 1).last() == cabsv[i as int]);
        }
        let cabinet = &plan.cabinets[i];
        let cabinet_dir = join_path(base, cabinet.name.as_str());
        let ghost shelf_target = cabsv[i as int].shelves.map_values(
            |sh: crate::models::ShelfPlanV|
                spec_join(spec_join(base@, cabsv[i as int].name), sh.name),
        );
        let ghost prev = out@;
        let ghost cd = cabinet_dir@;
        out.push(cabinet_dir.clone());
        proof {
            assert(out@ == prev.push(cabinet_dir));
            crate::models::lemma_view_string_seq_push(prev, cabinet_dir);
        }
        let sn = cabinet.shelves.len();
        for k in 0..sn
            invariant
                *cabinet == plan.cabinets@[i as int],
                i < plan.cabinets@.len(),
                sn == cabinet.shelves@.len(),
                cd == cabinet_dir@,
                cabinet_dir@ == spec_join(base@, cabsv[i as int].name),
                cabsv[i as int] == plan.cabinets@[i as int]@,
                cabsv[i as int].shelves.len() == sn,
                shelf_target == cabsv[i as int].shelves.map_values(
                    |sh: crate::models::ShelfPlanV|
                        spec_join(spec_join(base@, cabsv[i as int].name), sh.name),
                ),
                view_string_seq(out@) =~= view_string_seq(prev.push(cabinet_dir))
                    + shelf_target.subrange(0, k as int),
        {
            let ghost prev2 = out@;
            let shelf_dir = join_path(cabinet_dir.as_str(), cabinet.shelves[k].name.as_str());
            let ghost sd = shelf_dir;
            out.push(shelf_dir);
            proof {
                assert(out@ == prev2.push(sd));
                crate::models::lemma_view_string_seq_push(prev2, sd);
                assert(cabsv[i as int].shelves == crate::models::view_shelf_plans(
                    cabinet.shelves@,
                ));
                assert(crate::models::view_shelf_plans(cabinet.shelves@)[k as int]
                    == cabinet.shelves@[k as int]@);
                assert(cabsv[i as int].shelves[k as int] == cabinet.shelves@[k as int]@);
                assert(shelf_target[k as int] == sd@);
                assert(view_string_seq(out@) =~= view_string_seq(prev.push(cabinet_dir))
                    + shelf_target.subrange(0, k as int + 1));
            }
        }
        proof {
            assert(shelf_target.subrange(0, sn as int) =~= shelf_target);
            assert(view_string_seq(out@) =~= spec_directories(
                base@,
                cabsv.subrange(0, i as int + 1),
            ));
        }
    }
    proof {
        assert(cabsv.subrange(0, n as int) =~= cabsv);
    }
    out
}

} // verus!
