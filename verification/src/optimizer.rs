use vstd::prelude::*;

use crate::function::{
    flat_size, flat_view, flats_size, flats_view, lemma_flats_view_push, FlatV,
    FlattenedInstruction,
};

verus! {

broadcast use lemma_flats_view_push;

/// A coarse classification of instructions by how the peephole optimizer may
/// treat a pair of neighbours of that kind.
#[derive(Debug, Clone, Copy, PartialEq, Eq, Structural)]
pub enum InstructionKind {
    /// Two neighbours of the same shape merge by adding their operands.
    Linear,
    /// The later of two neighbours of the same shape makes the earlier dead.
    Replaceable,
    /// No pairwise rule applies.
    Any,
}

/// The pairwise peephole rule: what a neighbouring pair `prev, cur` rewrites
/// to, or `None` when the pair stays as it is. Arithmetic merges happen only
/// when the summed operand fits in a machine word.
pub open spec fn merge(prev: FlatV, cur: FlatV) -> Option<FlatV> {
    match (prev, cur) {
        (FlatV::Add(a), FlatV::Add(b)) => if a + b <= usize::MAX {
            Some(FlatV::Add((a + b) as usize))
        } else {
            None
        },
        (FlatV::Sub(a), FlatV::Sub(b)) => if a + b <= usize::MAX {
            Some(FlatV::Sub((a + b) as usize))
        } else {
            None
        },
        (FlatV::Left(a), FlatV::Left(b)) => if a + b <= usize::MAX {
            Some(FlatV::Left((a + b) as usize))
        } else {
            None
        },
        (FlatV::Right(a), FlatV::Right(b)) => if a + b <= usize::MAX {
            Some(FlatV::Right((a + b) as usize))
        } else {
            None
        },
        (FlatV::Noop, FlatV::Noop) => Some(FlatV::Noop),
        (FlatV::Goto(_), FlatV::Goto(b)) => Some(FlatV::Goto(b)),
        (FlatV::SetConst(_), FlatV::SetConst(b)) => Some(FlatV::SetConst(b)),
        _ => None,
    }
}

/// One instruction after optimization: a loop's body is optimized
/// recursively, everything else stands.
pub open spec fn opt_inst(i: FlatV) -> FlatV
    decreases i,
{
    match i {
        FlatV::Loop(b) => FlatV::Loop(opt_seq(b)),
        _ => i,
    }
}

/// A sequence after one greedy forward pass: each instruction is compared
/// with the last one already emitted and merged when a pairwise rule applies.
pub open spec fn opt_seq(s: Seq<FlatV>) -> Seq<FlatV>
    decreases s,
{
    if s.len() == 0 {
        Seq::empty()
    } else {
        let rest = opt_seq(s.drop_last());
        let x = opt_inst(s.last());
        if rest.len() > 0 {
            match merge(rest.last(), x) {
                Some(m) => rest.drop_last().push(m),
                None => rest.push(x),
            }
        } else {
            rest.push(x)
        }
    }
}

/// An instruction whose loop bodies (if any) contain no further merging
/// opportunity.
pub open spec fn well_opt_inst(i: FlatV) -> bool
    decreases i,
{
    match i {
        FlatV::Loop(b) => well_opt_seq(b),
        _ => true,
    }
}

/// A sequence on which the optimizer has nothing left to do: no adjacent
/// pair merges, and every loop body is in the same state.
pub open spec fn well_opt_seq(s: Seq<FlatV>) -> bool
    decreases s,
{
    if s.len() == 0 {
        true
    } else {
        well_opt_seq(s.drop_last()) && well_opt_inst(s.last()) && (s.len() >= 2 ==> merge(
            s[s.len() - 2],
            s.last(),
        ) is None)
    }
}

/// Merging a mergeable neighbour into the buffer's last instruction never
/// creates a new merging opportunity with the instruction before it.
proof fn lemma_merge_stable(p: FlatV, a: FlatV, x: FlatV, m: FlatV)
    requires
        merge(p, a) is None,
        merge(a, x) == Some(m),
    ensures
        merge(p, m) is None,
{
}

proof fn lemma_well_opt_seq_push(v: Seq<FlatV>, x: FlatV)
    requires
        well_opt_seq(v),
        well_opt_inst(x),
        v.len() >= 1 ==> merge(v.last(), x) is None,
    ensures
        well_opt_seq(v.push(x)),
{
    assert(v.push(x).drop_last() =~= v);
}

proof fn lemma_opt_inst_well(i: FlatV)
    ensures
        well_opt_inst(opt_inst(i)),
    decreases i,
{
    match i {
        FlatV::Loop(b) => lemma_opt_seq_well(b),
        _ => (),
    }
}

proof fn lemma_opt_seq_well(s: Seq<FlatV>)
    ensures
        well_opt_seq(opt_seq(s)),
    decreases s,
{
    if s.len() > 0 {
        lemma_opt_seq_well(s.drop_last());
        lemma_opt_inst_well(s.last());
        let rest = opt_seq(s.drop_last());
        let x = opt_inst(s.last());
        if rest.len() > 0 {
            match merge(rest.last(), x) {
                Some(m) => {
                    assert(!(m is Loop));
                    if rest.len() >= 2 {
                        assert(merge(rest[rest.len() - 2], rest.last()) is None);
                        lemma_merge_stable(rest[rest.len() - 2], rest.last(), x, m);
                        assert(rest.drop_last().last() == rest[rest.len() - 2]);
                    }
                    lemma_well_opt_seq_push(rest.drop_last(), m);
                },
                None => {
                    lemma_well_opt_seq_push(rest, x);
                },
            }
        } else {
            lemma_well_opt_seq_push(rest, x);
        }
    }
}

proof fn lemma_opt_inst_fix(i: FlatV)
    requires
        well_opt_inst(i),
    ensures
        opt_inst(i) == i,
    decreases i,
{
    match i {
        FlatV::Loop(b) => lemma_opt_seq_fix(b),
        _ => (),
    }
}

proof fn lemma_opt_seq_fix(s: Seq<FlatV>)
    requires
        well_opt_seq(s),
    ensures
        opt_seq(s) == s,
    decreases s,
{
    if s.len() == 0 {
        assert(opt_seq(s) =~= s);
    } else {
        lemma_opt_seq_fix(s.drop_last());
        lemma_opt_inst_fix(s.last());
        assert(opt_seq(s) =~= s);
    }
}

/// The peephole optimizer is idempotent: a second pass over an already
/// optimized sequence changes nothing.
pub proof fn lemma_optimize_idempotent(s: Seq<FlatV>)
    ensures
        opt_seq(opt_seq(s)) == opt_seq(s),
{
    lemma_opt_seq_well(s);
    lemma_opt_seq_fix(opt_seq(s));
}

/// Rewrites the pair `prev, cur` when a peephole rule applies, and hands both
/// instructions back unchanged otherwise.
fn merge_pair(prev: FlattenedInstruction, cur: FlattenedInstruction) -> (r: Result<
    FlattenedInstruction,
    (FlattenedInstruction, FlattenedInstruction),
>)
    ensures
        match r {
            Ok(m) => merge(flat_view(prev), flat_view(cur)) == Some(flat_view(m)),
            Err(pair) => merge(flat_view(prev), flat_view(cur)) is None && flat_view(pair.0)
                == flat_view(prev) && flat_view(pair.1) == flat_view(cur),
        },
{
    match (prev, cur) {
        (FlattenedInstruction::Add(a), FlattenedInstruction::Add(b)) => {
            if a <= usize::MAX - b {
                Ok(FlattenedInstruction::Add(a + b))
            } else {
                Err((FlattenedInstruction::Add(a), FlattenedInstruction::Add(b)))
            }
        },
        (FlattenedInstruction::Sub(a), FlattenedInstruction::Sub(b)) => {
            if a <= usize::MAX - b {
                Ok(FlattenedInstruction::Sub(a + b))
            } else {
                Err((FlattenedInstruction::Sub(a), FlattenedInstruction::Sub(b)))
            }
        },
        (FlattenedInstruction::Left(a), FlattenedInstruction::Left(b)) => {
            if a <= usize::MAX - b {
                Ok(FlattenedInstruction::Left(a + b))
            } else {
                Err((FlattenedInstruction::Left(a), FlattenedInstruction::Left(b)))
            }
        },
        (FlattenedInstruction::Right(a), FlattenedInstruction::Right(b)) => {
            if a <= usize::MAX - b {
                Ok(FlattenedInstruction::Right(a + b))
            } else {
                Err((FlattenedInstruction::Right(a), FlattenedInstruction::Right(b)))
            }
        },
        (FlattenedInstruction::Noop, FlattenedInstruction::Noop) => Ok(FlattenedInstruction::Noop),
        (FlattenedInstruction::Goto(_), FlattenedInstruction::Goto(b)) => Ok(
            FlattenedInstruction::Goto(b),
        ),
        (FlattenedInstruction::SetConst(_), FlattenedInstruction::SetConst(b)) => Ok(
            FlattenedInstruction::SetConst(b),
        ),
        (p, c) => Err((p, c)),
    }
}

/// The peephole optimizer: merges adjacent instructions of the same kind and
/// recurses into loop bodies. Total; order-preserving for instructions that
/// do not merge.
pub fn optimize_consecutive(ist_list: Vec<FlattenedInstruction>) -> (r: Vec<FlattenedInstruction>)
    ensures
        flats_view(r@) == opt_seq(flats_view(ist_list@)),
    decreases flats_size(flats_view(ist_list@)),
{
    let ghost s = flats_view(ist_list@);
    let mut list = ist_list;
    match list.pop() {
        None => {
            assert(flats_view(list@) == opt_seq(s));
            list
        },
        Some(ist) => {
            proof {
                assert(list@ == ist_list@.drop_last());
                assert(s == flats_view(list@).push(flat_view(ist)));
                assert(s.drop_last() =~= flats_view(list@));
                assert(s.last() == flat_view(ist));
                assert(flats_size(s) == flats_size(s.drop_last()) + flat_size(s.last()));
            }
            let optimized = match ist {
                FlattenedInstruction::Loop(inner) => {
                    proof {
                        assert(flat_view(FlattenedInstruction::Loop(inner)) == FlatV::Loop(
                            flats_view(inner@),
                        ));
                        assert(flat_size(s.last()) == 1 + flats_size(flats_view(inner@)));
                    }
                    FlattenedInstruction::Loop(optimize_consecutive(inner))
                },
                other => other,
            };
            assert(flat_view(optimized) == opt_inst(s.last()));
            let mut res = optimize_consecutive(list);
            match res.pop() {
                None => {
                    res.push(optimized);
                    assert(flats_view(res@) =~= opt_seq(s));
                    res
                },
                Some(prev) => {
                    proof {
                        let rest = opt_seq(s.drop_last());
                        assert(rest == flats_view(res@).push(flat_view(prev)));
                        assert(rest.last() == flat_view(prev));
                        assert(rest.drop_last() =~= flats_view(res@));
                    }
                    match merge_pair(prev, optimized) {
                        Ok(m) => {
                            res.push(m);
                            assert(flats_view(res@) =~= opt_seq(s));
                            res
                        },
                        Err(pair) => {
                            proof {
                                let rest = opt_seq(s.drop_last());
                                assert(rest.drop_last().push(rest.last()) =~= rest);
                            }
                            res.push(pair.0);
                            res.push(pair.1);
                            assert(flats_view(res@) =~= opt_seq(s));
                            res
                        },
                    }
                },
            }
        },
    }
}

} // verus!
