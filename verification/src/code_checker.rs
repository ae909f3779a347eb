use vstd::prelude::*;

use crate::error::{CompileError, ErrV};
use crate::function::{
    flat_size, flat_view, flats_size, flats_view, lemma_flat_size_pos, lemma_flats_size_first,
    lemma_flats_view_cons, lemma_flats_view_drop_first, FlatV, FlattenedInstruction,
};

verus! {

/// Abstract tape-head offset at a program point: either exactly known or
/// lost. Forms a lattice in which unpredictability is absorbing.
#[derive(PartialEq, Eq, Clone, Copy, Debug, Structural)]
pub enum Outputpointer {
    Predictable(i128),
    Unpredictable,
}

/// The band of offsets the analyzer keeps exact. A predictable offset that
/// would leave it collapses to `Unpredictable`, which is always a sound
/// (conservative) answer; the band is wide enough that every offset a goto
/// can name lies strictly inside it.
pub open spec fn in_window(p: int) -> bool {
    -(usize::MAX as int) <= p <= usize::MAX as int
}

/// A well-formed pointer: a predictable offset lies in the analyzer's band.
pub open spec fn ptr_wf(p: Outputpointer) -> bool {
    match p {
        Outputpointer::Predictable(v) => in_window(v as int),
        Outputpointer::Unpredictable => true,
    }
}

/// The lattice join used to compose displacements: predictable offsets add
/// (collapsing if the sum leaves the band); unpredictability is absorbing.
pub open spec fn join(a: Outputpointer, b: Outputpointer) -> Outputpointer {
    match (a, b) {
        (Outputpointer::Predictable(x), Outputpointer::Predictable(y)) => if in_window(
            x as int + y as int,
        ) {
            Outputpointer::Predictable((x + y) as i128)
        } else {
            Outputpointer::Unpredictable
        },
        _ => Outputpointer::Unpredictable,
    }
}

/// How one instruction moves the abstract head: moves shift a predictable
/// offset, a goto re-establishes exactly its target, a loop keeps the offset
/// only when one pass over its body provably returns to it, and everything
/// else leaves the head alone.
pub open spec fn track_inst(p: Outputpointer, i: FlatV) -> Outputpointer
    decreases i,
{
    match i {
        FlatV::Left(n) => join(p, Outputpointer::Predictable((-(n as int)) as i128)),
        FlatV::Right(n) => join(p, Outputpointer::Predictable(n as i128)),
        FlatV::Goto(t) => Outputpointer::Predictable(t as i128),
        FlatV::Loop(inner) => {
            let q = track_seq(inner, p);
            if q == p {
                p
            } else {
                Outputpointer::Unpredictable
            }
        },
        _ => p,
    }
}

/// The position tracker: folds `track_inst` over a sequence left to right.
pub open spec fn track_seq(s: Seq<FlatV>, p: Outputpointer) -> Outputpointer
    decreases s,
{
    if s.len() == 0 {
        p
    } else {
        track_seq(s.drop_first(), track_inst(p, s.first()))
    }
}

/// What the goto-elimination pass does with one instruction from abstract
/// position `p`: the rewritten instruction (or the failure), and the
/// position after it.
pub open spec fn tg_inst(i: FlatV, p: Outputpointer) -> (Result<FlatV, ErrV>, Outputpointer)
    decreases i,
{
    match i {
        FlatV::Goto(t) => match p {
            Outputpointer::Predictable(cur) => {
                if t as int == cur as int {
                    (Ok(FlatV::Noop), p)
                } else if (t as int) < cur as int {
                    if cur as int - t as int <= usize::MAX as int {
                        (
                            Ok(FlatV::Left((cur - t) as usize)),
                            Outputpointer::Predictable(t as i128),
                        )
                    } else {
                        (Err(ErrV::JumpOutOfRange), p)
                    }
                } else {
                    if t as int - cur as int <= usize::MAX as int {
                        (
                            Ok(FlatV::Right((t - cur) as usize)),
                            Outputpointer::Predictable(t as i128),
                        )
                    } else {
                        (Err(ErrV::JumpOutOfRange), p)
                    }
                }
            },
            Outputpointer::Unpredictable => (Err(ErrV::UnresolvedJump), p),
        },
        FlatV::Loop(inner) => {
            let (r, pi) = tg_seq(inner, p);
            let pafter = if pi == p {
                p
            } else {
                Outputpointer::Unpredictable
            };
            match r {
                Ok(body) => (Ok(FlatV::Loop(body)), pafter),
                Err(e) => (Err(e), pafter),
            }
        },
        _ => (Ok(i), track_inst(p, i)),
    }
}

/// The goto-elimination pass over a sequence: fail-fast left-to-right walk,
/// threading the abstract position.
pub open spec fn tg_seq(s: Seq<FlatV>, p: Outputpointer) -> (Result<Seq<FlatV>, ErrV>, Outputpointer)
    decreases s,
{
    if s.len() == 0 {
        (Ok(Seq::empty()), p)
    } else {
        let (r1, p1) = tg_inst(s.first(), p);
        match r1 {
            Err(e) => (Err(e), p1),
            Ok(f) => {
                let (r2, p2) = tg_seq(s.drop_first(), p1);
                match r2 {
                    Err(e) => (Err(e), p2),
                    Ok(rest) => (Ok(seq![f] + rest), p2),
                }
            },
        }
    }
}

/// An instruction tree that holds no goto anywhere, at any nesting depth.
pub open spec fn goto_free_inst(i: FlatV) -> bool
    decreases i,
{
    match i {
        FlatV::Goto(_) => false,
        FlatV::Loop(b) => goto_free_seq(b),
        _ => true,
    }
}

pub open spec fn goto_free_seq(s: Seq<FlatV>) -> bool
    decreases s,
{
    if s.len() == 0 {
        true
    } else {
        goto_free_inst(s.first()) && goto_free_seq(s.drop_first())
    }
}

/// A rewritten instruction the analyzer accepts holds no goto.
pub proof fn lemma_tg_inst_goto_free(i: FlatV, p: Outputpointer)
    ensures
        tg_inst(i, p).0 matches Ok(f) ==> goto_free_inst(f),
    decreases i,
{
    match i {
        FlatV::Loop(inner) => lemma_tg_seq_goto_free(inner, p),
        _ => (),
    }
}

/// A rewritten sequence the analyzer accepts holds no goto, at the top level
/// or nested.
pub proof fn lemma_tg_seq_goto_free(s: Seq<FlatV>, p: Outputpointer)
    ensures
        tg_seq(s, p).0 matches Ok(out) ==> goto_free_seq(out),
    decreases s,
{
    if s.len() > 0 {
        lemma_tg_inst_goto_free(s.first(), p);
        let (r1, p1) = tg_inst(s.first(), p);
        match r1 {
            Ok(f) => {
                lemma_tg_seq_goto_free(s.drop_first(), p1);
                match tg_seq(s.drop_first(), p1).0 {
                    Ok(rest) => {
                        assert((seq![f] + rest).first() == f);
                        assert((seq![f] + rest).drop_first() =~= rest);
                    },
                    Err(_) => (),
                }
            },
            Err(_) => (),
        }
    }
}

/// One accepted instruction: tracking its rewriting from the same position
/// lands where the analyzer says, and so does tracking the original.
pub proof fn lemma_tg_inst_track(i: FlatV, p: Outputpointer)
    ensures
        tg_inst(i, p).0 matches Ok(f) ==> track_inst(p, f) == tg_inst(i, p).1 && track_inst(p, i)
            == tg_inst(i, p).1,
    decreases i,
{
    match i {
        FlatV::Loop(inner) => lemma_tg_seq_track(inner, p),
        _ => (),
    }
}

/// Position soundness over a sequence: if the analyzer accepts it, the
/// tracker run over the rewritten (goto-free) sequence from the same start
/// position reproduces the same end position as run over the original.
pub proof fn lemma_tg_seq_track(s: Seq<FlatV>, p: Outputpointer)
    ensures
        tg_seq(s, p).0 matches Ok(out) ==> track_seq(out, p) == tg_seq(s, p).1 && track_seq(s, p)
            == tg_seq(s, p).1,
    decreases s,
{
    if s.len() > 0 {
        lemma_tg_inst_track(s.first(), p);
        let (r1, p1) = tg_inst(s.first(), p);
        match r1 {
            Ok(f) => {
                lemma_tg_seq_track(s.drop_first(), p1);
                match tg_seq(s.drop_first(), p1).0 {
                    Ok(rest) => {
                        let out = seq![f] + rest;
                        assert(out.first() == f);
                        assert(out.drop_first() =~= rest);
                    },
                    Err(_) => (),
                }
            },
            Err(_) => (),
        }
    }
}

impl Outputpointer {
    /// The exact offset of a predictable pointer; an unresolved-jump failure
    /// on an unpredictable one.
    pub fn get_value(&self) -> (r: Result<i128, CompileError>)
        ensures
            match *self {
                Outputpointer::Predictable(v) => r == Ok::<i128, CompileError>(v),
                Outputpointer::Unpredictable => r matches Err(e) && e@ == ErrV::UnresolvedJump,
            },
    {
        match self {
            Outputpointer::Predictable(val) => Ok(*val),
            Outputpointer::Unpredictable => Err(CompileError::UnresolvedJump),
        }
    }

    /// Joins two displacements in the lattice.
    pub fn combine(self, other: Self) -> (r: Self)
        requires
            ptr_wf(self),
            ptr_wf(other),
        ensures
            r == join(self, other),
            ptr_wf(r),
    {
        match (self, other) {
            (Outputpointer::Predictable(p1), Outputpointer::Predictable(p2)) => {
                let sum = p1 + p2;
                if -(usize::MAX as i128) <= sum && sum <= usize::MAX as i128 {
                    Outputpointer::Predictable(sum)
                } else {
                    Outputpointer::Unpredictable
                }
            },
            _ => Outputpointer::Unpredictable,
        }
    }
}

impl From<i128> for Outputpointer {
    fn from(t: i128) -> (r: Self) {
        Outputpointer::Predictable(t)
    }
}

impl vstd::std_specs::convert::FromSpecImpl<i128> for Outputpointer {
    open spec fn obeys_from_spec() -> bool {
        true
    }

    open spec fn from_spec(t: i128) -> Self {
        Outputpointer::Predictable(t)
    }
}

impl Default for Outputpointer {
    /// The analyzer's start state: the head provably at offset zero.
    fn default() -> (r: Self)
        ensures
            r == Outputpointer::Predictable(0),
    {
        Outputpointer::Predictable(0)
    }
}

/// The pointer-position analyzer and goto eliminator. Walks the instruction
/// sequence from `start_pos`, rewrites every goto into a relative move (or a
/// no-op), recurses into loop bodies, and returns the rewritten sequence
/// together with the abstract position after it. Fails on a goto at an
/// unpredictable position, and on a jump whose distance does not fit in a
/// machine word. The result and position are exactly those of `tg_seq` on
/// the sequence's ghost model.
pub fn transform_goto(ist_list: Vec<FlattenedInstruction>, start_pos: Outputpointer) -> (r: (
    Result<Vec<FlattenedInstruction>, CompileError>,
    Outputpointer,
))
    requires
        ptr_wf(start_pos),
    ensures
        ptr_wf(r.1),
        r.1 == tg_seq(flats_view(ist_list@), start_pos).1,
        r.0 matches Ok(v) ==> tg_seq(flats_view(ist_list@), start_pos).0 == Ok::<
            Seq<FlatV>,
            ErrV,
        >(flats_view(v@)),
        r.0 matches Err(e) ==> tg_seq(flats_view(ist_list@), start_pos).0 == Err::<
            Seq<FlatV>,
            ErrV,
        >(e@),
    decreases flats_size(flats_view(ist_list@)),
{
    let ghost s = flats_view(ist_list@);
    let mut rem = ist_list;
    if rem.len() == 0 {
        let out: Vec<FlattenedInstruction> = Vec::new();
        assert(flats_view(out@) =~= Seq::<FlatV>::empty());
        return (Ok(out), start_pos);
    }
    proof {
        lemma_flats_view_drop_first(rem@);
        lemma_flats_size_first(s);
        lemma_flat_size_pos(s.first());
    }
    let first = rem.remove(0);
    assert(rem@ =~= ist_list@.drop_first());
    assert(flat_view(first) == s.first());
    assert(flats_view(rem@) == s.drop_first());
    let (f, p1): (FlattenedInstruction, Outputpointer) = match first {
        FlattenedInstruction::Goto(t) => {
            match start_pos.get_value() {
                Err(e) => {
                    assert(tg_inst(s.first(), start_pos) == (
                        Err::<FlatV, ErrV>(ErrV::UnresolvedJump),
                        start_pos,
                    ));
                    return (Err(e), start_pos);
                },
                Ok(cur) => {
                    if t as i128 == cur {
                        (FlattenedInstruction::Noop, start_pos)
                    } else if (t as i128) < cur {
                        let d = cur - (t as i128);
                        if d <= usize::MAX as i128 {
                            (FlattenedInstruction::Left(d as usize), Outputpointer::from(t as i128))
                        } else {
                            assert(tg_inst(s.first(), start_pos) == (
                                Err::<FlatV, ErrV>(ErrV::JumpOutOfRange),
                                start_pos,
                            ));
                            return (Err(CompileError::JumpOutOfRange), start_pos);
                        }
                    } else {
                        let d = (t as i128) - cur;
                        if d <= usize::MAX as i128 {
                            (
                                FlattenedInstruction::Right(d as usize),
                                Outputpointer::from(t as i128),
                            )
                        } else {
                            assert(tg_inst(s.first(), start_pos) == (
                                Err::<FlatV, ErrV>(ErrV::JumpOutOfRange),
                                start_pos,
                            ));
                            return (Err(CompileError::JumpOutOfRange), start_pos);
                        }
                    }
                },
            }
        },
        FlattenedInstruction::Loop(inner) => {
            proof {
                assert(s.first() == FlatV::Loop(flats_view(inner@)));
                assert(flat_size(s.first()) == 1 + flats_size(flats_view(inner@)));
            }
            let (rb, pi) = transform_goto(inner, start_pos);
            let pafter = if pi == start_pos {
                start_pos
            } else {
                Outputpointer::Unpredictable
            };
            match rb {
                Err(e) => {
                    assert(tg_inst(s.first(), start_pos).0 == Err::<FlatV, ErrV>(e@));
                    assert(tg_inst(s.first(), start_pos).1 == pafter);
                    return (Err(e), pafter);
                },
                Ok(body) => (FlattenedInstruction::Loop(body), pafter),
            }
        },
        other => {
            let p = add_position_single(start_pos, &other);
            (other, p)
        },
    };
    assert(tg_inst(s.first(), start_pos) == (Ok::<FlatV, ErrV>(flat_view(f)), p1));
    let (r2, p2) = transform_goto(rem, p1);
    match r2 {
        Err(e) => (Err(e), p2),
        Ok(rest) => {
            let ghost restseq = rest@;
            let mut out = rest;
            out.insert(0, f);
            proof {
                lemma_flats_view_cons(restseq, f);
                assert(out@ == restseq.insert(0, f));
            }
            (Ok(out), p2)
        },
    }
}

/// Advances the abstract head over one non-loop instruction.
fn add_position_single(start_pos: Outputpointer, ist: &FlattenedInstruction) -> (r: Outputpointer)
    requires
        !(flat_view(*ist) is Loop),
        ptr_wf(start_pos),
    ensures
        r == track_inst(start_pos, flat_view(*ist)),
        ptr_wf(r),
{
    match ist {
        FlattenedInstruction::Left(val) => start_pos.combine(
            Outputpointer::from(-(*val as i128)),
        ),
        FlattenedInstruction::Right(val) => start_pos.combine(Outputpointer::from(*val as i128)),
        FlattenedInstruction::Goto(val) => Outputpointer::from(*val as i128),
        FlattenedInstruction::Loop(_) => vstd::pervasive::unreached(),
        _ => start_pos,
    }
}

} // verus!
