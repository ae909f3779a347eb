use vstd::prelude::*;

use crate::code_checker::{
    goto_free_inst, goto_free_seq, lemma_tg_seq_goto_free, lemma_tg_seq_track, tg_seq, track_inst,
    track_seq, Outputpointer,
};
use crate::error::ErrV;
use crate::function::FlatV;

verus! {

/// A witness of one concrete execution: what each instruction did. A
/// primitive leaves one mark; a loop records its passes, each of which is a
/// trace of the loop's body — one trace per body instruction, in order.
pub enum TraceV {
    Prim,
    Passes(Seq<Seq<TraceV>>),
}

/// The trace `t` describes a possible execution of the goto-free
/// instruction `i`: a loop may run any number of recorded passes, each a
/// well-formed trace of its body.
pub open spec fn wf_trace_inst(i: FlatV, t: TraceV) -> bool
    decreases t,
{
    match i {
        FlatV::Loop(b) => match t {
            TraceV::Passes(passes) => wf_trace_passes(b, passes),
            TraceV::Prim => false,
        },
        FlatV::Goto(_) => false,
        _ => t == TraceV::Prim,
    }
}

pub open spec fn wf_trace_passes(b: Seq<FlatV>, passes: Seq<Seq<TraceV>>) -> bool
    decreases passes,
{
    if passes.len() == 0 {
        true
    } else {
        wf_trace_seq(b, passes.first()) && wf_trace_passes(b, passes.drop_first())
    }
}

pub open spec fn wf_trace_seq(s: Seq<FlatV>, ts: Seq<TraceV>) -> bool
    decreases ts,
{
    s.len() == ts.len() && (ts.len() == 0 || (wf_trace_inst(s.first(), ts.first())
        && wf_trace_seq(s.drop_first(), ts.drop_first())))
}

/// The tape-head displacement of the execution described by a trace. With
/// the trace fixed, execution is deterministic: primitives move by their
/// operand, and a loop moves by the sum of its recorded passes.
pub open spec fn disp_inst(i: FlatV, t: TraceV) -> int
    decreases t,
{
    match i {
        FlatV::Left(n) => -(n as int),
        FlatV::Right(n) => n as int,
        FlatV::Loop(b) => match t {
            TraceV::Passes(passes) => disp_passes(b, passes),
            TraceV::Prim => 0,
        },
        _ => 0,
    }
}

pub open spec fn disp_passes(b: Seq<FlatV>, passes: Seq<Seq<TraceV>>) -> int
    decreases passes,
{
    if passes.len() == 0 {
        0
    } else {
        disp_seq(b, passes.first()) + disp_passes(b, passes.drop_first())
    }
}

pub open spec fn disp_seq(s: Seq<FlatV>, ts: Seq<TraceV>) -> int
    decreases ts,
{
    if ts.len() == 0 {
        0
    } else {
        disp_inst(s.first(), ts.first()) + disp_seq(s.drop_first(), ts.drop_first())
    }
}

/// On a goto-free sequence, unpredictability is absorbing: no instruction
/// re-establishes a known position.
pub proof fn lemma_track_unpred_inst(i: FlatV)
    requires
        goto_free_inst(i),
    ensures
        track_inst(Outputpointer::Unpredictable, i) == Outputpointer::Unpredictable,
    decreases i,
{
    match i {
        FlatV::Loop(b) => lemma_track_unpred_seq(b),
        _ => (),
    }
}

pub proof fn lemma_track_unpred_seq(s: Seq<FlatV>)
    requires
        goto_free_seq(s),
    ensures
        track_seq(s, Outputpointer::Unpredictable) == Outputpointer::Unpredictable,
    decreases s,
{
    if s.len() > 0 {
        lemma_track_unpred_inst(s.first());
        lemma_track_unpred_seq(s.drop_first());
    }
}

/// On a goto-free instruction the position tracker is exact: when it keeps
/// the position predictable, every execution displaces the head by exactly
/// the tracked delta, from any start.
pub proof fn lemma_disp_tracked_inst(i: FlatV, t: TraceV, a: i128, b: i128)
    requires
        goto_free_inst(i),
        wf_trace_inst(i, t),
        track_inst(Outputpointer::Predictable(a), i) == Outputpointer::Predictable(b),
    ensures
        disp_inst(i, t) == b as int - a as int,
    decreases t,
{
    match i {
        FlatV::Loop(body) => {
            match t {
                TraceV::Passes(passes) => {
                    if track_seq(body, Outputpointer::Predictable(a))
                        != Outputpointer::Predictable(a) {
                        assert(track_inst(Outputpointer::Predictable(a), i)
                            == Outputpointer::Unpredictable);
                        assert(false);
                    }
                    lemma_disp_tracked_passes(body, passes, a);
                },
                TraceV::Prim => (),
            }
        },
        _ => (),
    }
}

/// Every pass over a net-zero loop body displaces nothing, so any number of
/// passes displaces nothing.
pub proof fn lemma_disp_tracked_passes(b: Seq<FlatV>, passes: Seq<Seq<TraceV>>, a: i128)
    requires
        goto_free_seq(b),
        wf_trace_passes(b, passes),
        track_seq(b, Outputpointer::Predictable(a)) == Outputpointer::Predictable(a),
    ensures
        disp_passes(b, passes) == 0,
    decreases passes,
{
    if passes.len() > 0 {
        lemma_disp_tracked_seq(b, passes.first(), a, a);
        lemma_disp_tracked_passes(b, passes.drop_first(), a);
    }
}

/// Position soundness of the tracker against execution, over a sequence.
pub proof fn lemma_disp_tracked_seq(s: Seq<FlatV>, ts: Seq<TraceV>, a: i128, b: i128)
    requires
        goto_free_seq(s),
        wf_trace_seq(s, ts),
        track_seq(s, Outputpointer::Predictable(a)) == Outputpointer::Predictable(b),
    ensures
        disp_seq(s, ts) == b as int - a as int,
    decreases ts,
{
    if ts.len() == 0 {
    } else {
        let mid = track_inst(Outputpointer::Predictable(a), s.first());
        match mid {
            Outputpointer::Unpredictable => {
                lemma_track_unpred_seq(s.drop_first());
                assert(false);
            },
            Outputpointer::Predictable(c) => {
                lemma_disp_tracked_inst(s.first(), ts.first(), a, c);
                lemma_disp_tracked_seq(s.drop_first(), ts.drop_first(), c, b);
            },
        }
    }
}

/// Loop net-zero invariant: for a loop body on which the analyzer reports a
/// predictable exit position equal to the entry position, executing the
/// rewritten (goto-free) body any number of times — zero included, and
/// whatever each pass did inside nested loops — moves the tape head by
/// nothing, so the head returns to its starting offset.
pub proof fn lemma_loop_net_zero(
    body: Seq<FlatV>,
    x: i128,
    out: Seq<FlatV>,
    passes: Seq<Seq<TraceV>>,
)
    requires
        tg_seq(body, Outputpointer::Predictable(x)).0 == Ok::<Seq<FlatV>, ErrV>(out),
        tg_seq(body, Outputpointer::Predictable(x)).1 == Outputpointer::Predictable(x),
        wf_trace_passes(out, passes),
    ensures
        disp_passes(out, passes) == 0,
{
    lemma_tg_seq_goto_free(body, Outputpointer::Predictable(x));
    lemma_tg_seq_track(body, Outputpointer::Predictable(x));
    lemma_disp_tracked_passes(out, passes, x);
}

} // verus!
