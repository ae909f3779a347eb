use vstd::prelude::*;

use vstd::string::{StringExecFns, StrSliceExecFns};

use crate::code_checker::{goto_free_inst, goto_free_seq};
use crate::function::{
    flat_size, flat_view, flats_size, flats_view, lemma_flat_size_pos, lemma_flats_size_first,
    lemma_flats_view_drop_first, FlatV, FlattenedInstruction,
};

verus! {

/// `n` copies of one character.
pub open spec fn repeat_char(c: char, n: nat) -> Seq<char> {
    Seq::new(n, |i: int| c)
}

/// The target-language text of one goto-free instruction: `,` for the
/// output primitive, runs of `+ - < >` (each run followed by a newline) for
/// arithmetic and moves, the clear-cell idiom then a run of `+` for a
/// constant store, brackets around a loop's body, and nothing for a no-op.
pub open spec fn render_inst(i: FlatV) -> Seq<char>
    decreases i,
{
    match i {
        FlatV::Noop => Seq::empty(),
        FlatV::Print => seq![','],
        FlatV::Add(n) => repeat_char('+', n as nat).push('\n'),
        FlatV::Sub(n) => repeat_char('-', n as nat).push('\n'),
        FlatV::SetConst(n) => seq!['[', '-', ']'] + repeat_char('+', n as nat),
        FlatV::Goto(_) => Seq::empty(),
        FlatV::Left(n) => repeat_char('<', n as nat).push('\n'),
        FlatV::Right(n) => repeat_char('>', n as nat).push('\n'),
        FlatV::Loop(b) => seq!['['] + render_seq(b) + seq![']'],
    }
}

/// The concatenated text of a sequence of instructions, in order.
pub open spec fn render_seq(s: Seq<FlatV>) -> Seq<char>
    decreases s,
{
    if s.len() == 0 {
        Seq::empty()
    } else {
        render_inst(s.first()) + render_seq(s.drop_first())
    }
}

/// Appends `count` copies of the single character `part` to `s`.
fn append_run(s: &mut String, part: &str, count: usize)
    requires
        part@.len() == 1,
    ensures
        final(s)@ == old(s)@ + repeat_char(part@[0], count as nat),
{
    let mut i: usize = 0;
    while i < count
        invariant
            i <= count,
            part@.len() == 1,
            s@ == old(s)@ + repeat_char(part@[0], i as nat),
        decreases count - i,
    {
        s.append(part);
        i = i + 1;
        proof {
            assert(repeat_char(part@[0], i as nat) =~= repeat_char(part@[0], (i - 1) as nat).push(
                part@[0],
            ));
            assert(part@ =~= seq![part@[0]]);
            assert(s@ =~= old(s)@ + repeat_char(part@[0], i as nat));
        }
    }
    proof {
        if count == 0 {
            assert(s@ =~= old(s)@ + repeat_char(part@[0], 0));
        }
    }
}

/// The code generator for one instruction: emits the literal target-language
/// character sequence. The instruction must be goto-free; a goto reaching
/// this stage is a defect of the analyzer, not an input error.
pub fn produce_string(ist: FlattenedInstruction) -> (r: String)
    requires
        goto_free_inst(flat_view(ist)),
    ensures
        r@ == render_inst(flat_view(ist)),
    decreases flat_size(flat_view(ist)),
{
    match ist {
        FlattenedInstruction::Noop => {
            let r = String::new();
            r
        },
        FlattenedInstruction::Print => {
            let r = String::from_str(",");
            proof {
                reveal_strlit(",");
                assert(r@ =~= seq![',']);
            }
            r
        },
        FlattenedInstruction::Add(val) => {
            let mut s = String::new();
            proof {
                reveal_strlit("+");
            }
            append_run(&mut s, "+", val);
            s.append("\n");
            proof {
                reveal_strlit("\n");
                assert(s@ =~= repeat_char('+', val as nat).push('\n'));
            }
            s
        },
        FlattenedInstruction::Sub(val) => {
            let mut s = String::new();
            proof {
                reveal_strlit("-");
            }
            append_run(&mut s, "-", val);
            s.append("\n");
            proof {
                reveal_strlit("\n");
                assert(s@ =~= repeat_char('-', val as nat).push('\n'));
            }
            s
        },
        FlattenedInstruction::Left(val) => {
            let mut s = String::new();
            proof {
                reveal_strlit("<");
            }
            append_run(&mut s, "<", val);
            s.append("\n");
            proof {
                reveal_strlit("\n");
                assert(s@ =~= repeat_char('<', val as nat).push('\n'));
            }
            s
        },
        FlattenedInstruction::Right(val) => {
            let mut s = String::new();
            proof {
                reveal_strlit(">");
            }
            append_run(&mut s, ">", val);
            s.append("\n");
            proof {
                reveal_strlit("\n");
                assert(s@ =~= repeat_char('>', val as nat).push('\n'));
            }
            s
        },
        FlattenedInstruction::SetConst(val) => {
            let mut s = String::from_str("[-]");
            proof {
                reveal_strlit("[-]");
                reveal_strlit("+");
                assert(s@ =~= seq!['[', '-', ']']);
            }
            append_run(&mut s, "+", val);
            proof {
                assert(s@ =~= seq!['[', '-', ']'] + repeat_char('+', val as nat));
            }
            s
        },
        FlattenedInstruction::Goto(_) => vstd::pervasive::unreached(),
        FlattenedInstruction::Loop(inner) => {
            let ghost innerv = flats_view(inner@);
            let mut s = String::from_str("[");
            proof {
                reveal_strlit("[");
                assert(s@ =~= seq!['[']);
            }
            let mut rem = inner;
            while rem.len() > 0
                invariant
                    goto_free_seq(flats_view(rem@)),
                    flats_size(flats_view(rem@)) <= flats_size(innerv),
                    flat_size(flat_view(ist)) == 1 + flats_size(innerv),
                    s@ + render_seq(flats_view(rem@)) == seq!['['] + render_seq(innerv),
                decreases rem.len(),
            {
                let ghost suffix = flats_view(rem@);
                proof {
                    lemma_flats_view_drop_first(rem@);
                    lemma_flats_size_first(suffix);
                    lemma_flat_size_pos(suffix.first());
                }
                let x = rem.remove(0);
                proof {
                    assert(flat_view(x) == suffix.first());
                    assert(flats_view(rem@) == suffix.drop_first());
                }
                let piece = produce_string(x);
                s.append(piece.as_str());
                proof {
                    assert(render_seq(suffix) == render_inst(suffix.first()) + render_seq(
                        suffix.drop_first(),
                    ));
                    assert(s@ + render_seq(flats_view(rem@)) =~= seq!['['] + render_seq(innerv));
                }
            }
            proof {
                assert(render_seq(flats_view(rem@)) =~= Seq::<char>::empty());
                assert(s@ =~= seq!['['] + render_seq(innerv));
            }
            s.append("]");
            proof {
                reveal_strlit("]");
                assert(s@ =~= seq!['['] + render_seq(innerv) + seq![']']);
            }
            s
        },
    }
}

} // verus!
