use bfil::code_checker::{transform_goto, Outputpointer};
use bfil::error::CompileError;
use bfil::function::FlattenedInstruction;
use bfil::optimizer::optimize_consecutive;
use bfil::producer::produce_string;

fn render_all(list: Vec<FlattenedInstruction>) -> String {
    list.into_iter().map(produce_string).collect::<String>()
}

#[test]
fn optimizer_merges_adds_and_lefts() {
    let input = vec![
        FlattenedInstruction::Add(2),
        FlattenedInstruction::Add(3),
        FlattenedInstruction::Left(1),
        FlattenedInstruction::Left(4),
    ];
    let out = optimize_consecutive(input);
    assert_eq!(
        out,
        vec![FlattenedInstruction::Add(5), FlattenedInstruction::Left(5)]
    );
}

#[test]
fn optimizer_is_idempotent_on_mixed_input() {
    let build = || {
        vec![
            FlattenedInstruction::Noop,
            FlattenedInstruction::Noop,
            FlattenedInstruction::Add(1),
            FlattenedInstruction::Add(2),
            FlattenedInstruction::Sub(3),
            FlattenedInstruction::Loop(vec![
                FlattenedInstruction::Right(1),
                FlattenedInstruction::Right(2),
                FlattenedInstruction::Left(3),
            ]),
            FlattenedInstruction::SetConst(4),
            FlattenedInstruction::SetConst(9),
            FlattenedInstruction::Print,
        ]
    };
    let once = optimize_consecutive(build());
    let twice = optimize_consecutive(optimize_consecutive(build()));
    assert_eq!(once, twice);
}

#[test]
fn optimizer_recurses_into_loop_bodies() {
    let input = vec![FlattenedInstruction::Loop(vec![
        FlattenedInstruction::Add(1),
        FlattenedInstruction::Add(2),
    ])];
    let out = optimize_consecutive(input);
    assert_eq!(
        out,
        vec![FlattenedInstruction::Loop(vec![FlattenedInstruction::Add(3)])]
    );
}

#[test]
fn optimizer_keeps_later_setconst_and_single_noop() {
    let input = vec![
        FlattenedInstruction::SetConst(1),
        FlattenedInstruction::SetConst(7),
        FlattenedInstruction::Noop,
        FlattenedInstruction::Noop,
    ];
    let out = optimize_consecutive(input);
    assert_eq!(
        out,
        vec![FlattenedInstruction::SetConst(7), FlattenedInstruction::Noop]
    );
}

#[test]
fn optimizer_keeps_later_goto() {
    let input = vec![
        FlattenedInstruction::Goto(1),
        FlattenedInstruction::Goto(4),
    ];
    let out = optimize_consecutive(input);
    assert_eq!(out, vec![FlattenedInstruction::Goto(4)]);
}

#[test]
fn goto_backward_becomes_left_and_position_is_target() {
    let input = vec![FlattenedInstruction::Right(5), FlattenedInstruction::Goto(2)];
    let (res, pos) = transform_goto(input, Outputpointer::default());
    assert_eq!(
        res.unwrap(),
        vec![FlattenedInstruction::Right(5), FlattenedInstruction::Left(3)]
    );
    assert_eq!(pos, Outputpointer::Predictable(2));
}

#[test]
fn goto_to_current_position_becomes_noop() {
    let input = vec![FlattenedInstruction::Right(5), FlattenedInstruction::Goto(5)];
    let (res, pos) = transform_goto(input, Outputpointer::default());
    assert_eq!(
        res.unwrap(),
        vec![FlattenedInstruction::Right(5), FlattenedInstruction::Noop]
    );
    assert_eq!(pos, Outputpointer::Predictable(5));
}

#[test]
fn goto_forward_from_negative_offset_becomes_right() {
    let input = vec![FlattenedInstruction::Left(3), FlattenedInstruction::Goto(0)];
    let (res, pos) = transform_goto(input, Outputpointer::default());
    assert_eq!(
        res.unwrap(),
        vec![FlattenedInstruction::Left(3), FlattenedInstruction::Right(3)]
    );
    assert_eq!(pos, Outputpointer::Predictable(0));
}

#[test]
fn goto_after_moving_loop_is_rejected() {
    let input = vec![
        FlattenedInstruction::Loop(vec![FlattenedInstruction::Right(1)]),
        FlattenedInstruction::Goto(0),
    ];
    let (res, _) = transform_goto(input, Outputpointer::default());
    assert!(matches!(res, Err(CompileError::UnresolvedJump)));
}

#[test]
fn goto_inside_loop_resolves_against_the_preloop_position() {
    let input = vec![
        FlattenedInstruction::Right(2),
        FlattenedInstruction::Loop(vec![FlattenedInstruction::Goto(2)]),
    ];
    let (res, pos) = transform_goto(input, Outputpointer::default());
    assert_eq!(
        res.unwrap(),
        vec![
            FlattenedInstruction::Right(2),
            FlattenedInstruction::Loop(vec![FlattenedInstruction::Noop]),
        ]
    );
    assert_eq!(pos, Outputpointer::Predictable(2));
}

#[test]
fn net_zero_loop_keeps_the_position_predictable() {
    let input = vec![FlattenedInstruction::Loop(vec![
        FlattenedInstruction::Right(1),
        FlattenedInstruction::Left(1),
    ])];
    let (res, pos) = transform_goto(input, Outputpointer::default());
    assert!(res.is_ok());
    assert_eq!(pos, Outputpointer::Predictable(0));
}

#[test]
fn unrepresentable_jump_distance_is_rejected() {
    let input = vec![FlattenedInstruction::Goto(usize::MAX)];
    let (res, _) = transform_goto(input, Outputpointer::Predictable(-100));
    assert!(matches!(res, Err(CompileError::JumpOutOfRange)));
}

#[test]
fn get_value_reads_only_predictable_pointers() {
    assert!(matches!(Outputpointer::Predictable(5).get_value(), Ok(5)));
    assert!(matches!(
        Outputpointer::Unpredictable.get_value(),
        Err(CompileError::UnresolvedJump)
    ));
}

#[test]
fn combine_adds_predictable_offsets_and_absorbs_unpredictability() {
    let a = Outputpointer::Predictable(2);
    let b = Outputpointer::Predictable(3);
    assert_eq!(a.combine(b), Outputpointer::Predictable(5));
    assert_eq!(
        a.combine(Outputpointer::Unpredictable),
        Outputpointer::Unpredictable
    );
}

#[test]
fn default_pointer_is_the_origin() {
    assert_eq!(Outputpointer::default(), Outputpointer::Predictable(0));
    assert_eq!(Outputpointer::from(7), Outputpointer::Predictable(7));
}

#[test]
fn producer_renders_each_instruction() {
    assert_eq!(produce_string(FlattenedInstruction::Noop), "");
    assert_eq!(produce_string(FlattenedInstruction::Print), ",");
    assert_eq!(produce_string(FlattenedInstruction::Add(3)), "+++\n");
    assert_eq!(produce_string(FlattenedInstruction::Sub(2)), "--\n");
    assert_eq!(produce_string(FlattenedInstruction::Left(2)), "<<\n");
    assert_eq!(produce_string(FlattenedInstruction::Right(1)), ">\n");
    assert_eq!(produce_string(FlattenedInstruction::SetConst(2)), "[-]++");
    assert_eq!(
        produce_string(FlattenedInstruction::Loop(vec![FlattenedInstruction::Add(1)])),
        "[+\n]"
    );
}

#[test]
fn pipeline_renders_an_optimized_goto_free_program() {
    let program = vec![
        FlattenedInstruction::Add(1),
        FlattenedInstruction::Add(1),
        FlattenedInstruction::Right(2),
        FlattenedInstruction::Goto(0),
        FlattenedInstruction::Print,
    ];
    let (res, pos) = transform_goto(program, Outputpointer::default());
    assert_eq!(pos, Outputpointer::Predictable(0));
    let text = render_all(optimize_consecutive(res.unwrap()));
    assert_eq!(text, "++\n>>\n<<\n,");
}

#[test]
fn rerunning_the_analyzer_on_the_rewritten_stream_reproduces_the_end_position() {
    let input = vec![
        FlattenedInstruction::Right(5),
        FlattenedInstruction::Goto(2),
        FlattenedInstruction::Loop(vec![
            FlattenedInstruction::Right(1),
            FlattenedInstruction::Left(1),
        ]),
    ];
    let expected = || {
        vec![
            FlattenedInstruction::Right(5),
            FlattenedInstruction::Left(3),
            FlattenedInstruction::Loop(vec![
                FlattenedInstruction::Right(1),
                FlattenedInstruction::Left(1),
            ]),
        ]
    };
    let (res, pos) = transform_goto(input, Outputpointer::default());
    let rewritten = res.unwrap();
    assert_eq!(rewritten, expected());
    assert_eq!(pos, Outputpointer::Predictable(2));
    let (res2, pos2) = transform_goto(rewritten, Outputpointer::default());
    assert_eq!(res2.unwrap(), expected());
    assert_eq!(pos2, pos);
}

#[test]
fn optimizer_declines_a_merge_that_would_overflow() {
    let input = vec![
        FlattenedInstruction::Add(usize::MAX),
        FlattenedInstruction::Add(1),
    ];
    let out = optimize_consecutive(input);
    assert_eq!(
        out,
        vec![
            FlattenedInstruction::Add(usize::MAX),
            FlattenedInstruction::Add(1),
        ]
    );
}
