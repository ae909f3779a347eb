use bfil::error::CompileError;
use bfil::function::{produce_mapping, replace_function, substitute, FlattenedInstruction, FnSignature};
use bfil::instruction::Instruction;
use bfil::names::NameSet;
use bfil::optimizer::InstructionKind;
use bfil::variable::Variable;

fn sig(params: &[&str]) -> FnSignature {
    FnSignature::from(params.iter().map(|p| p.to_string()).collect::<Vec<String>>())
}

#[test]
fn variable_accessors_work() {
    let c = Variable::Constant(7);
    assert_eq!(c.unwrap_value(), 7);
    let n = Variable::Named("x".to_string());
    assert_eq!(n.copy(), n);
    assert_eq!(c.copy(), c);
}

#[test]
fn substitution_resolves_names_and_keeps_constants() {
    let mapping = sig(&["x"]).produce_args_mapping(vec![Variable::Constant(4)]);
    let named = Variable::Named("x".to_string());
    assert_eq!(named.try_substitute(&mapping).unwrap(), Variable::Constant(4));
    let constant = Variable::Constant(9);
    assert_eq!(constant.try_substitute(&mapping).unwrap(), Variable::Constant(9));
}

#[test]
fn substitution_rejects_an_unbound_name() {
    let mapping = sig(&["x"]).produce_args_mapping(vec![Variable::Constant(4)]);
    let other = Variable::Named("y".to_string());
    match other.try_substitute(&mapping) {
        Err(CompileError::UnboundVariable(name)) => assert_eq!(name, "y"),
        r => panic!("expected an unbound-variable error, got {:?}", r),
    }
}

#[test]
fn args_mapping_zips_to_the_shorter_list() {
    let mapping = sig(&["a", "b"]).produce_args_mapping(vec![Variable::Constant(1)]);
    let bound = Variable::Named("a".to_string());
    assert_eq!(bound.try_substitute(&mapping).unwrap(), Variable::Constant(1));
    let unbound = Variable::Named("b".to_string());
    assert!(matches!(
        unbound.try_substitute(&mapping),
        Err(CompileError::UnboundVariable(_))
    ));
}

#[test]
fn substitute_walks_loops_and_call_arguments() {
    let mapping = sig(&["x"]).produce_args_mapping(vec![Variable::Constant(4)]);
    let body = vec![
        Instruction::Add(Variable::Named("x".to_string())),
        Instruction::Loop(vec![Instruction::Left(Variable::Named("x".to_string()))]),
        Instruction::FnCall("helper".to_string(), vec![Variable::Named("x".to_string())]),
    ];
    let out = substitute(&body, &mapping).unwrap();
    assert!(matches!(&out[0], Instruction::Add(Variable::Constant(4))));
    match &out[1] {
        Instruction::Loop(inner) => {
            assert!(matches!(&inner[0], Instruction::Left(Variable::Constant(4))))
        }
        other => panic!("expected a loop, got {:?}", other),
    }
    match &out[2] {
        Instruction::FnCall(name, args) => {
            assert_eq!(name, "helper");
            assert_eq!(args, &vec![Variable::Constant(4)]);
        }
        other => panic!("expected a call, got {:?}", other),
    }
}

#[test]
fn produce_mapping_partitions_and_keeps_order() {
    let input = vec![
        Instruction::Print,
        Instruction::Fn("f".to_string(), sig(&[]), vec![Instruction::Noop]),
        Instruction::Reset,
    ];
    let namespace = NameSet::new().insert_clone(&"f".to_string());
    let (rem, table) = produce_mapping(input, namespace).unwrap();
    assert!(matches!(rem[0], Instruction::Print));
    assert!(matches!(rem[1], Instruction::Reset));
    assert_eq!(rem.len(), 2);
    assert!(table.get(&"f".to_string()).is_some());
    assert!(table.get(&"g".to_string()).is_none());
}

#[test]
fn undeclared_top_level_call_is_rejected() {
    let input = vec![Instruction::FnCall("mystery".to_string(), vec![])];
    match produce_mapping(input, NameSet::new()) {
        Err(CompileError::UndeclaredFunction(name)) => assert_eq!(name, "mystery"),
        Err(e) => panic!("expected an undeclared-function error, got {:?}", e),
        Ok(_) => panic!("expected an undeclared-function error, got a table"),
    }
}

#[test]
fn the_last_undeclared_call_is_the_one_reported() {
    let input = vec![
        Instruction::FnCall("first_missing".to_string(), vec![]),
        Instruction::FnCall("second_missing".to_string(), vec![]),
    ];
    match produce_mapping(input, NameSet::new()) {
        Err(CompileError::UndeclaredFunction(name)) => assert_eq!(name, "second_missing"),
        Err(e) => panic!("expected an undeclared-function error, got {:?}", e),
        Ok(_) => panic!("expected an undeclared-function error, got a table"),
    }
}

fn build_table(decls: Vec<Instruction>) -> bfil::function::FnTable {
    let mut namespace = NameSet::new();
    for d in &decls {
        if let Instruction::Fn(name, _, _) = d {
            namespace = namespace.insert_clone(name);
        }
    }
    let (_, table) = produce_mapping(decls, namespace).unwrap();
    table
}

#[test]
fn inliner_expands_a_call_with_its_arguments() {
    let table = build_table(vec![Instruction::Fn(
        "f".to_string(),
        sig(&["x"]),
        vec![
            Instruction::Add(Variable::Named("x".to_string())),
            Instruction::Right(Variable::Constant(2)),
        ],
    )]);
    let program = vec![Instruction::FnCall(
        "f".to_string(),
        vec![Variable::Constant(3)],
    )];
    let out = replace_function(&program, &table, &NameSet::new()).unwrap();
    assert_eq!(
        out,
        vec![FlattenedInstruction::Add(3), FlattenedInstruction::Right(2)]
    );
}

#[test]
fn inliner_expands_calls_nested_in_loops() {
    let table = build_table(vec![Instruction::Fn(
        "f".to_string(),
        sig(&["x"]),
        vec![Instruction::Sub(Variable::Named("x".to_string()))],
    )]);
    let program = vec![Instruction::Loop(vec![Instruction::FnCall(
        "f".to_string(),
        vec![Variable::Constant(1)],
    )])];
    let out = replace_function(&program, &table, &NameSet::new()).unwrap();
    assert_eq!(
        out,
        vec![FlattenedInstruction::Loop(vec![FlattenedInstruction::Sub(1)])]
    );
}

#[test]
fn inliner_desugars_reset_to_a_decrementing_loop() {
    let table = build_table(vec![]);
    let out = replace_function(&vec![Instruction::Reset], &table, &NameSet::new()).unwrap();
    assert_eq!(
        out,
        vec![FlattenedInstruction::Loop(vec![FlattenedInstruction::Sub(1)])]
    );
}

#[test]
fn direct_recursion_is_rejected() {
    let table = build_table(vec![Instruction::Fn(
        "f".to_string(),
        sig(&[]),
        vec![Instruction::FnCall("f".to_string(), vec![])],
    )]);
    let program = vec![Instruction::FnCall("f".to_string(), vec![])];
    match replace_function(&program, &table, &NameSet::new()) {
        Err(CompileError::RecursiveCall(name)) => assert_eq!(name, "f"),
        r => panic!("expected a recursive-call error, got {:?}", r),
    }
}

#[test]
fn indirect_recursion_is_rejected() {
    let table = build_table(vec![
        Instruction::Fn(
            "f".to_string(),
            sig(&[]),
            vec![Instruction::FnCall("g".to_string(), vec![])],
        ),
        Instruction::Fn(
            "g".to_string(),
            sig(&[]),
            vec![Instruction::FnCall("f".to_string(), vec![])],
        ),
    ]);
    let program = vec![Instruction::FnCall("f".to_string(), vec![])];
    match replace_function(&program, &table, &NameSet::new()) {
        Err(CompileError::RecursiveCall(name)) => assert_eq!(name, "f"),
        r => panic!("expected a recursive-call error, got {:?}", r),
    }
}

#[test]
fn a_nested_call_to_an_undeclared_name_is_rejected() {
    let table = build_table(vec![Instruction::Fn(
        "f".to_string(),
        sig(&[]),
        vec![Instruction::FnCall("mystery".to_string(), vec![])],
    )]);
    let program = vec![Instruction::FnCall("f".to_string(), vec![])];
    match replace_function(&program, &table, &NameSet::new()) {
        Err(CompileError::UndeclaredFunction(name)) => assert_eq!(name, "mystery"),
        r => panic!("expected an undeclared-function error, got {:?}", r),
    }
}

#[test]
fn an_operand_left_named_at_the_top_level_is_rejected() {
    let table = build_table(vec![]);
    let program = vec![Instruction::Add(Variable::Named("x".to_string()))];
    match replace_function(&program, &table, &NameSet::new()) {
        Err(CompileError::UnboundVariable(name)) => assert_eq!(name, "x"),
        r => panic!("expected an unbound-variable error, got {:?}", r),
    }
}

#[test]
fn sibling_calls_do_not_see_each_others_chains() {
    let table = build_table(vec![Instruction::Fn(
        "f".to_string(),
        sig(&[]),
        vec![Instruction::Print],
    )]);
    let program = vec![
        Instruction::FnCall("f".to_string(), vec![]),
        Instruction::FnCall("f".to_string(), vec![]),
    ];
    let out = replace_function(&program, &table, &NameSet::new()).unwrap();
    assert_eq!(
        out,
        vec![FlattenedInstruction::Print, FlattenedInstruction::Print]
    );
}

#[test]
fn name_set_remembers_what_was_inserted() {
    let base = NameSet::new();
    assert!(!base.contains(&"f".to_string()));
    let extended = base.insert_clone(&"f".to_string());
    assert!(extended.contains(&"f".to_string()));
    assert!(!base.contains(&"f".to_string()));
}

#[test]
fn instruction_kinds_follow_the_pairwise_rules() {
    assert_eq!(
        Instruction::Add(Variable::Constant(1)).get_type(),
        InstructionKind::Linear
    );
    assert_eq!(
        Instruction::Left(Variable::Constant(1)).get_type(),
        InstructionKind::Linear
    );
    assert_eq!(Instruction::Noop.get_type(), InstructionKind::Replaceable);
    assert_eq!(
        Instruction::SetConst(Variable::Constant(1)).get_type(),
        InstructionKind::Replaceable
    );
    assert_eq!(Instruction::Print.get_type(), InstructionKind::Any);
    assert_eq!(Instruction::Loop(vec![]).get_type(), InstructionKind::Any);
}

#[test]
fn direct_lowering_handles_constants_and_rejects_the_rest() {
    let lowered =
        FlattenedInstruction::try_from_instruction(Instruction::Reset).unwrap();
    assert_eq!(
        lowered,
        FlattenedInstruction::Loop(vec![FlattenedInstruction::Sub(1)])
    );
    let nested = FlattenedInstruction::try_from_instruction(Instruction::Loop(vec![
        Instruction::Add(Variable::Constant(2)),
    ]))
    .unwrap();
    assert_eq!(
        nested,
        FlattenedInstruction::Loop(vec![FlattenedInstruction::Add(2)])
    );
    assert!(matches!(
        FlattenedInstruction::try_from_instruction(Instruction::Add(Variable::Named(
            "x".to_string()
        ))),
        Err(CompileError::UnboundVariable(_))
    ));
    assert!(matches!(
        FlattenedInstruction::try_from_instruction(Instruction::FnCall(
            "f".to_string(),
            vec![]
        )),
        Err(CompileError::UndeclaredFunction(_))
    ));
}
