use dawn_project::effect_script::ast::{
    EffectAst, EffectEntrypoint, EffectParamSchema, EmitParam, EmitStmt, Expr, ImportedEffect, Stmt,
};
use dawn_project::effect_script::builtins::BuiltinFunction;
use dawn_project::effect_script::bytecode::{
    BoolSlot, ColorSlot, FloatSlot, Instruction, RefSlot, RegisterCounts, ValueSlot,
    BinaryInstruction,
};
use dawn_project::effect_script::lexer::{lex, TokenKind};
use dawn_project::effect_script::specialize::{
    specialize_for_params, stats_for_program, BytecodeProgram, ConstantValue,
};
use dawn_project::effect_script::type_check::{type_check, type_check_with_imports};
use dawn_project::effect_script::types::{BinaryOp, EffectScriptKind, ScriptType};

fn messages(r: Result<(), Vec<dawn_project::effect_script::diag::ScriptDiagnostic>>) -> Vec<String> {
    match r {
        Ok(()) => Vec::new(),
        Err(ds) => ds.into_iter().map(|d| d.message).collect(),
    }
}

fn ident(name: &str) -> Expr {
    Expr::Ident(name.to_string())
}

fn rgb(r: Expr, g: Expr, b: Expr) -> Expr {
    Expr::Call { name: "rgb".to_string(), args: vec![r, g, b] }
}

fn sample(name: &str, params: Vec<EffectParamSchema>, body: Vec<Stmt>) -> EffectAst {
    EffectAst { name: name.to_string(), params, entrypoint: EffectEntrypoint::Sample(body) }
}

#[test]
fn lexer_reads_tokens_and_reports_bad_input() {
    let tokens = lex("let x = 1.5;").unwrap();
    let kinds: Vec<TokenKind> = tokens.into_iter().map(|t| t.kind).collect();
    assert_eq!(
        kinds,
        vec![
            TokenKind::Ident("let".to_string()),
            TokenKind::Ident("x".to_string()),
            TokenKind::Symbol('='),
            TokenKind::Number("1.5".to_string()),
            TokenKind::Symbol(';'),
            TokenKind::Eof,
        ]
    );
    let errors = lex("\"open").unwrap_err();
    assert_eq!(errors[0].message, "unterminated string literal");
    let errors = lex("a $ b").unwrap_err();
    assert_eq!(errors[0].message, "unexpected character `$`");
}

#[test]
fn builtin_functions_are_found_by_name() {
    assert_eq!(BuiltinFunction::from_name("smoothstep"), Some(BuiltinFunction::Smoothstep));
    assert_eq!(BuiltinFunction::from_name("rgb"), Some(BuiltinFunction::Rgb));
    assert_eq!(BuiltinFunction::from_name("sqrt"), None);
}

#[test]
fn well_typed_sample_checks() {
    let body = vec![
        Stmt::Let {
            name: "v".to_string(),
            value_type: ScriptType::Float,
            expr: Expr::Binary {
                left: Box::new(ident("progress")),
                op: BinaryOp::Multiply,
                right: Box::new(Expr::Float(2.0f64.to_bits())),
            },
        },
        Stmt::Return(rgb(ident("v"), ident("v"), ident("v"))),
    ];
    assert_eq!(messages(type_check(&sample("glow", vec![], body))), Vec::<String>::new());
}

#[test]
fn type_errors_are_reported_in_order() {
    let body = vec![
        Stmt::Expr(ident("missing")),
        Stmt::Assign { name: "progress".to_string(), expr: Expr::Float(0) },
        Stmt::If { condition: Expr::Int(1), then_body: vec![], else_body: vec![] },
    ];
    assert_eq!(
        messages(type_check(&sample("broken", vec![], body))),
        vec![
            "unknown identifier `missing`".to_string(),
            "`progress` cannot be assigned".to_string(),
            "if condition must be bool, but found int".to_string(),
            "sample must contain an explicit return".to_string(),
        ]
    );
}

#[test]
fn samples_cannot_emit_and_generators_cannot_return() {
    let emit = EmitStmt {
        target: ident("target"),
        start: Expr::Float(0),
        duration: Expr::Float(0),
        alias: "lib".to_string(),
        effect: "spark".to_string(),
        params: vec![EmitParam { name: "speed".to_string(), expr: Expr::Float(0) }],
    };
    let generator = EffectAst {
        name: "gen".to_string(),
        params: vec![],
        entrypoint: EffectEntrypoint::Generator(vec![Stmt::Emit(emit), Stmt::Return(Expr::Int(1))]),
    };
    let imports = vec![ImportedEffect {
        alias: "lib".to_string(),
        name: "spark".to_string(),
        kind: EffectScriptKind::Sample,
        params: vec![],
    }];
    assert_eq!(
        messages(type_check_with_imports(&generator, &imports)),
        vec![
            "emitted effect `lib.spark` has no parameter `speed`".to_string(),
            "generator entrypoints cannot return values".to_string(),
        ]
    );
    assert_eq!(
        messages(type_check(&generator)),
        vec![
            "unresolved emitted effect `lib.spark`".to_string(),
            "generator entrypoints cannot return values".to_string(),
        ]
    );
}

fn enum_branch_program() -> BytecodeProgram {
    let r0 = ValueSlot::Ref(RefSlot(0), ScriptType::Enum);
    let r1 = ValueSlot::Ref(RefSlot(1), ScriptType::Enum);
    let f = FloatSlot(0);
    BytecodeProgram {
        instructions: vec![
            Instruction::LoadParam(r0, 0),
            Instruction::LoadConst(r1, 0),
            Instruction::Binary(ValueSlot::Bool(BoolSlot(0)), BinaryInstruction::EnumEqual, r0, r1),
            Instruction::JumpIfFalse(BoolSlot(0), 6),
            Instruction::Rgb(ColorSlot(0), f, f, f),
            Instruction::ReturnColor(ColorSlot(0)),
            Instruction::Hsv(ColorSlot(0), f, f, f),
            Instruction::ReturnColor(ColorSlot(0)),
        ],
        constants: vec![ConstantValue::Enum("fast".to_string())],
        registers: RegisterCounts { floats: 1, ints: 0, bools: 1, colors: 1, refs: 2, fixtures: 0, pixels: 0 },
    }
}

#[test]
fn specialization_folds_known_enum_branches() {
    let program = enum_branch_program();
    let fast = specialize_for_params(&program, &vec![ConstantValue::Enum("fast".to_string())]);
    assert_eq!(fast.instructions.len(), 6);
    assert_eq!(fast.instructions[3], Instruction::Jump(4));
    assert!(matches!(fast.instructions[4], Instruction::Rgb(..)));
    assert_eq!(fast.constants[1], ConstantValue::Bool(true));

    let slow = specialize_for_params(&program, &vec![ConstantValue::Enum("slow".to_string())]);
    assert_eq!(slow.instructions.len(), 6);
    assert_eq!(slow.instructions[3], Instruction::Jump(4));
    assert!(matches!(slow.instructions[4], Instruction::Hsv(..)));
    assert_eq!(slow.constants[1], ConstantValue::Bool(false));

    let unknown = specialize_for_params(&program, &vec![ConstantValue::Other]);
    assert_eq!(unknown.instructions, program.instructions);
}

use dawn_project::effect_script::bytecode::ContextSlot;
use dawn_project::effect_script::compile::{binary_instruction, compile_effect, compile_specialized};

#[test]
fn samples_compile_to_register_bytecode() {
    let body = vec![
        Stmt::Let {
            name: "v".to_string(),
            value_type: ScriptType::Float,
            expr: Expr::Binary {
                left: Box::new(ident("progress")),
                op: BinaryOp::Multiply,
                right: Box::new(Expr::Float(2.0f64.to_bits())),
            },
        },
        Stmt::Return(rgb(ident("v"), ident("v"), ident("v"))),
    ];
    let program = compile_effect(&sample("glow", vec![], body)).unwrap();
    let f = |i: usize| FloatSlot(i);
    assert_eq!(
        program.instructions,
        vec![
            Instruction::LoadContext(ValueSlot::Float(f(1)), ContextSlot::Progress),
            Instruction::LoadConst(ValueSlot::Float(f(2)), 2),
            Instruction::Binary(
                ValueSlot::Float(f(3)),
                BinaryInstruction::FloatMultiply,
                ValueSlot::Float(f(1)),
                ValueSlot::Float(f(2)),
            ),
            Instruction::Copy(ValueSlot::Float(f(0)), ValueSlot::Float(f(3))),
            Instruction::Rgb(ColorSlot(0), f(0), f(0), f(0)),
            Instruction::ReturnColor(ColorSlot(0)),
        ]
    );
    assert_eq!(
        program.constants,
        vec![
            ConstantValue::Float(std::f64::consts::PI.to_bits()),
            ConstantValue::Float(std::f64::consts::TAU.to_bits()),
            ConstantValue::Float(2.0f64.to_bits()),
        ]
    );
    assert_eq!((program.registers.floats, program.registers.colors), (4, 1));
}

#[test]
fn branches_compile_to_patched_jumps() {
    let black = rgb(Expr::Int(0), Expr::Int(0), Expr::Int(0));
    let white = rgb(Expr::Int(1), Expr::Int(1), Expr::Int(1));
    let body = vec![Stmt::If {
        condition: Expr::Binary {
            left: Box::new(ident("progress")),
            op: BinaryOp::Less,
            right: Box::new(Expr::Float(0.5f64.to_bits())),
        },
        then_body: vec![Stmt::Return(white)],
        else_body: vec![Stmt::Return(black)],
    }];
    let program = compile_effect(&sample("split", vec![], body)).unwrap();
    let n = program.instructions.len();
    let jumps: Vec<(usize, usize)> = program
        .instructions
        .iter()
        .enumerate()
        .filter_map(|(i, ins)| match ins {
            Instruction::Jump(t) | Instruction::JumpIfFalse(_, t) | Instruction::JumpIfTrue(_, t) => Some((i, *t)),
            _ => None,
        })
        .collect();
    assert_eq!(jumps.len(), 2);
    // The conditional jump skips the `then` branch and its closing jump.
    assert_eq!(jumps[0].1, jumps[1].0 + 1);
    // The closing jump lands after the `else` branch, at the end.
    assert_eq!(jumps[1].1, n);
    // The closing jump follows a return, so it can never run and compaction
    // drops it.
    let specialized = specialize_for_params(&program, &vec![]);
    assert_eq!(specialized.instructions.len(), program.instructions.len() - 1);
    assert_eq!(specialized.instructions[3], Instruction::JumpIfFalse(BoolSlot(0), 12));
}

#[test]
fn compilation_refuses_what_type_checking_rejects() {
    let unknown = sample("bad", vec![], vec![Stmt::Return(ident("nowhere"))]);
    assert!(compile_effect(&unknown).is_none());
    let generator = EffectAst {
        name: "gen".to_string(),
        params: vec![],
        entrypoint: EffectEntrypoint::Generator(vec![]),
    };
    assert!(compile_effect(&generator).is_none());
    assert_eq!(
        binary_instruction(ScriptType::Int, BinaryOp::Add, ScriptType::Float),
        Some(BinaryInstruction::FloatAdd)
    );
    assert_eq!(binary_instruction(ScriptType::Int, BinaryOp::Modulo, ScriptType::Int), None);
}

#[test]
fn compiled_samples_specialize_for_enum_parameters() {
    let mode = EffectParamSchema {
        name: "mode".to_string(),
        value_type: ScriptType::Enum,
        options: vec!["fast".to_string(), "slow".to_string()],
        default: None,
    };
    let body = vec![Stmt::If {
        condition: Expr::Binary {
            left: Box::new(ident("mode")),
            op: BinaryOp::Equal,
            right: Box::new(ident("fast")),
        },
        then_body: vec![Stmt::Return(rgb(Expr::Int(1), Expr::Int(1), Expr::Int(1)))],
        else_body: vec![Stmt::Return(rgb(Expr::Int(0), Expr::Int(0), Expr::Int(0)))],
    }];
    let effect = sample("modes", vec![mode], body);
    let compiled = compile_effect(&effect).unwrap();
    assert!(compiled
        .instructions
        .iter()
        .any(|i| matches!(i, Instruction::Binary(_, BinaryInstruction::EnumEqual, _, _))));
    let fast = compile_specialized(&effect, &vec![ConstantValue::Enum("fast".to_string())]).unwrap();
    let slow = compile_specialized(&effect, &vec![ConstantValue::Enum("slow".to_string())]).unwrap();
    for program in [&fast, &slow] {
        assert!(program.instructions.len() < compiled.instructions.len());
        assert!(!program.instructions.iter().any(|i| matches!(i, Instruction::JumpIfFalse(..))));
        assert_eq!(program.instructions.iter().filter(|i| matches!(i, Instruction::ReturnColor(_))).count(), 1);
    }
    assert_eq!(fast.constants.last(), Some(&ConstantValue::Bool(true)));
    assert_eq!(slow.constants.last(), Some(&ConstantValue::Bool(false)));
}

#[test]
fn program_statistics_count_instructions_constants_and_registers() {
    let program = BytecodeProgram {
        instructions: vec![],
        constants: vec![ConstantValue::Int(1), ConstantValue::Flags(vec!["a".to_string()])],
        registers: RegisterCounts { floats: 2, ints: 1, bools: 3, colors: 1, refs: 0, fixtures: 1, pixels: 1 },
    };
    let stats = stats_for_program(&program, 4);
    assert_eq!(stats.instruction_count(), 0);
    assert_eq!(stats.constant_count(), 2);
    assert_eq!(stats.param_slots(), 4);
    assert_eq!(stats.total_slots(), 9);
}

#[test]
fn lexed_scripts_end_with_a_single_end_of_file_token() {
    let tokens = lex("effect glow { }").unwrap();
    assert_eq!(tokens.last().map(|t| t.kind.clone()), Some(TokenKind::Eof));
    assert_eq!(tokens.iter().filter(|t| t.kind == TokenKind::Eof).count(), 1);
    assert!(!lex("effect $").unwrap_err().is_empty());
}

#[test]
fn specializing_keeps_the_program_constants() {
    let program = BytecodeProgram {
        instructions: vec![],
        constants: vec![ConstantValue::Flags(vec!["a".to_string(), "b".to_string()]), ConstantValue::Int(3)],
        registers: RegisterCounts { floats: 0, ints: 0, bools: 0, colors: 0, refs: 0, fixtures: 0, pixels: 0 },
    };
    let specialized = specialize_for_params(&program, &vec![]);
    assert_eq!(specialized.constants, program.constants);
}

#[test]
fn the_end_token_sits_at_the_end_and_errors_come_per_character() {
    let tokens = lex("a\nbc").unwrap();
    let end = tokens.last().unwrap();
    assert_eq!((end.range.start.line, end.range.start.character), (1, 2));
    assert_eq!(end.range.start, end.range.end);
    let errors = lex("a $ @ \"open").unwrap_err();
    let messages: Vec<String> = errors.iter().map(|d| d.message.clone()).collect();
    assert_eq!(
        messages,
        vec![
            "unexpected character `$`".to_string(),
            "unexpected character `@`".to_string(),
            "unterminated string literal".to_string(),
        ]
    );
}

#[test]
fn integer_instructions_check_for_overflow_and_division_by_zero() {
    use_int_ops();
}

fn use_int_ops() {
    let arith = |op, a, b| {
        dawn_project::effect_script::int_ops::int_arith(op, a, b).map(|r| r.map_err(|e| e.message))
    };
    assert_eq!(arith(BinaryInstruction::IntAdd, 2, 3), Some(Ok(5)));
    assert_eq!(arith(BinaryInstruction::IntAdd, i64::MAX, 1), Some(Err("integer overflow".to_string())));
    assert_eq!(arith(BinaryInstruction::IntDivide, -7, 2), Some(Ok(-3)));
    assert_eq!(arith(BinaryInstruction::IntDivide, 1, 0), Some(Err("integer divide by zero".to_string())));
    assert_eq!(arith(BinaryInstruction::IntDivide, i64::MIN, -1), Some(Err("integer overflow".to_string())));
    assert_eq!(arith(BinaryInstruction::FloatAdd, 1, 1), None);
    assert_eq!(dawn_project::effect_script::int_ops::int_compare(BinaryInstruction::IntLessEqual, 3, 3), Some(true));
    assert_eq!(dawn_project::effect_script::int_ops::loop_tick(4095).ok(), Some(4096));
    assert_eq!(
        dawn_project::effect_script::int_ops::loop_tick(4096).unwrap_err().message,
        "effect exceeded the maximum loop iteration count"
    );
}
