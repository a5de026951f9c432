use static_alias_analyzer::analyzer::analyze;
use static_alias_analyzer::mir::{
    BasicBlock, Body, LocalDecl, Operand, Place, Program, Rvalue, Statement, Terminator,
};
use static_alias_analyzer::mir_visitor::{Diagnostic, MirVisitor};
use static_alias_analyzer::stacked_borrows::{AccessError, Permission, StackItem, Tag};

const PLAIN: LocalDecl = LocalDecl { is_ptr: false, is_mut_ptr: false, is_raw_ptr: false };
const MUT_REF: LocalDecl = LocalDecl { is_ptr: true, is_mut_ptr: true, is_raw_ptr: false };
const SHARED_REF: LocalDecl = LocalDecl { is_ptr: true, is_mut_ptr: false, is_raw_ptr: false };
const RAW_MUT: LocalDecl = LocalDecl { is_ptr: true, is_mut_ptr: true, is_raw_ptr: true };

fn slot(local: u32) -> Place {
    Place { local, indirect: false }
}

fn deref(local: u32) -> Place {
    Place { local, indirect: true }
}

fn assign(place: Place, rvalue: Rvalue) -> Statement {
    Statement::Assign(place, rvalue)
}

fn body(name: &str, arg_count: usize, locals: Vec<LocalDecl>, blocks: Vec<BasicBlock>) -> Body {
    Body { name: String::from(name), arg_count, locals, blocks, var_names: Vec::new() }
}

fn block(statements: Vec<Statement>, terminator: Terminator) -> BasicBlock {
    BasicBlock { statements, terminator: Some(terminator) }
}

fn violations(diagnostics: &[Diagnostic]) -> Vec<(usize, AccessError)> {
    diagnostics
        .iter()
        .filter_map(|d| match d {
            Diagnostic::AccessViolation { function, error } => Some((*function, *error)),
            _ => None,
        })
        .collect()
}

fn run(program: &Program, entry: usize) -> MirVisitor {
    analyze(program, entry, 8).expect("entry exists").visitor
}

// Two mutable references taken from one slot; a write through the first,
// then a write through the second.
#[test]
fn write_through_second_mutable_reference_after_first_is_refused() {
    let locals = vec![PLAIN, PLAIN, MUT_REF, MUT_REF];
    let main = body(
        "main",
        0,
        locals,
        vec![block(
            vec![
                assign(slot(1), Rvalue::Use(Operand::Constant)),
                assign(slot(2), Rvalue::Ref { mutable: true, place: slot(1) }),
                assign(slot(3), Rvalue::Ref { mutable: true, place: slot(1) }),
                assign(deref(2), Rvalue::Use(Operand::Constant)),
                assign(deref(3), Rvalue::Use(Operand::Constant)),
            ],
            Terminator::Return,
        )],
    );
    let program = Program { bodies: vec![main] };
    let v = run(&program, 0);
    let found = violations(&v.diagnostics);
    assert!(found.contains(&(0, AccessError::NoWriteAccess(Tag::Tagged(3)))));
}

// One slot read twice into shared references, a write through the first
// mutable reference, then a read through a shared reference.
#[test]
fn write_invalidates_shared_references() {
    let locals = vec![PLAIN, PLAIN, MUT_REF, SHARED_REF, SHARED_REF, PLAIN];
    let main = body(
        "main",
        0,
        locals,
        vec![block(
            vec![
                assign(slot(1), Rvalue::Use(Operand::Constant)),
                assign(slot(2), Rvalue::Ref { mutable: true, place: slot(1) }),
                assign(slot(3), Rvalue::Ref { mutable: false, place: deref(2) }),
                assign(slot(4), Rvalue::Ref { mutable: false, place: deref(2) }),
                assign(deref(2), Rvalue::Use(Operand::Constant)),
                assign(slot(5), Rvalue::Use(Operand::Copy(deref(3)))),
            ],
            Terminator::Return,
        )],
    );
    let program = Program { bodies: vec![main] };
    let v = run(&program, 0);
    assert_eq!(
        violations(&v.diagnostics),
        vec![(0, AccessError::NoReadAccess(Tag::Tagged(3)))]
    );
}

#[test]
fn shared_references_stay_valid_without_intervening_write() {
    let locals = vec![PLAIN, PLAIN, MUT_REF, SHARED_REF, SHARED_REF, PLAIN, PLAIN];
    let main = body(
        "main",
        0,
        locals,
        vec![block(
            vec![
                assign(slot(1), Rvalue::Use(Operand::Constant)),
                assign(slot(2), Rvalue::Ref { mutable: true, place: slot(1) }),
                assign(slot(3), Rvalue::Ref { mutable: false, place: deref(2) }),
                assign(slot(4), Rvalue::Ref { mutable: false, place: deref(2) }),
                assign(slot(5), Rvalue::Use(Operand::Copy(deref(3)))),
                assign(slot(6), Rvalue::Use(Operand::Copy(deref(4)))),
            ],
            Terminator::Return,
        )],
    );
    let program = Program { bodies: vec![main] };
    let v = run(&program, 0);
    assert!(violations(&v.diagnostics).is_empty());
}

fn raw_program(writes: Vec<u32>) -> Program {
    // _2 = &mut _1; _3 = &raw mut *_2; _4 = &mut *_3; _5 = &mut *_3; then writes.
    let locals = vec![PLAIN, PLAIN, MUT_REF, RAW_MUT, MUT_REF, MUT_REF];
    let mut statements = vec![
        assign(slot(1), Rvalue::Use(Operand::Constant)),
        assign(slot(2), Rvalue::Ref { mutable: true, place: slot(1) }),
        assign(slot(3), Rvalue::AddressOf(deref(2))),
        assign(slot(4), Rvalue::Ref { mutable: true, place: deref(3) }),
        assign(slot(5), Rvalue::Ref { mutable: true, place: deref(3) }),
    ];
    for w in writes {
        statements.push(assign(deref(w), Rvalue::Use(Operand::Constant)));
    }
    Program { bodies: vec![body("main", 0, locals, vec![block(statements, Terminator::Return)])] }
}

// A raw pointer from a mutable reference, two exclusive references made from
// it in sequence: writing through the second succeeds, through the first fails.
#[test]
fn second_raw_derived_reference_invalidates_first() {
    let only_second = run(&raw_program(vec![5]), 0);
    assert!(violations(&only_second.diagnostics).is_empty());
    let second_then_first = run(&raw_program(vec![5, 4]), 0);
    assert_eq!(
        violations(&second_then_first.diagnostics),
        vec![(0, AccessError::NoWriteAccess(Tag::Tagged(4)))]
    );
    let only_first = run(&raw_program(vec![4]), 0);
    assert_eq!(
        violations(&only_first.diagnostics),
        vec![(0, AccessError::NoWriteAccess(Tag::Tagged(4)))]
    );
}

fn aliasing_call_program() -> Program {
    // fn example(x: &mut i32, y: &mut i32) -> i32 { *x = 42; *y = 13; *x }
    let callee = body(
        "example",
        2,
        vec![PLAIN, MUT_REF, MUT_REF],
        vec![block(
            vec![
                assign(deref(1), Rvalue::Use(Operand::Constant)),
                assign(deref(2), Rvalue::Use(Operand::Constant)),
                assign(slot(0), Rvalue::Use(Operand::Copy(deref(1)))),
            ],
            Terminator::Return,
        )],
    );
    // main: _2 = &mut _1; _3 = &raw mut *_2; _4 = &mut *_3; _5 = &mut *_3;
    // _6 = example(move _4, move _5)
    let main = body(
        "main",
        0,
        vec![PLAIN, PLAIN, MUT_REF, RAW_MUT, MUT_REF, MUT_REF, PLAIN],
        vec![block(
            vec![
                assign(slot(1), Rvalue::Use(Operand::Constant)),
                assign(slot(2), Rvalue::Ref { mutable: true, place: slot(1) }),
                assign(slot(3), Rvalue::AddressOf(deref(2))),
                assign(slot(4), Rvalue::Ref { mutable: true, place: deref(3) }),
                assign(slot(5), Rvalue::Ref { mutable: true, place: deref(3) }),
            ],
            Terminator::Call {
                args: vec![Operand::Move(slot(4)), Operand::Move(slot(5))],
                destination: Some(slot(6)),
                callee: Some(1),
            },
        )],
    );
    Program { bodies: vec![main, callee] }
}

// A call whose two mutable arguments alias the target of one raw pointer.
#[test]
fn call_with_aliasing_mutable_arguments_is_reported() {
    let v = run(&aliasing_call_program(), 0);
    assert!(v.diagnostics.contains(&Diagnostic::AliasedMutableArguments {
        function: 0,
        first: 4,
        second: 5
    }));
    // Inside the callee the write through the second parameter invalidates
    // the first, so reading the first back is refused as well.
    let inside = violations(&v.diagnostics);
    assert!(inside.contains(&(1, AccessError::NoWriteAccess(Tag::Tagged(2)))));
    assert!(inside.contains(&(1, AccessError::NoReadAccess(Tag::Tagged(1)))));
}

#[test]
fn call_merges_callee_graph_and_gives_destination_a_fresh_entry() {
    let v = run(&aliasing_call_program(), 0);
    // The destination holds a plain value on top of the stack.
    assert_eq!(
        v.stacked_borrows.items().last(),
        Some(&StackItem::new(Tag::Tagged(6), Permission::Unique))
    );
    assert!(v.alias_graph.does_variable_exits(6));
    assert!(v.alias_graph.are_alias(4, 5));
}

#[test]
fn call_without_known_body_only_checks_arguments() {
    let mut program = aliasing_call_program();
    if let Some(Terminator::Call { callee, .. }) = &mut program.bodies[0].blocks[0].terminator {
        *callee = None;
    }
    let v = run(&program, 0);
    assert!(v.diagnostics.iter().all(|d| match d {
        Diagnostic::AccessViolation { function, .. } => *function == 0,
        _ => true,
    }));
    assert!(v.diagnostics.iter().any(|d| matches!(d, Diagnostic::AliasedMutableArguments { .. })));
}

#[test]
fn calls_beyond_the_depth_bound_are_reported_not_followed() {
    // fn recurse() { recurse() }
    let recurse = body(
        "recurse",
        0,
        vec![PLAIN],
        vec![block(
            Vec::new(),
            Terminator::Call { args: Vec::new(), destination: Some(slot(0)), callee: Some(0) },
        )],
    );
    let program = Program { bodies: vec![recurse] };
    let analysis = analyze(&program, 0, 3).unwrap();
    let limits: Vec<_> = analysis
        .visitor
        .diagnostics
        .iter()
        .filter(|d| matches!(d, Diagnostic::CallDepthExceeded { .. }))
        .collect();
    assert_eq!(limits, vec![&Diagnostic::CallDepthExceeded { function: 0, callee: 0 }]);
}

#[test]
fn analyze_of_missing_entry_is_none() {
    let program = Program { bodies: Vec::new() };
    assert!(analyze(&program, 0, 4).is_none());
}

#[test]
fn entry_parameters_are_seeded_as_unknown() {
    let f = body("f", 2, vec![PLAIN, MUT_REF, MUT_REF], vec![block(Vec::new(), Terminator::Return)]);
    let program = Program { bodies: vec![f] };
    let v = run(&program, 0);
    assert_eq!(
        v.stacked_borrows.items(),
        &vec![
            StackItem::new(Tag::Tagged(1), Permission::Unique),
            StackItem::new(Tag::Tagged(2), Permission::Unique),
        ]
    );
    assert!(v.alias_graph.does_variable_exits(1));
    assert!(v.alias_graph.does_variable_exits(2));
}

#[test]
fn drop_clears_the_stack() {
    let main = body(
        "main",
        0,
        vec![PLAIN, PLAIN],
        vec![
            block(vec![assign(slot(1), Rvalue::Use(Operand::Constant))], Terminator::Drop),
            block(vec![assign(slot(0), Rvalue::Use(Operand::Copy(slot(1))))], Terminator::Return),
        ],
    );
    let program = Program { bodies: vec![main] };
    let v = run(&program, 0);
    assert_eq!(
        violations(&v.diagnostics),
        vec![(0, AccessError::NoReadAccess(Tag::Tagged(1)))]
    );
}

#[test]
fn narrowing_casts_and_unsupported_shapes_are_reported() {
    let main = body(
        "main",
        0,
        vec![PLAIN, PLAIN, PLAIN],
        vec![block(
            vec![
                assign(slot(1), Rvalue::Use(Operand::Constant)),
                assign(
                    slot(2),
                    Rvalue::Cast { operand: Operand::Copy(slot(1)), sizes: Some((8, 4)) },
                ),
                assign(
                    slot(2),
                    Rvalue::Cast { operand: Operand::Copy(slot(1)), sizes: Some((4, 8)) },
                ),
                assign(slot(2), Rvalue::Unsupported),
                Statement::Unsupported,
                Statement::StorageDead(1),
            ],
            Terminator::Unsupported,
        )],
    );
    let program = Program { bodies: vec![main] };
    let v = run(&program, 0);
    assert_eq!(
        v.diagnostics,
        vec![
            Diagnostic::NarrowingCast { function: 0, from_bytes: 8, to_bytes: 4 },
            Diagnostic::UnsupportedRvalue { function: 0 },
            Diagnostic::UnsupportedStatement { function: 0 },
            Diagnostic::UnsupportedTerminator { function: 0 },
        ]
    );
}

#[test]
fn value_assignment_clears_the_points_to_edges_of_its_slot() {
    let main = body(
        "main",
        0,
        vec![PLAIN, PLAIN, SHARED_REF, SHARED_REF],
        vec![block(
            vec![
                assign(slot(1), Rvalue::Use(Operand::Constant)),
                assign(slot(2), Rvalue::Ref { mutable: false, place: slot(1) }),
                assign(slot(3), Rvalue::Ref { mutable: false, place: slot(1) }),
                assign(slot(2), Rvalue::Use(Operand::Constant)),
            ],
            Terminator::Return,
        )],
    );
    let program = Program { bodies: vec![main] };
    let v = run(&program, 0);
    assert!(v.alias_graph.are_alias(3, 1));
    assert!(!v.alias_graph.are_alias(2, 3));
}

#[test]
fn analysis_reports_suspects_that_lost_their_permission() {
    // _1 is pointed to by _2 and _3; a failed write empties the stack.
    let main = body(
        "main",
        0,
        vec![PLAIN, PLAIN, SHARED_REF, SHARED_REF],
        vec![block(
            vec![
                assign(slot(1), Rvalue::Use(Operand::Constant)),
                assign(slot(2), Rvalue::Ref { mutable: false, place: slot(1) }),
                assign(slot(3), Rvalue::Ref { mutable: false, place: slot(1) }),
                assign(deref(9), Rvalue::Use(Operand::Constant)),
            ],
            Terminator::Return,
        )],
    );
    let program = Program { bodies: vec![main] };
    let analysis = analyze(&program, 0, 4).unwrap();
    assert_eq!(analysis.visitor.alias_graph.aliasing_test(), vec![1]);
    assert_eq!(analysis.dead, vec![1]);
}

#[test]
fn variable_names_come_from_the_body() {
    let mut f = body("f", 0, vec![PLAIN, PLAIN], vec![block(Vec::new(), Terminator::Return)]);
    f.var_names = vec![(1, String::from("local"))];
    let program = Program { bodies: vec![f] };
    let v = run(&program, 0);
    assert_eq!(v.get_variable_name(1), "local");
    assert_eq!(v.get_variable_name(17), "17");
    assert_eq!(v.stacked_borrows.get_tag_name(Tag::Tagged(1)), "local");
    assert_eq!(v.func_name, "f");
}

#[test]
fn operand_helpers_follow_the_declarations() {
    let mut v = MirVisitor::new(Vec::new());
    v.local_declarations = vec![PLAIN, RAW_MUT, SHARED_REF];
    assert!(v.is_raw_ptr(&slot(1)));
    assert!(!v.is_raw_ptr(&slot(2)));
    assert!(!v.is_raw_ptr(&slot(7)));
    assert!(v.is_mutable(&Operand::Move(slot(1))));
    assert!(!v.is_mutable(&Operand::Copy(slot(2))));
    assert!(!v.is_mutable(&Operand::Constant));
    assert_eq!(v.operand_as_u32(&Operand::Copy(slot(2))), 2);
    assert_eq!(v.operand_as_u32(&Operand::Constant), 0);
    assert_eq!(v.place_to_tag(&deref(5)), Tag::Tagged(5));
}
