//! What interpreting a function does to the abstract state of an activation:
//! one spec function per shape of statement and terminator, composed over
//! blocks and bodies. The interpreter's functions are proved to compute them.

use vstd::prelude::*;

use crate::mir::{BasicBlock, LocalDecl, Operand, Place, Program, Rvalue, Statement, Terminator};
use crate::mir_visitor::Diagnostic;
use crate::points_to::{
    may_alias_view, view_after_merge, view_after_points_to, view_after_value, view_with_slot,
    GraphView,
};
use crate::stacked_borrows::{
    after_new_ref, after_read, after_use, after_use_raw, has_shared_rw, has_tag, AccessError,
    Permission, StackItem, Tag,
};

verus! {

/// The abstract state of one activation: its permission stack, its points-to
/// graph and the findings so far.
pub struct VisitState {
    pub stack: Seq<StackItem>,
    pub graph: GraphView,
    pub events: Seq<Diagnostic>,
}

/// A finding is appended.
pub open spec fn st_event(st: VisitState, d: Diagnostic) -> VisitState {
    VisitState { stack: st.stack, graph: st.graph, events: st.events.push(d) }
}

/// The findings after an access that was justified (`ok`) or refused with `err`.
pub open spec fn with_violation(st: VisitState, f: usize, ok: bool, err: AccessError) -> Seq<
    Diagnostic,
> {
    if ok {
        st.events
    } else {
        st.events.push(Diagnostic::AccessViolation { function: f, error: err })
    }
}

/// A write through `tag` (`Stack::use_value`).
pub open spec fn st_use(st: VisitState, f: usize, tag: Tag) -> VisitState {
    VisitState {
        stack: after_use(st.stack, tag),
        graph: st.graph,
        events: with_violation(st, f, has_tag(st.stack, tag), AccessError::NoWriteAccess(tag)),
    }
}

/// A read through `tag` (`Stack::read_value`).
pub open spec fn st_read(st: VisitState, f: usize, tag: Tag) -> VisitState {
    VisitState {
        stack: after_read(st.stack, tag),
        graph: st.graph,
        events: with_violation(st, f, has_tag(st.stack, tag), AccessError::NoReadAccess(tag)),
    }
}

/// A write through a raw pointer (`Stack::use_raw`).
pub open spec fn st_use_raw(st: VisitState, f: usize, tag: Tag) -> VisitState {
    VisitState {
        stack: after_use_raw(st.stack),
        graph: st.graph,
        events: with_violation(st, f, has_shared_rw(st.stack), AccessError::NoWriteAccess(tag)),
    }
}

/// A read through a raw pointer (`Stack::read_raw`).
pub open spec fn st_read_raw(st: VisitState, f: usize, tag: Tag) -> VisitState {
    VisitState {
        stack: st.stack,
        graph: st.graph,
        events: with_violation(st, f, has_shared_rw(st.stack), AccessError::NoReadAccess(tag)),
    }
}

/// A new pointer or reference (`Stack::new_ref`).
pub open spec fn st_new_ref(st: VisitState, tag: Tag, permission: Permission) -> VisitState {
    VisitState {
        stack: after_new_ref(st.stack, StackItem { tag, permission }),
        graph: st.graph,
        events: st.events,
    }
}

/// A plain value is written into `slot` (`PointsToGraph::constant`).
pub open spec fn st_value(st: VisitState, slot: u32) -> VisitState {
    VisitState { stack: st.stack, graph: view_after_value(st.graph, slot), events: st.events }
}

/// Slot `b` is registered if it was not, then `a` is recorded as pointing to it.
pub open spec fn st_points_to(st: VisitState, a: u32, b: u32) -> VisitState {
    VisitState {
        stack: st.stack,
        graph: view_after_points_to(view_with_slot(st.graph, b), a, b),
        events: st.events,
    }
}

/// The declared slot holds a raw pointer; undeclared slots hold none.
pub open spec fn local_is_raw(locals: Seq<LocalDecl>, slot: u32) -> bool {
    slot < locals.len() && locals[slot as int].is_raw_ptr
}

/// The declared slot holds a reference or pointer.
pub open spec fn local_is_ptr(locals: Seq<LocalDecl>, slot: u32) -> bool {
    slot < locals.len() && locals[slot as int].is_ptr
}

/// The declared slot holds a mutable reference or pointer.
pub open spec fn local_is_mut_ptr(locals: Seq<LocalDecl>, slot: u32) -> bool {
    slot < locals.len() && locals[slot as int].is_mut_ptr
}

/// The slot an operand reads; slot 0 for a constant.
pub open spec fn operand_slot(op: Operand) -> u32 {
    match op {
        Operand::Copy(p) => p.local,
        Operand::Move(p) => p.local,
        Operand::Constant => 0,
    }
}

/// The operand reads a slot that holds a pointer or reference.
pub open spec fn carries_pointer(locals: Seq<LocalDecl>, op: Operand) -> bool {
    match op {
        Operand::Copy(p) => local_is_ptr(locals, p.local),
        Operand::Move(p) => local_is_ptr(locals, p.local),
        Operand::Constant => false,
    }
}

/// Reading an operand: a move writes through its slot, unless it goes
/// through a dereference; a copy reads. Raw pointers take the raw variants.
pub open spec fn operand_effect(st: VisitState, locals: Seq<LocalDecl>, f: usize, op: Operand) -> VisitState {
    match op {
        Operand::Move(p) => if p.indirect {
            st
        } else if local_is_raw(locals, p.local) {
            st_use_raw(st, f, Tag::Tagged(p.local))
        } else {
            st_use(st, f, Tag::Tagged(p.local))
        },
        Operand::Copy(p) => if local_is_raw(locals, p.local) {
            st_read_raw(st, f, Tag::Tagged(p.local))
        } else {
            st_read(st, f, Tag::Tagged(p.local))
        },
        Operand::Constant => st,
    }
}

/// Reading operands in order.
pub open spec fn operands_effect(
    st: VisitState,
    locals: Seq<LocalDecl>,
    f: usize,
    ops: Seq<Operand>,
) -> VisitState
    decreases ops.len(),
{
    if ops.len() == 0 {
        st
    } else {
        operand_effect(operands_effect(st, locals, f, ops.drop_last()), locals, f, ops.last())
    }
}

/// Writing a place: a direct slot gets a `Unique` entry again, then the slot
/// is written through.
pub open spec fn add_to_stack_effect(st: VisitState, f: usize, p: Place) -> VisitState {
    let tag = Tag::Tagged(p.local);
    st_use(
        if p.indirect {
            st
        } else {
            st_new_ref(st, tag, Permission::Unique)
        },
        f,
        tag,
    )
}

/// Writing a plain value into a place.
pub open spec fn plain_value_effect(st: VisitState, f: usize, p: Place) -> VisitState {
    st_value(add_to_stack_effect(st, f, p), p.local)
}

/// A cast to a smaller type is reported.
pub open spec fn cast_effect(st: VisitState, f: usize, sizes: Option<(u64, u64)>) -> VisitState {
    match sizes {
        Some((from, to)) => if from > to {
            st_event(st, Diagnostic::NarrowingCast { function: f, from_bytes: from, to_bytes: to })
        } else {
            st
        },
        None => st,
    }
}

/// The effect of `place = rvalue`.
pub open spec fn assign_effect(
    st: VisitState,
    locals: Seq<LocalDecl>,
    f: usize,
    place: Place,
    rvalue: Rvalue,
) -> VisitState {
    let slot = place.local;
    let tag = Tag::Tagged(slot);
    match rvalue {
        Rvalue::Use(op) => {
            let s1 = add_to_stack_effect(operand_effect(st, locals, f, op), f, place);
            let s2 = if place.indirect {
                s1
            } else {
                st_value(s1, slot)
            };
            if carries_pointer(locals, op) {
                st_points_to(s2, slot, operand_slot(op))
            } else {
                s2
            }
        },
        Rvalue::Ref { mutable, place: p } => {
            let src = Tag::Tagged(p.local);
            let s1 = if mutable {
                st_use(st, f, src)
            } else {
                st_read(st, f, src)
            };
            let permission = if mutable {
                Permission::Unique
            } else {
                Permission::SharedReadOnly
            };
            st_points_to(st_new_ref(s1, tag, permission), slot, p.local)
        },
        Rvalue::AddressOf(p) => st_points_to(
            st_new_ref(st_use(st, f, Tag::Tagged(p.local)), tag, Permission::SharedReadWrite),
            slot,
            p.local,
        ),
        Rvalue::Aggregate(ops) => plain_value_effect(operands_effect(st, locals, f, ops@), f, place),
        Rvalue::Cast { operand, sizes } => plain_value_effect(
            operand_effect(cast_effect(st, f, sizes), locals, f, operand),
            f,
            place,
        ),
        Rvalue::BinaryOp(a, b) => plain_value_effect(
            operand_effect(operand_effect(st, locals, f, b), locals, f, a),
            f,
            place,
        ),
        Rvalue::UnaryOp(op) => plain_value_effect(operand_effect(st, locals, f, op), f, place),
        Rvalue::NullaryOp => plain_value_effect(st, f, place),
        Rvalue::ShallowInitBox(op) => st_points_to(
            add_to_stack_effect(st, f, place),
            slot,
            operand_slot(op),
        ),
        Rvalue::Discriminant(_) => plain_value_effect(st, f, place),
        Rvalue::Unsupported => st_event(st, Diagnostic::UnsupportedRvalue { function: f }),
    }
}

/// The effect of one statement.
pub open spec fn statement_effect(
    st: VisitState,
    locals: Seq<LocalDecl>,
    f: usize,
    s: Statement,
) -> VisitState {
    match s {
        Statement::Assign(place, rvalue) => assign_effect(st, locals, f, place, rvalue),
        Statement::SetDiscriminant(place) => add_to_stack_effect(st, f, place),
        Statement::StorageLive(_) => st,
        Statement::StorageDead(_) => st,
        Statement::Unsupported => st_event(st, Diagnostic::UnsupportedStatement { function: f }),
    }
}

/// The effect of statements in order.
pub open spec fn statements_effect(
    st: VisitState,
    locals: Seq<LocalDecl>,
    f: usize,
    ss: Seq<Statement>,
) -> VisitState
    decreases ss.len(),
{
    if ss.len() == 0 {
        st
    } else {
        statement_effect(statements_effect(st, locals, f, ss.drop_last()), locals, f, ss.last())
    }
}

/// The operand reads a slot that holds a mutable reference or pointer.
pub open spec fn is_mut_operand(locals: Seq<LocalDecl>, op: Operand) -> bool {
    match op {
        Operand::Copy(p) => local_is_mut_ptr(locals, p.local),
        Operand::Move(p) => local_is_mut_ptr(locals, p.local),
        Operand::Constant => false,
    }
}

/// The slots of the arguments that are mutable references or pointers, in order.
pub open spec fn mutable_arg_slots(locals: Seq<LocalDecl>, args: Seq<Operand>) -> Seq<u32>
    decreases args.len(),
{
    if args.len() == 0 {
        Seq::empty()
    } else {
        let r = mutable_arg_slots(locals, args.drop_last());
        if is_mut_operand(locals, args.last()) {
            r.push(operand_slot(args.last()))
        } else {
            r
        }
    }
}

/// The first slot of `rest` that may alias `x`.
pub open spec fn alias_partner(g: GraphView, x: u32, rest: Seq<u32>) -> Option<u32>
    decreases rest.len(),
{
    if rest.len() == 0 {
        None
    } else if may_alias_view(g, x, rest[0]) {
        Some(rest[0])
    } else {
        alias_partner(g, x, rest.drop_first())
    }
}

/// The first pair of slots, in the order of `slots`, that may alias.
pub open spec fn first_aliasing_pair(g: GraphView, slots: Seq<u32>) -> Option<(u32, u32)>
    decreases slots.len(),
{
    if slots.len() == 0 {
        None
    } else {
        match alias_partner(g, slots[0], slots.drop_first()) {
            Some(y) => Some((slots[0], y)),
            None => first_aliasing_pair(g, slots.drop_first()),
        }
    }
}

/// A call with two mutable arguments that may alias is reported once, with
/// the first such pair.
pub open spec fn alias_check_effect(
    st: VisitState,
    locals: Seq<LocalDecl>,
    f: usize,
    args: Seq<Operand>,
) -> VisitState {
    match first_aliasing_pair(st.graph, mutable_arg_slots(locals, args)) {
        Some((a, b)) => st_event(
            st,
            Diagnostic::AliasedMutableArguments { function: f, first: a, second: b },
        ),
        None => st,
    }
}

/// Callee parameter `w` (counted from 1) stands for the caller slot that
/// argument `w - 1` reads, when that argument is not a constant.
pub open spec fn param_map(args: Seq<Operand>) -> Map<u32, u32> {
    Map::new(
        |w: u32| 1 <= w <= args.len() && !(args[w - 1] is Constant),
        |w: u32| operand_slot(args[w - 1]),
    )
}

/// The caller graph with a node for every slot that an argument reads.
pub open spec fn register_args(g: GraphView, args: Seq<Operand>) -> GraphView
    decreases args.len(),
{
    if args.len() == 0 {
        g
    } else {
        let g1 = register_args(g, args.drop_last());
        if args.last() is Constant {
            g1
        } else {
            view_with_slot(g1, operand_slot(args.last()))
        }
    }
}

/// A fresh activation: empty stack, empty graph, no findings.
pub open spec fn initial_state() -> VisitState {
    VisitState {
        stack: Seq::empty(),
        graph: GraphView { vars: Map::empty(), nodes: Seq::empty(), edges: Set::empty() },
        events: Seq::empty(),
    }
}

/// Slot identifiers are `u32`: at most that many parameters are seeded.
pub open spec fn slot_count(n: nat) -> nat {
    if n <= u32::MAX {
        n
    } else {
        u32::MAX as nat
    }
}

/// Parameters `1..=k` each get a `Unique` entry and a node of their own.
pub open spec fn seed_effect(st: VisitState, k: nat) -> VisitState
    decreases k,
{
    if k == 0 {
        st
    } else {
        let s = seed_effect(st, (k - 1) as nat);
        st_value(st_new_ref(s, Tag::Tagged(k as u32), Permission::Unique), k as u32)
    }
}

/// The call's destination gets a fresh `Unique` entry and a plain value.
pub open spec fn destination_effect(st: VisitState, f: usize, destination: Option<Place>) -> VisitState {
    match destination {
        Some(p) => {
            let tag = Tag::Tagged(p.local);
            let s = if p.indirect {
                st
            } else {
                st_value(st_new_ref(st, tag, Permission::Unique), p.local)
            };
            st_use(s, f, tag)
        },
        None => st,
    }
}

/// Interpreting the callee's body with the caller's arguments, then merging
/// its graph into the caller's and appending its findings. `depth` is the
/// caller's remaining call depth.
pub open spec fn follow_effect(
    program: Program,
    st: VisitState,
    args: Seq<Operand>,
    callee: usize,
    depth: nat,
) -> VisitState
    decreases depth, 0nat, 0nat,
{
    if depth == 0 {
        st
    } else {
        let inner = body_effect(program, callee, args, (depth - 1) as nat, initial_state());
        VisitState {
            stack: st.stack,
            graph: view_after_merge(
                register_args(st.graph, args),
                inner.graph.nodes,
                inner.graph.edges,
                param_map(args),
            ),
            events: st.events + inner.events,
        }
    }
}

/// The effect of one terminator.
pub open spec fn terminator_effect(
    program: Program,
    st: VisitState,
    locals: Seq<LocalDecl>,
    f: usize,
    t: Terminator,
    depth: nat,
) -> VisitState
    decreases depth, 1nat, 0nat,
{
    match t {
        Terminator::Call { args, destination, callee } => {
            let s1 = alias_check_effect(operands_effect(st, locals, f, args@), locals, f, args@);
            let s2 = match callee {
                Some(c) => if c < program.bodies.len() {
                    if depth == 0 {
                        st_event(s1, Diagnostic::CallDepthExceeded { function: f, callee: c })
                    } else {
                        follow_effect(program, s1, args@, c, depth)
                    }
                } else {
                    s1
                },
                None => s1,
            };
            destination_effect(s2, f, destination)
        },
        Terminator::Assert(op) => operand_effect(st, locals, f, op),
        Terminator::SwitchInt(op) => operand_effect(st, locals, f, op),
        Terminator::Drop => VisitState { stack: Seq::empty(), graph: st.graph, events: st.events },
        Terminator::Goto => st,
        Terminator::Return => st,
        Terminator::Resume => st,
        Terminator::Unreachable => st,
        Terminator::Unsupported => st_event(st, Diagnostic::UnsupportedTerminator { function: f }),
    }
}

/// The effect of one basic block: its statements, then its terminator.
pub open spec fn block_effect(
    program: Program,
    st: VisitState,
    locals: Seq<LocalDecl>,
    f: usize,
    b: BasicBlock,
    depth: nat,
) -> VisitState
    decreases depth, 2nat, 0nat,
{
    let s = statements_effect(st, locals, f, b.statements@);
    match b.terminator {
        Some(t) => terminator_effect(program, s, locals, f, t, depth),
        None => s,
    }
}

/// The effect of basic blocks in layout order.
pub open spec fn blocks_effect(
    program: Program,
    st: VisitState,
    locals: Seq<LocalDecl>,
    f: usize,
    bs: Seq<BasicBlock>,
    depth: nat,
) -> VisitState
    decreases depth, 3nat, bs.len(),
{
    if bs.len() == 0 {
        st
    } else {
        block_effect(
            program,
            blocks_effect(program, st, locals, f, bs.drop_last(), depth),
            locals,
            f,
            bs.last(),
            depth,
        )
    }
}

/// The effect of interpreting body `index` with the caller's arguments
/// `args` (none for the entry function), following calls at most `depth`
/// levels deep. Parameters are seeded first: one per argument, or one per
/// declared parameter when there are no arguments.
pub open spec fn body_effect(
    program: Program,
    index: usize,
    args: Seq<Operand>,
    depth: nat,
    st: VisitState,
) -> VisitState
    decreases depth, 4nat, 0nat,
{
    if index < program.bodies.len() {
        let body = program.bodies[index as int];
        let n = if args.len() > 0 {
            args.len()
        } else {
            body.arg_count as nat
        };
        blocks_effect(program, seed_effect(st, slot_count(n)), body.locals@, index, body.blocks@, depth)
    } else {
        st
    }
}

} // verus!
