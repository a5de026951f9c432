use std::collections::HashMap;
use vstd::prelude::*;

use crate::mir::{BasicBlock, LocalDecl, Operand, Place, Program, Rvalue, Statement, Terminator};
use crate::points_to::{GraphView, PointsToGraph};
use crate::semantics::{
    add_to_stack_effect, alias_check_effect, alias_partner, assign_effect, block_effect,
    blocks_effect, body_effect,
    carries_pointer, first_aliasing_pair, follow_effect, local_is_mut_ptr, local_is_raw,
    mutable_arg_slots, operand_effect, operand_slot, operands_effect, param_map,
    plain_value_effect, register_args, seed_effect, slot_count, st_new_ref, st_points_to,
    st_read, st_use, st_value, statement_effect, statements_effect, terminator_effect,
    VisitState,
};
use crate::stacked_borrows::{AccessError, Permission, Stack, Tag};
use crate::text::{decimal, decimal_string};

verus! {

broadcast use vstd::std_specs::hash::group_hash_axioms;

/// A finding of the interpreter; `function` is the index of the body in
/// which it was made.
#[derive(Copy, Clone, Debug, PartialEq, Eq, Structural)]
pub enum Diagnostic {
    /// An access that the permission stack does not justify.
    AccessViolation { function: usize, error: AccessError },
    /// A call receives two mutable arguments that may alias.
    AliasedMutableArguments { function: usize, first: u32, second: u32 },
    /// A cast to a type smaller than the source type.
    NarrowingCast { function: usize, from_bytes: u64, to_bytes: u64 },
    /// A statement shape the interpreter does not handle.
    UnsupportedStatement { function: usize },
    /// An assignment right-hand side the interpreter does not handle.
    UnsupportedRvalue { function: usize },
    /// A terminator shape the interpreter does not handle.
    UnsupportedTerminator { function: usize },
    /// A call that was not followed because the call-depth bound was reached.
    CallDepthExceeded { function: usize, callee: usize },
}

/// The interpreter of one function activation.
pub struct MirVisitor {
    /// The caller's actual arguments; empty for the entry function.
    pub args: Vec<Operand>,
    pub func_name: String,
    /// The index of the body being interpreted.
    pub function: usize,
    pub local_declarations: Vec<LocalDecl>,
    pub variable_names: HashMap<u32, String>,
    pub stacked_borrows: Stack,
    pub alias_graph: PointsToGraph,
    pub diagnostics: Vec<Diagnostic>,
}

/// A copy of a vector of plain values.
fn copy_vec<T: Copy>(v: &Vec<T>) -> (r: Vec<T>)
    ensures
        r@ == v@,
{
    let mut r: Vec<T> = Vec::new();
    let mut i: usize = 0;
    while i < v.len()
        invariant
            i <= v@.len(),
            r@ == v@.take(i as int),
        decreases v@.len() - i,
    {
        r.push(v[i]);
        assert(r@ =~= v@.take(i + 1));
        i = i + 1;
    }
    assert(v@.take(i as int) =~= v@);
    r
}

impl MirVisitor {
    /// Both engines are well formed.
    pub open spec fn wf(&self) -> bool {
        self.stacked_borrows.wf() && self.alias_graph.wf()
    }

    /// The abstract state of the activation.
    pub open spec fn state(&self) -> VisitState {
        VisitState {
            stack: self.stacked_borrows@,
            graph: self.alias_graph@,
            events: self.diagnostics@,
        }
    }

    /// The fields that only `visit_body` sets are left alone.
    pub open spec fn same_frame(&self, other: &MirVisitor) -> bool {
        &&& self.args@ == other.args@
        &&& self.function == other.function
        &&& self.local_declarations@ == other.local_declarations@
    }

    pub fn new(args: Vec<Operand>) -> (r: MirVisitor)
        ensures
            r.args@ == args@,
            r.wf(),
            r.state() == (VisitState {
                stack: Seq::empty(),
                graph: GraphView { vars: Map::empty(), nodes: Seq::empty(), edges: Set::empty() },
                events: Seq::empty(),
            }),
            r.local_declarations@ == Seq::<LocalDecl>::empty(),
    {
        MirVisitor {
            args,
            func_name: String::new(),
            function: 0,
            local_declarations: Vec::new(),
            variable_names: HashMap::new(),
            stacked_borrows: Stack::new(),
            alias_graph: PointsToGraph::new(),
            diagnostics: Vec::new(),
        }
    }

    pub fn place_to_tag(&self, place: &Place) -> (r: Tag)
        ensures
            r == Tag::Tagged(place.local),
    {
        Tag::Tagged(place.local)
    }

    /// Whether the slot of `place` holds a raw pointer; unknown slots do not.
    pub fn is_raw_ptr(&self, place: &Place) -> (r: bool)
        ensures
            r == local_is_raw(self.local_declarations@, place.local),
    {
        let i = place.local as usize;
        i < self.local_declarations.len() && self.local_declarations[i].is_raw_ptr
    }

    /// Whether `operand` reads a slot that holds a mutable reference or pointer.
    pub fn is_mutable(&self, operand: &Operand) -> (r: bool)
        ensures
            r == match *operand {
                Operand::Copy(p) => local_is_mut_ptr(self.local_declarations@, p.local),
                Operand::Move(p) => local_is_mut_ptr(self.local_declarations@, p.local),
                Operand::Constant => false,
            },
    {
        match operand {
            Operand::Copy(place) | Operand::Move(place) => {
                let i = place.local as usize;
                i < self.local_declarations.len() && self.local_declarations[i].is_mut_ptr
            },
            Operand::Constant => false,
        }
    }

    /// Whether `operand` reads a slot that holds a reference or pointer.
    fn is_pointer(&self, operand: &Operand) -> (r: bool)
        ensures
            r == carries_pointer(self.local_declarations@, *operand),
    {
        match operand {
            Operand::Copy(place) | Operand::Move(place) => {
                let i = place.local as usize;
                i < self.local_declarations.len() && self.local_declarations[i].is_ptr
            },
            Operand::Constant => false,
        }
    }

    /// The slot an operand reads; slot 0 for a constant.
    pub fn operand_as_u32(&self, operand: &Operand) -> (r: u32)
        ensures
            r == operand_slot(*operand),
    {
        match operand {
            Operand::Copy(place) | Operand::Move(place) => place.local,
            Operand::Constant => 0,
        }
    }

    /// The source-level name of a slot, else its number.
    pub fn get_variable_name(&self, place: u32) -> (r: String)
        ensures
            r@ == if self.variable_names@.contains_key(place) {
                self.variable_names@[place]@
            } else {
                decimal(place as nat)
            },
    {
        match self.variable_names.get(&place) {
            Some(name) => name.clone(),
            None => decimal_string(place),
        }
    }

    /// Records a refused access.
    fn record(&mut self, r: Result<(), AccessError>)
        ensures
            final(self).diagnostics@ == match r {
                Ok(_) => old(self).diagnostics@,
                Err(e) => old(self).diagnostics@.push(
                    Diagnostic::AccessViolation { function: old(self).function, error: e },
                ),
            },
            final(self).stacked_borrows == old(self).stacked_borrows,
            final(self).alias_graph == old(self).alias_graph,
            final(self).same_frame(old(self)),
    {
        if let Err(e) = r {
            self.diagnostics.push(Diagnostic::AccessViolation { function: self.function, error: e });
        }
    }

    fn use_tag(&mut self, tag: Tag)
        requires
            old(self).wf(),
        ensures
            final(self).wf(),
            final(self).state() == st_use(old(self).state(), old(self).function, tag),
            final(self).same_frame(old(self)),
    {
        let r = self.stacked_borrows.use_value(tag);
        self.record(r);
    }

    fn read_tag(&mut self, tag: Tag)
        requires
            old(self).wf(),
        ensures
            final(self).wf(),
            final(self).state() == st_read(old(self).state(), old(self).function, tag),
            final(self).same_frame(old(self)),
    {
        let r = self.stacked_borrows.read_value(tag);
        self.record(r);
    }

    fn push_tag(&mut self, tag: Tag, permission: Permission)
        requires
            old(self).wf(),
        ensures
            final(self).wf(),
            final(self).state() == st_new_ref(old(self).state(), tag, permission),
            final(self).same_frame(old(self)),
    {
        self.stacked_borrows.new_ref(tag, permission);
    }

    fn mark_value(&mut self, slot: u32)
        requires
            old(self).wf(),
        ensures
            final(self).wf(),
            final(self).state() == st_value(old(self).state(), slot),
            final(self).same_frame(old(self)),
    {
        self.alias_graph.constant(slot);
    }

    /// Registers `target` if needed, then records that `slot` points to it.
    fn link(&mut self, slot: u32, target: u32)
        requires
            old(self).wf(),
        ensures
            final(self).wf(),
            final(self).state() == st_points_to(old(self).state(), slot, target),
            final(self).same_frame(old(self)),
    {
        if !self.alias_graph.does_variable_exits(target) {
            self.alias_graph.constant(target);
        }
        self.alias_graph.points_to(slot, target);
    }

    /// Reads an operand; see `operand_effect`.
    pub fn visit_operand(&mut self, operand: &Operand)
        requires
            old(self).wf(),
        ensures
            final(self).wf(),
            final(self).state() == operand_effect(
                old(self).state(),
                old(self).local_declarations@,
                old(self).function,
                *operand,
            ),
            final(self).same_frame(old(self)),
    {
        match operand {
            Operand::Move(place) => {
                if !place.indirect {
                    let tag = self.place_to_tag(place);
                    if self.is_raw_ptr(place) {
                        let r = self.stacked_borrows.use_raw(tag);
                        self.record(r);
                    } else {
                        self.use_tag(tag);
                    }
                }
            },
            Operand::Copy(place) => {
                let tag = self.place_to_tag(place);
                if self.is_raw_ptr(place) {
                    let r = self.stacked_borrows.read_raw(tag);
                    self.record(r);
                } else {
                    self.read_tag(tag);
                }
            },
            Operand::Constant => {},
        }
    }

    /// Reads operands in order.
    fn visit_operands(&mut self, operands: &Vec<Operand>)
        requires
            old(self).wf(),
        ensures
            final(self).wf(),
            final(self).state() == operands_effect(
                old(self).state(),
                old(self).local_declarations@,
                old(self).function,
                operands@,
            ),
            final(self).same_frame(old(self)),
    {
        let mut i: usize = 0;
        while i < operands.len()
            invariant
                i <= operands@.len(),
                self.wf(),
                self.same_frame(old(self)),
                self.state() == operands_effect(
                    old(self).state(),
                    old(self).local_declarations@,
                    old(self).function,
                    operands@.take(i as int),
                ),
            decreases operands@.len() - i,
        {
            assert(operands@.take(i + 1).drop_last() =~= operands@.take(i as int));
            self.visit_operand(&operands[i]);
            i = i + 1;
        }
        assert(operands@.take(i as int) =~= operands@);
    }

    /// Writes a place; see `add_to_stack_effect`.
    pub fn add_to_stack(&mut self, place: &Place)
        requires
            old(self).wf(),
        ensures
            final(self).wf(),
            final(self).state() == add_to_stack_effect(old(self).state(), old(self).function, *place),
            final(self).same_frame(old(self)),
    {
        let tag = self.place_to_tag(place);
        if !place.indirect {
            self.push_tag(tag, Permission::Unique);
        }
        self.use_tag(tag);
    }

    /// Writes a plain value into a place.
    fn write_plain_value(&mut self, place: &Place)
        requires
            old(self).wf(),
        ensures
            final(self).wf(),
            final(self).state() == plain_value_effect(old(self).state(), old(self).function, *place),
            final(self).same_frame(old(self)),
    {
        self.add_to_stack(place);
        self.mark_value(place.local);
    }

    /// Interprets `place = rvalue`; see `assign_effect`.
    pub fn visit_assign(&mut self, place: &Place, rvalue: &Rvalue)
        requires
            old(self).wf(),
        ensures
            final(self).wf(),
            final(self).state() == assign_effect(
                old(self).state(),
                old(self).local_declarations@,
                old(self).function,
                *place,
                *rvalue,
            ),
            final(self).same_frame(old(self)),
    {
        let variable = place.local;
        let tag = self.place_to_tag(place);
        match rvalue {
            Rvalue::Use(operand) => {
                self.visit_operand(operand);
                self.add_to_stack(place);
                if !place.indirect {
                    self.mark_value(variable);
                }
                if self.is_pointer(operand) {
                    let source = self.operand_as_u32(operand);
                    self.link(variable, source);
                }
            },
            Rvalue::Ref { mutable, place: referent } => {
                let source = self.place_to_tag(referent);
                if *mutable {
                    self.use_tag(source);
                    self.push_tag(tag, Permission::Unique);
                } else {
                    self.read_tag(source);
                    self.push_tag(tag, Permission::SharedReadOnly);
                }
                self.link(variable, referent.local);
            },
            Rvalue::AddressOf(referent) => {
                let source = self.place_to_tag(referent);
                self.use_tag(source);
                self.push_tag(tag, Permission::SharedReadWrite);
                self.link(variable, referent.local);
            },
            Rvalue::Aggregate(operands) => {
                self.visit_operands(operands);
                self.write_plain_value(place);
            },
            Rvalue::Cast { operand, sizes } => {
                if let Some((from, to)) = sizes {
                    if *from > *to {
                        self.diagnostics.push(
                            Diagnostic::NarrowingCast {
                                function: self.function,
                                from_bytes: *from,
                                to_bytes: *to,
                            },
                        );
                    }
                }
                self.visit_operand(operand);
                self.write_plain_value(place);
            },
            Rvalue::BinaryOp(operand1, operand2) => {
                self.visit_operand(operand2);
                self.visit_operand(operand1);
                self.write_plain_value(place);
            },
            Rvalue::UnaryOp(operand) => {
                self.visit_operand(operand);
                self.write_plain_value(place);
            },
            Rvalue::NullaryOp => {
                self.write_plain_value(place);
            },
            Rvalue::ShallowInitBox(operand) => {
                self.add_to_stack(place);
                let target = self.operand_as_u32(operand);
                self.link(variable, target);
            },
            Rvalue::Discriminant(_) => {
                self.write_plain_value(place);
            },
            Rvalue::Unsupported => {
                self.diagnostics.push(Diagnostic::UnsupportedRvalue { function: self.function });
            },
        }
    }

    /// Interprets one statement; see `statement_effect`.
    pub fn visit_statement(&mut self, statement: &Statement)
        requires
            old(self).wf(),
        ensures
            final(self).wf(),
            final(self).state() == statement_effect(
                old(self).state(),
                old(self).local_declarations@,
                old(self).function,
                *statement,
            ),
            final(self).same_frame(old(self)),
    {
        match statement {
            Statement::Assign(place, rvalue) => self.visit_assign(place, rvalue),
            Statement::SetDiscriminant(place) => self.add_to_stack(place),
            Statement::StorageLive(_) | Statement::StorageDead(_) => {},
            Statement::Unsupported => {
                self.diagnostics.push(Diagnostic::UnsupportedStatement { function: self.function });
            },
        }
    }

    /// Seeds one `Unique` entry and one node per parameter: one per caller
    /// argument, or one per declared parameter when there are no arguments.
    pub fn push_args(&mut self, arg_count: usize)
        requires
            old(self).wf(),
        ensures
            final(self).wf(),
            final(self).state() == seed_effect(
                old(self).state(),
                slot_count(
                    if old(self).args@.len() > 0 {
                        old(self).args@.len()
                    } else {
                        arg_count as nat
                    },
                ),
            ),
            final(self).same_frame(old(self)),
    {
        let n = if self.args.len() > 0 {
            self.args.len()
        } else {
            arg_count
        };
        let mut index: u32 = 0;
        while (index as usize) < n && index < u32::MAX
            invariant
                self.wf(),
                self.same_frame(old(self)),
                index as nat <= slot_count(n as nat),
                self.state() == seed_effect(old(self).state(), index as nat),
            decreases u32::MAX - index,
        {
            index = index + 1;
            self.push_tag(Tag::Tagged(index), Permission::Unique);
            self.mark_value(index);
        }
    }

    /// The first pair of `slots`, in order, that may alias.
    fn find_aliasing_pair(&self, slots: &Vec<u32>) -> (r: Option<(u32, u32)>)
        requires
            self.wf(),
        ensures
            r == first_aliasing_pair(self.alias_graph@, slots@),
    {
        let ghost g = self.alias_graph@;
        let ghost s = slots@;
        let mut i: usize = 0;
        assert(s.skip(0) =~= s);
        while i < slots.len()
            invariant
                self.wf(),
                g == self.alias_graph@,
                s == slots@,
                i <= s.len(),
                first_aliasing_pair(g, s) == first_aliasing_pair(g, s.skip(i as int)),
            decreases s.len() - i,
        {
            let x = slots[i];
            let ghost rest = s.skip(i + 1);
            assert(s.skip(i as int).drop_first() =~= rest);
            assert(s.skip(i as int)[0] == x);
            let mut j: usize = i + 1;
            assert(s.skip(j as int) =~= rest);
            while j < slots.len()
                invariant
                    self.wf(),
                    g == self.alias_graph@,
                    s == slots@,
                    i < j <= s.len(),
                    x == s[i as int],
                    rest == s.skip(i + 1),
                    first_aliasing_pair(g, s) == first_aliasing_pair(g, s.skip(i as int)),
                    s.skip(i as int).drop_first() == rest,
                    s.skip(i as int)[0] == x,
                    alias_partner(g, x, rest) == alias_partner(g, x, s.skip(j as int)),
                decreases s.len() - j,
            {
                let y = slots[j];
                assert(s.skip(j as int)[0] == y);
                assert(s.skip(j as int).drop_first() =~= s.skip(j + 1));
                if self.alias_graph.are_alias(x, y) {
                    return Some((x, y));
                }
                j = j + 1;
            }
            assert(s.skip(j as int).len() == 0);
            i = i + 1;
        }
        None
    }

    /// Reports the first pair of mutable arguments that may alias.
    fn check_mutable_args(&mut self, args: &Vec<Operand>)
        requires
            old(self).wf(),
        ensures
            final(self).wf(),
            final(self).state() == alias_check_effect(
                old(self).state(),
                old(self).local_declarations@,
                old(self).function,
                args@,
            ),
            final(self).same_frame(old(self)),
    {
        let mut slots: Vec<u32> = Vec::new();
        let mut i: usize = 0;
        while i < args.len()
            invariant
                i <= args@.len(),
                slots@ == mutable_arg_slots(self.local_declarations@, args@.take(i as int)),
            decreases args@.len() - i,
        {
            assert(args@.take(i + 1).drop_last() =~= args@.take(i as int));
            if self.is_mutable(&args[i]) {
                let slot = self.operand_as_u32(&args[i]);
                slots.push(slot);
            }
            i = i + 1;
        }
        assert(args@.take(i as int) =~= args@);
        if let Some((first, second)) = self.find_aliasing_pair(&slots) {
            self.diagnostics.push(
                Diagnostic::AliasedMutableArguments { function: self.function, first, second },
            );
        }
    }

    /// Interprets the callee's body with `args`, merges its graph into this
    /// one with parameters mapped onto argument slots, and appends its
    /// findings. `depth` is this activation's remaining call depth.
    fn follow_call(&mut self, program: &Program, args: &Vec<Operand>, callee: usize, depth: usize)
        requires
            old(self).wf(),
            callee < program.bodies@.len(),
            depth > 0,
        ensures
            final(self).wf(),
            final(self).state() == follow_effect(*program, old(self).state(), args@, callee, depth as nat),
            final(self).same_frame(old(self)),
        decreases depth, 0nat, 0nat,
    {
        let mut visitor = MirVisitor::new(copy_vec(args));
        visitor.visit_body(program, callee, depth - 1);
        let ghost inner = visitor.state();
        let ghost g0 = self.alias_graph@;
        let mut arg_refs: HashMap<u32, u32> = HashMap::new();
        let mut i: usize = 0;
        assert(arg_refs@ =~= param_map(args@.take(0)));
        while i < args.len()
            invariant
                i <= args@.len(),
                self.wf(),
                self.same_frame(old(self)),
                self.stacked_borrows@ == old(self).stacked_borrows@,
                self.diagnostics@ == old(self).diagnostics@,
                self.alias_graph@ == register_args(g0, args@.take(i as int)),
                arg_refs@ == param_map(args@.take(i as int)),
                forall|w: u32| #[trigger]
                    arg_refs@.contains_key(w) ==> self.alias_graph@.vars.contains_key(arg_refs@[w]),
            decreases args@.len() - i,
        {
            let ghost before = self.alias_graph@;
            assert(args@.take(i + 1).drop_last() =~= args@.take(i as int));
            match args[i] {
                Operand::Copy(place) | Operand::Move(place) => {
                    if !self.alias_graph.does_variable_exits(place.local) {
                        self.alias_graph.constant(place.local);
                    }
                    assert forall|w: u32| #[trigger] before.vars.contains_key(w) implies self.alias_graph@.vars.contains_key(w) by {}
                    if i < u32::MAX as usize {
                        arg_refs.insert((i + 1) as u32, place.local);
                    }
                },
                Operand::Constant => {},
            }
            assert(arg_refs@ =~= param_map(args@.take(i + 1)));
            i = i + 1;
        }
        assert(args@.take(i as int) =~= args@);
        self.alias_graph.extend(visitor.alias_graph.graph, arg_refs);
        let ghost merged = self.alias_graph@;
        let mut k: usize = 0;
        while k < visitor.diagnostics.len()
            invariant
                self.wf(),
                self.same_frame(old(self)),
                self.stacked_borrows@ == old(self).stacked_borrows@,
                self.alias_graph@ == merged,
                k <= inner.events.len(),
                visitor.diagnostics@ == inner.events,
                self.diagnostics@ == old(self).diagnostics@ + inner.events.take(k as int),
            decreases inner.events.len() - k,
        {
            self.diagnostics.push(visitor.diagnostics[k]);
            assert(self.diagnostics@ =~= old(self).diagnostics@ + inner.events.take(k + 1));
            k = k + 1;
        }
        assert(inner.events.take(k as int) =~= inner.events);
    }

    /// Interprets one terminator; see `terminator_effect`.
    pub fn visit_terminator(&mut self, program: &Program, terminator: &Terminator, depth: usize)
        requires
            old(self).wf(),
        ensures
            final(self).wf(),
            final(self).state() == terminator_effect(
                *program,
                old(self).state(),
                old(self).local_declarations@,
                old(self).function,
                *terminator,
                depth as nat,
            ),
            final(self).same_frame(old(self)),
        decreases depth, 1nat, 0nat,
    {
        match terminator {
            Terminator::Call { args, destination, callee } => {
                self.visit_operands(args);
                self.check_mutable_args(args);
                if let Some(c) = callee {
                    if *c < program.bodies.len() {
                        if depth == 0 {
                            self.diagnostics.push(
                                Diagnostic::CallDepthExceeded { function: self.function, callee: *c },
                            );
                        } else {
                            self.follow_call(program, args, *c, depth);
                        }
                    }
                }
                if let Some(place) = destination {
                    let tag = self.place_to_tag(place);
                    if !place.indirect {
                        self.push_tag(tag, Permission::Unique);
                        self.mark_value(place.local);
                    }
                    self.use_tag(tag);
                }
            },
            Terminator::Assert(cond) => self.visit_operand(cond),
            Terminator::SwitchInt(discr) => self.visit_operand(discr),
            Terminator::Drop => self.stacked_borrows.clean(),
            Terminator::Goto | Terminator::Return | Terminator::Resume | Terminator::Unreachable => {},
            Terminator::Unsupported => {
                self.diagnostics.push(Diagnostic::UnsupportedTerminator { function: self.function });
            },
        }
    }

    /// Interprets one basic block: its statements in order, then its terminator.
    pub fn visit_basic_block_data(&mut self, program: &Program, data: &BasicBlock, depth: usize)
        requires
            old(self).wf(),
        ensures
            final(self).wf(),
            final(self).state() == block_effect(
                *program,
                old(self).state(),
                old(self).local_declarations@,
                old(self).function,
                *data,
                depth as nat,
            ),
            final(self).same_frame(old(self)),
        decreases depth, 2nat, 0nat,
    {
        let mut i: usize = 0;
        while i < data.statements.len()
            invariant
                i <= data.statements@.len(),
                self.wf(),
                self.same_frame(old(self)),
                self.state() == statements_effect(
                    old(self).state(),
                    old(self).local_declarations@,
                    old(self).function,
                    data.statements@.take(i as int),
                ),
            decreases data.statements@.len() - i,
        {
            assert(data.statements@.take(i + 1).drop_last() =~= data.statements@.take(i as int));
            self.visit_statement(&data.statements[i]);
            i = i + 1;
        }
        assert(data.statements@.take(i as int) =~= data.statements@);
        if let Some(terminator) = &data.terminator {
            self.visit_terminator(program, terminator, depth);
        }
    }

    /// Interprets body `index` of `program` as an activation called with
    /// `self.args`, following calls at most `depth` levels deep.
    pub fn visit_body(&mut self, program: &Program, index: usize, depth: usize)
        requires
            old(self).wf(),
            index < program.bodies@.len(),
        ensures
            final(self).wf(),
            final(self).state() == body_effect(
                *program,
                index,
                old(self).args@,
                depth as nat,
                old(self).state(),
            ),
            final(self).args@ == old(self).args@,
            final(self).function == index,
            final(self).local_declarations@ == program.bodies@[index as int].locals@,
        decreases depth, 4nat, 0nat,
    {
        let body = &program.bodies[index];
        self.func_name = body.name.clone();
        self.function = index;
        let mut j: usize = 0;
        while j < body.var_names.len()
            invariant
                j <= body.var_names@.len(),
                self.wf(),
                self.state() == old(self).state(),
                self.args@ == old(self).args@,
                self.function == index,
            decreases body.var_names@.len() - j,
        {
            let (slot, name) = &body.var_names[j];
            self.variable_names.insert(*slot, name.clone());
            j = j + 1;
        }
        self.stacked_borrows.set_names(self.variable_names.clone());
        self.push_args(body.arg_count);
        self.local_declarations = copy_vec(&body.locals);
        let ghost seeded = self.state();
        let mut i: usize = 0;
        while i < body.blocks.len()
            invariant
                i <= body.blocks@.len(),
                self.wf(),
                self.function == index,
                self.args@ == old(self).args@,
                self.local_declarations@ == body.locals@,
                self.state() == blocks_effect(
                    *program,
                    seeded,
                    body.locals@,
                    index,
                    body.blocks@.take(i as int),
                    depth as nat,
                ),
            decreases body.blocks@.len() - i,
        {
            assert(body.blocks@.take(i + 1).drop_last() =~= body.blocks@.take(i as int));
            self.visit_basic_block_data(program, &body.blocks[i], depth);
            i = i + 1;
        }
        assert(body.blocks@.take(i as int) =~= body.blocks@);
    }

}

} // verus!
