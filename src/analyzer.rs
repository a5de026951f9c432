use vstd::prelude::*;

use crate::mir::Program;
use crate::mir_visitor::MirVisitor;
use crate::semantics::{body_effect, initial_state};
use crate::points_to::suspects_upto;
use crate::stacked_borrows::{has_tag, StackItem, Tag};

verus! {

/// The result of analysing an entry function.
pub struct Analysis {
    /// The entry activation after interpretation: its final permission
    /// stack, points-to graph and findings.
    pub visitor: MirVisitor,
    /// The aliasing suspects whose tags are no longer on the permission
    /// stack: slots that may be dead.
    pub dead: Vec<u32>,
}

/// The slots of `suspects`, in order, whose tags are not on `stack`.
pub open spec fn dead_slots(stack: Seq<StackItem>, suspects: Seq<u32>) -> Seq<u32>
    decreases suspects.len(),
{
    if suspects.len() == 0 {
        Seq::empty()
    } else {
        let r = dead_slots(stack, suspects.drop_last());
        if has_tag(stack, Tag::Tagged(suspects.last())) {
            r
        } else {
            r.push(suspects.last())
        }
    }
}

/// Interprets body `entry` of `program` with no caller context, following
/// calls at most `max_depth` levels deep, then lists the aliasing suspects
/// of its points-to graph that have lost their permission. `None` when there
/// is no body `entry`.
pub fn analyze(program: &Program, entry: usize, max_depth: usize) -> (r: Option<Analysis>)
    ensures
        r is None <==> entry >= program.bodies@.len(),
        r matches Some(a) ==> {
            &&& a.visitor.state() == body_effect(
                *program,
                entry,
                Seq::empty(),
                max_depth as nat,
                initial_state(),
            )
            &&& a.visitor.wf()
            &&& a.dead@ == dead_slots(
                a.visitor.state().stack,
                suspects_upto(
                    a.visitor.state().graph.nodes,
                    a.visitor.state().graph.edges,
                    a.visitor.state().graph.nodes.len(),
                ),
            )
        },
{
    if entry >= program.bodies.len() {
        return None;
    }
    let mut visitor = MirVisitor::new(Vec::new());
    visitor.visit_body(program, entry, max_depth);
    let alias_vec = visitor.alias_graph.aliasing_test();
    let mut dead: Vec<u32> = Vec::new();
    let mut i: usize = 0;
    while i < alias_vec.len()
        invariant
            i <= alias_vec@.len(),
            dead@ == dead_slots(visitor.stacked_borrows@, alias_vec@.take(i as int)),
        decreases alias_vec@.len() - i,
    {
        assert(alias_vec@.take(i + 1).drop_last() =~= alias_vec@.take(i as int));
        let may_alias_var = alias_vec[i];
        if !visitor.stacked_borrows.is_live(Tag::Tagged(may_alias_var)) {
            dead.push(may_alias_var);
        }
        i = i + 1;
    }
    assert(alias_vec@.take(i as int) =~= alias_vec@);
    Some(Analysis { visitor, dead })
}

} // verus!
