//! Derived pass-name snapshots owned by the renderer boundary, not by a version-only cache.
use crate::graph_spec::is_topological_order;
use crate::render_graph::{dfs_order, pass_ids, search_error, CompiledRenderGraph, RenderGraph, RenderGraphError, RenderPassId};
use std::sync::Arc;
use vstd::prelude::*;

verus! {

/// Work performed by one successful preparation, not allocator or timing telemetry.
#[derive(Clone, Copy, Debug, Default, PartialEq, Eq, Structural)]
pub struct RenderPlanPreparationStats {
    /// Passes in the prepared execution order.
    pub passes: usize,
    /// Whether this call rebuilt the name snapshot.
    pub refreshed_names: bool,
    /// UTF-8 name payload copied by this call; excludes headers/capacity/Arc storage.
    pub copied_name_bytes: usize,
}

/// UTF-8 byte length of a name.
pub open spec fn utf8_len(s: Seq<char>) -> nat {
    vstd::utf8::encode_utf8(s).len()
}

/// Total UTF-8 bytes of a list of names.
pub open spec fn total_utf8_len(names: Seq<Seq<char>>) -> nat
    decreases names.len(),
{
    if names.len() == 0 {
        0
    } else {
        total_utf8_len(names.drop_last()) + utf8_len(names.last())
    }
}

/// Names of the passes of `order`, in order.
pub open spec fn ordered_names(names: Seq<Seq<char>>, order: Seq<usize>) -> Seq<Seq<char>> {
    order.map_values(|p: usize| names[p as int])
}

/// Views of a list of strings.
pub open spec fn string_views(s: Seq<String>) -> Seq<Seq<char>> {
    s.map_values(|x: String| x@)
}

/// Same plan allocation test; equal allocations hold equal plans.
#[verifier::external_body]
fn same_allocation(a: &Arc<CompiledRenderGraph>, b: &Arc<CompiledRenderGraph>) -> (r: bool)
    ensures
        r ==> **a == **b,
{
    Arc::ptr_eq(a, b)
}

/// Retains the last successful plan and its ordered pass names.
///
/// Reuse is based on a live Arc allocation identity, not topology version, length,
/// raw address, or graph location. An old plan is retained during comparison, so
/// replacing a graph cannot reuse an allocator address while that snapshot lives.
#[derive(Clone, Debug)]
pub struct RenderPlanPreparation {
    plan: Option<Arc<CompiledRenderGraph>>,
    names: Vec<String>,
}

impl Default for RenderPlanPreparation {
    fn default() -> (r: Self)
        ensures
            r.plan_spec() is None,
            r.names_spec() == Seq::<Seq<char>>::empty(),
    {
        Self::new()
    }
}

impl RenderPlanPreparation {
    /// The plan of the last successful preparation.
    pub closed spec fn plan_spec(&self) -> Option<CompiledRenderGraph> {
        match self.plan {
            Some(plan) => Some(*plan),
            None => None,
        }
    }

    /// Names from the last successful preparation.
    pub closed spec fn names_spec(&self) -> Seq<Seq<char>> {
        string_views(self.names@)
    }

    /// One name per pass of the retained plan, and none without a plan.
    pub open spec fn wf(&self) -> bool {
        match self.plan_spec() {
            None => self.names_spec().len() == 0,
            Some(plan) => self.names_spec().len() == plan.execution_order@.len(),
        }
    }

    pub fn new() -> (r: Self)
        ensures
            r.plan_spec() is None,
            r.names_spec() == Seq::<Seq<char>>::empty(),
    {
        let r = RenderPlanPreparation { plan: None, names: Vec::new() };
        assert(r.names_spec() =~= Seq::<Seq<char>>::empty());
        r
    }

    /// Validates the graph and refreshes names only when the compiled snapshot changes.
    ///
    /// On error this object's last successful snapshot is kept unchanged.
    pub fn prepare(&mut self, graph: &mut RenderGraph) -> (r: Result<
        RenderPlanPreparationStats,
        RenderGraphError,
    >)
        requires
            old(graph).wf(),
            old(self).wf(),
        ensures
            final(self).wf(),
            final(graph).wf(),
            final(graph).deps() == old(graph).deps(),
            final(graph).names() == old(graph).names(),
            final(graph).version_spec() == old(graph).version_spec(),
            r is Ok <==> old(graph).compilable(),
            match r {
                Err(e) => {
                    &&& search_error(old(graph).deps(), e)
                    &&& dfs_order(old(graph).deps()) == Err::<Seq<RenderPassId>, RenderGraphError>(e)
                    &&& final(self).plan_spec() == old(self).plan_spec()
                    &&& final(self).names_spec() == old(self).names_spec()
                },
                Ok(stats) => {
                    &&& final(graph).cached() matches Some(plan) && {
                        &&& final(self).plan_spec() == Some(plan)
                        &&& stats.passes == plan.execution_order@.len()
                        &&& is_topological_order(old(graph).deps(), pass_ids(plan.execution_order@))
                    }
                    &&& old(self).plan_spec() is None ==> stats.refreshed_names
                    &&& stats.refreshed_names ==> {
                        let ordered = ordered_names(
                            old(graph).names(),
                            pass_ids(final(self).plan_spec()->Some_0.execution_order@),
                        );
                        &&& final(self).names_spec() == ordered
                        &&& stats.copied_name_bytes as nat == if total_utf8_len(ordered)
                            <= usize::MAX {
                            total_utf8_len(ordered)
                        } else {
                            usize::MAX as nat
                        }
                    }
                    &&& !stats.refreshed_names ==> {
                        &&& final(self).names_spec() == old(self).names_spec()
                        &&& old(self).plan_spec() == final(self).plan_spec()
                        &&& stats.copied_name_bytes == 0
                    }
                },
            },
    {
        let compiled = match graph.compile_shared() {
            Ok(plan) => plan,
            Err(e) => return Err(e),
        };
        let refreshed_names = match &self.plan {
            None => true,
            Some(old_plan) => !same_allocation(old_plan, &compiled),
        };
        let passes = compiled.execution_order.len();
        if !refreshed_names {
            return Ok(RenderPlanPreparationStats { passes, refreshed_names, copied_name_bytes: 0 });
        }
        let ghost order = pass_ids(compiled.execution_order@);
        let ghost all_names = graph.names();
        proof {
            graph.lemma_names_match_deps();
        }
        let mut names: Vec<String> = Vec::new();
        let mut copied: usize = 0;
        let mut i: usize = 0;
        while i < passes
            invariant
                passes == compiled.execution_order@.len(),
                order == pass_ids(compiled.execution_order@),
                all_names == graph.names(),
                all_names.len() == graph.deps().len(),
                is_topological_order(graph.deps(), order),
                i <= passes,
                string_views(names@) == ordered_names(all_names, order.take(i as int)),
                copied as nat == if total_utf8_len(ordered_names(all_names, order.take(i as int)))
                    <= usize::MAX {
                    total_utf8_len(ordered_names(all_names, order.take(i as int)))
                } else {
                    usize::MAX as nat
                },
            decreases passes - i,
        {
            let pass = compiled.execution_order[i];
            proof {
                assert(order[i as int] == pass.0);
            }
            let name = match graph.pass_name(pass) {
                Some(name) => name,
                None => {
                    proof {
                        assert(false);
                    }
                    return Err(RenderGraphError::MissingPass(pass));
                },
            };
            let ghost before = names@;
            let ghost prefix = ordered_names(all_names, order.take(i as int));
            let owned = name.to_owned();
            let bytes = name.as_bytes().len();
            names.push(owned);
            copied = copied.saturating_add(bytes);
            proof {
                let next = ordered_names(all_names, order.take(i + 1));
                assert(next =~= prefix.push(all_names[pass.0 as int]));
                assert(next.drop_last() =~= prefix);
                assert(next.last() == all_names[pass.0 as int]);
                assert(bytes as nat == utf8_len(name@));
                assert(total_utf8_len(next) == total_utf8_len(prefix) + utf8_len(name@));
                assert(string_views(names@) =~= string_views(before).push(owned@));
            }
            i = i + 1;
        }
        proof {
            assert(order.take(passes as int) =~= order);
            assert(graph.names() == all_names);
        }
        self.names = names;
        self.plan = Some(compiled);
        Ok(RenderPlanPreparationStats { passes, refreshed_names, copied_name_bytes: copied })
    }

    /// Names from the most recent successful preparation, initially empty.
    pub fn pass_names(&self) -> (r: &[String])
        requires
            self.wf(),
        ensures
            string_views(r@) == self.names_spec(),
            match self.plan_spec() {
                None => r@.len() == 0,
                Some(plan) => r@.len() == plan.execution_order@.len(),
            },
    {
        self.names.as_slice()
    }

    /// Releases this object's snapshot. Other owners of the plan can keep it alive.
    pub fn clear(&mut self)
        ensures
            final(self).plan_spec() is None,
            final(self).names_spec() == Seq::<Seq<char>>::empty(),
    {
        *self = Self::new();
    }
}

} // verus!
