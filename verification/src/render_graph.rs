//! Backend-neutral deterministic dependency graph with topology-versioned plan caching.
use crate::graph_spec::{
    acyclic, has_missing_dependency, is_dependency_path, listed_before, is_topological_order, lemma_topological_order_witnesses_validity,
    on_cycle,
};
use std::sync::Arc;
use vstd::prelude::*;

verus! {

#[derive(Clone, Copy, Debug, PartialEq, Eq, Structural, Hash, PartialOrd, Ord)]
pub struct RenderPassId(pub usize);

#[derive(Clone, Copy, Debug, PartialEq, Eq, Structural)]
pub enum RenderGraphError {
    MissingPass(RenderPassId),
    Cycle(RenderPassId),
}

#[derive(Clone, Debug)]
struct RenderPass {
    name: String,
    dependencies: Vec<RenderPassId>,
}

/// Identifiers of a pass sequence.
pub open spec fn pass_ids(s: Seq<RenderPassId>) -> Seq<usize> {
    s.map_values(|p: RenderPassId| p.0)
}

#[derive(Clone, Debug, PartialEq, Eq)]
pub struct CompiledRenderGraph {
    pub version: u64,
    pub execution_order: Vec<RenderPassId>,
}

impl CompiledRenderGraph {
    /// An independent copy with the same version and order.
    pub fn duplicate(&self) -> (r: Self)
        ensures
            r.version == self.version,
            r.execution_order@ == self.execution_order@,
    {
        CompiledRenderGraph {
            version: self.version,
            execution_order: copy_ids(self.execution_order.as_slice()),
        }
    }
}

/// Element-wise copy of a pass list.
fn copy_ids(ids: &[RenderPassId]) -> (r: Vec<RenderPassId>)
    ensures
        r@ == ids@,
{
    let mut out: Vec<RenderPassId> = Vec::new();
    let mut i: usize = 0;
    while i < ids.len()
        invariant
            i <= ids@.len(),
            out@ == ids@.take(i as int),
        decreases ids@.len() - i,
    {
        out.push(ids[i]);
        i = i + 1;
        assert(out@ =~= ids@.take(i as int));
    }
    assert(ids@.take(ids@.len() as int) =~= ids@);
    out
}

/// Shares one plan allocation between its owners.
#[verifier::external_body]
fn share_plan(plan: &Arc<CompiledRenderGraph>) -> (r: Arc<CompiledRenderGraph>)
    ensures
        *r == **plan,
{
    Arc::clone(plan)
}

/// Number of unvisited (state 0) vertices.
pub open spec fn count_unvisited(s: Seq<u8>) -> nat
    decreases s.len(),
{
    if s.len() == 0 {
        0
    } else {
        count_unvisited(s.drop_last()) + if s.last() == 0 { 1nat } else { 0nat }
    }
}

pub proof fn lemma_count_unvisited_mark(s: Seq<u8>, i: int, value: u8)
    requires
        0 <= i < s.len(),
        value != 0,
    ensures
        count_unvisited(s.update(i, value)) + if s[i] == 0 { 1nat } else { 0nat }
            == count_unvisited(s),
    decreases s.len(),
{
    let t = s.update(i, value);
    if i == s.len() - 1 {
        assert(t.drop_last() =~= s.drop_last());
    } else {
        lemma_count_unvisited_mark(s.drop_last(), i, value);
        assert(t.drop_last() =~= s.drop_last().update(i, value));
    }
}

/// Dependencies not yet examined by the frames of a DFS stack.
spec fn pending(g: Seq<Seq<usize>>, stack: Seq<(usize, usize)>) -> int
    decreases stack.len(),
{
    if stack.len() == 0 {
        0
    } else {
        pending(g, stack.drop_last()) + (g[stack.last().0 as int].len() - stack.last().1)
    }
}

/// A frame's examined count never exceeds its dependency count.
spec fn frames_bounded(g: Seq<Seq<usize>>, stack: Seq<(usize, usize)>) -> bool {
    forall|j: int|
        0 <= j < stack.len() ==> (#[trigger] stack[j]).1 <= g[stack[j].0 as int].len()
}

proof fn lemma_pending_nonneg(g: Seq<Seq<usize>>, stack: Seq<(usize, usize)>)
    requires
        frames_bounded(g, stack),
    ensures
        pending(g, stack) >= 0,
    decreases stack.len(),
{
    if stack.len() > 0 {
        assert(frames_bounded(g, stack.drop_last())) by {
            assert forall|j: int| 0 <= j < stack.drop_last().len() implies (
            #[trigger] stack.drop_last()[j]).1 <= g[stack.drop_last()[j].0 as int].len() by {
                assert(stack.drop_last()[j] == stack[j]);
            }
        }
        lemma_pending_nonneg(g, stack.drop_last());
        assert(stack[stack.len() - 1] == stack.last());
    }
}

/// Dependency lists of a pass sequence.
spec fn deps_of(passes: Seq<RenderPass>) -> Seq<Seq<usize>> {
    passes.map_values(|p: RenderPass| pass_ids(p.dependencies@))
}

/// Names of a pass sequence.
spec fn names_of(passes: Seq<RenderPass>) -> Seq<Seq<char>> {
    passes.map_values(|p: RenderPass| p.name@)
}

/// Strictly increasing identifiers.
pub open spec fn strictly_sorted(s: Seq<usize>) -> bool {
    forall|i: int, j: int| 0 <= i < j < s.len() ==> (#[trigger] s[i]) < #[trigger] s[j]
}

/// Backend-neutral deterministic dependency graph with topology-versioned plan caching.
#[derive(Clone, Debug)]
pub struct RenderGraph {
    passes: Vec<RenderPass>,
    version: u64,
    cached_plan: Option<Arc<CompiledRenderGraph>>,
}

impl RenderGraph {
    /// Dependency lists, one per pass, sorted ascending.
    pub closed spec fn deps(&self) -> Seq<Seq<usize>> {
        deps_of(self.passes@)
    }

    /// Pass names in insertion order.
    pub closed spec fn names(&self) -> Seq<Seq<char>> {
        names_of(self.passes@)
    }

    pub closed spec fn version_spec(&self) -> u64 {
        self.version
    }

    /// The cached plan, if any.
    pub closed spec fn cached(&self) -> Option<CompiledRenderGraph> {
        match self.cached_plan {
            Some(plan) => Some(*plan),
            None => None,
        }
    }

    /// Whether a topological plan exists for the current dependencies.
    pub open spec fn compilable(&self) -> bool {
        !has_missing_dependency(self.deps()) && acyclic(self.deps())
    }

    pub closed spec fn wf(&self) -> bool {
        &&& self.passes@.len() <= usize::MAX
        &&& forall|v: int| 0 <= v < self.passes@.len() ==> strictly_sorted(#[trigger] self.deps()[v])
        &&& self.cached_plan matches Some(plan) ==> {
            &&& plan.version == self.version
            &&& is_topological_order(self.deps(), pass_ids(plan.execution_order@))
            &&& dfs_order(self.deps()) == Ok::<Seq<RenderPassId>, RenderGraphError>(plan.execution_order@)
        }
    }

    /// Every pass has a name and a dependency list.
    pub proof fn lemma_names_match_deps(&self)
        ensures
            self.names().len() == self.deps().len(),
    {
    }

    pub fn new() -> (g: Self)
        ensures
            g.wf(),
            g.deps() == Seq::<Seq<usize>>::empty(),
            g.names() == Seq::<Seq<char>>::empty(),
            g.version_spec() == 0,
            g.cached() is None,
    {
        let g = RenderGraph { passes: Vec::new(), version: 0, cached_plan: None };
        assert(g.deps() =~= Seq::<Seq<usize>>::empty());
        assert(g.names() =~= Seq::<Seq<char>>::empty());
        g
    }

    pub fn version(&self) -> (v: u64)
        ensures
            v == self.version_spec(),
    {
        self.version
    }

    fn invalidate(&mut self)
        ensures
            final(self).passes == old(self).passes,
            final(self).version == old(self).version.wrapping_add(1),
            final(self).cached_plan is None,
    {
        self.version = self.version.wrapping_add(1);
        self.cached_plan = None;
    }

    /// Appends a pass without dependencies and returns its identifier.
    pub fn add_pass(&mut self, name: &str) -> (id: RenderPassId)
        requires
            old(self).wf(),
            old(self).deps().len() < usize::MAX,
        ensures
            final(self).wf(),
            id.0 == old(self).deps().len(),
            final(self).deps() == old(self).deps().push(Seq::<usize>::empty()),
            final(self).names() == old(self).names().push(name@),
            final(self).version_spec() == old(self).version_spec().wrapping_add(1),
            final(self).cached() is None,
    {
        let id = RenderPassId(self.passes.len());
        self.passes.push(RenderPass { name: name.to_owned(), dependencies: Vec::new() });
        self.invalidate();
        proof {
            assert(pass_ids(Seq::<RenderPassId>::empty()) =~= Seq::<usize>::empty());
            assert(self.deps() =~= old(self).deps().push(Seq::<usize>::empty()));
            assert(self.names() =~= old(self).names().push(name@));
            assert forall|v: int| 0 <= v < self.passes@.len() implies strictly_sorted(
                #[trigger] self.deps()[v],
            ) by {
                if v < old(self).passes@.len() {
                    assert(self.deps()[v] == old(self).deps()[v]);
                }
            }
        }
        id
    }

    /// Position at which `dependency` belongs in a sorted list, and whether it is present.
    fn search_dependency(list: &Vec<RenderPassId>, dependency: RenderPassId) -> (r: (usize, bool))
        requires
            strictly_sorted(pass_ids(list@)),
        ensures
            r.0 <= list@.len(),
            forall|k: int| 0 <= k < r.0 ==> (#[trigger] list@[k]).0 < dependency.0 || (r.1 && k
                == r.0),
            r.1 <==> pass_ids(list@).contains(dependency.0),
            r.1 ==> r.0 < list@.len() && list@[r.0 as int].0 == dependency.0,
            !r.1 ==> forall|k: int| r.0 <= k < list@.len() ==> (#[trigger] list@[k]).0
                > dependency.0,
    {
        let mut i: usize = 0;
        while i < list.len()
            invariant
                i <= list@.len(),
                strictly_sorted(pass_ids(list@)),
                forall|k: int| 0 <= k < i ==> (#[trigger] list@[k]).0 < dependency.0,
            decreases list@.len() - i,
        {
            if list[i].0 == dependency.0 {
                proof {
                    assert(pass_ids(list@)[i as int] == dependency.0);
                }
                return (i, true);
            }
            if list[i].0 > dependency.0 {
                proof {
                    assert forall|k: int| i <= k < list@.len() implies (#[trigger] list@[k]).0
                        > dependency.0 by {
                        if k > i {
                            assert(pass_ids(list@)[i as int] < pass_ids(list@)[k]);
                        }
                    }
                    assert(!pass_ids(list@).contains(dependency.0)) by {
                        if pass_ids(list@).contains(dependency.0) {
                            let k = choose|k: int|
                                0 <= k < pass_ids(list@).len() && pass_ids(list@)[k]
                                    == dependency.0;
                            assert(list@[k].0 == dependency.0);
                        }
                    }
                }
                return (i, false);
            }
            i = i + 1;
        }
        proof {
            assert(!pass_ids(list@).contains(dependency.0)) by {
                if pass_ids(list@).contains(dependency.0) {
                    let k = choose|k: int|
                        0 <= k < pass_ids(list@).len() && pass_ids(list@)[k] == dependency.0;
                    assert(list@[k].0 == dependency.0);
                }
            }
        }
        (i, false)
    }

    /// Records that `pass` runs after `dependency`. Repeating an existing edge changes nothing.
    pub fn add_dependency(&mut self, pass: RenderPassId, dependency: RenderPassId) -> (r: Result<
        (),
        RenderGraphError,
    >)
        requires
            old(self).wf(),
        ensures
            final(self).wf(),
            final(self).names() == old(self).names(),
            (pass.0 as int) >= old(self).deps().len() ==> r == Err::<(), RenderGraphError>(
                RenderGraphError::MissingPass(pass),
            ),
            (pass.0 as int) < old(self).deps().len() && (dependency.0 as int) >= old(self).deps().len() ==> r == Err::<(), RenderGraphError>(
                RenderGraphError::MissingPass(dependency),
            ),
            r is Err ==> *final(self) == *old(self),
            r is Ok <==> (pass.0 as int) < old(self).deps().len() && (dependency.0 as int) < old(self).deps().len(),
            r is Ok ==> {
                &&& (pass.0 as int) < old(self).deps().len()
                &&& (dependency.0 as int) < old(self).deps().len()
                &&& if old(self).deps()[pass.0 as int].contains(dependency.0) {
                    *final(self) == *old(self)
                } else {
                    &&& final(self).deps().len() == old(self).deps().len()
                    &&& final(self).deps()[pass.0 as int].to_set() == old(self).deps()[pass.0 as int].to_set().insert(dependency.0)
                    &&& forall|v: int|
                        0 <= v < old(self).deps().len() && v != pass.0 ==> #[trigger] final(self).deps()[v] == old(self).deps()[v]
                    &&& final(self).version_spec() == old(self).version_spec().wrapping_add(1)
                    &&& final(self).cached() is None
                }
            },
    {
        if pass.0 >= self.passes.len() {
            return Err(RenderGraphError::MissingPass(pass));
        }
        if dependency.0 >= self.passes.len() {
            return Err(RenderGraphError::MissingPass(dependency));
        }
        proof {
            assert(self.deps()[pass.0 as int] == pass_ids(self.passes@[pass.0 as int].dependencies@));
        }
        let (position, present) = Self::search_dependency(&self.passes[pass.0].dependencies, dependency);
        if present {
            return Ok(());
        }
        let ghost old_list = self.passes@[pass.0 as int].dependencies@;
        let mut entry = self.take_pass(pass.0);
        entry.dependencies.insert(position, dependency);
        proof {
            lemma_sorted_insert(old_list, entry.dependencies@, position as int, dependency);
        }
        self.put_pass(pass.0, entry);
        self.invalidate();
        proof {
            assert forall|v: int| 0 <= v < self.passes@.len() implies strictly_sorted(
                #[trigger] self.deps()[v],
            ) by {
                if v != pass.0 {
                    assert(self.deps()[v] == old(self).deps()[v]);
                }
            }
            assert(self.names() =~= old(self).names());
        }
        Ok(())
    }

    /// Removes the edge `pass -> dependency`, returning whether it existed.
    pub fn remove_dependency(&mut self, pass: RenderPassId, dependency: RenderPassId) -> (r: Result<
        bool,
        RenderGraphError,
    >)
        requires
            old(self).wf(),
        ensures
            final(self).wf(),
            final(self).names() == old(self).names(),
            (pass.0 as int) >= old(self).deps().len() ==> r == Err::<bool, RenderGraphError>(
                RenderGraphError::MissingPass(pass),
            ),
            (pass.0 as int) < old(self).deps().len() && (dependency.0 as int) >= old(self).deps().len() ==> r == Err::<bool, RenderGraphError>(
                RenderGraphError::MissingPass(dependency),
            ),
            r is Err ==> *final(self) == *old(self),
            r matches Ok(removed) ==> {
                &&& (pass.0 as int) < old(self).deps().len()
                &&& (dependency.0 as int) < old(self).deps().len()
                &&& removed == old(self).deps()[pass.0 as int].contains(dependency.0)
                &&& !removed ==> *final(self) == *old(self)
                &&& removed ==> {
                    &&& final(self).deps().len() == old(self).deps().len()
                    &&& final(self).deps()[pass.0 as int].to_set() == old(self).deps()[pass.0 as int].to_set().remove(dependency.0)
                    &&& forall|v: int|
                        0 <= v < old(self).deps().len() && v != pass.0 ==> #[trigger] final(self).deps()[v] == old(self).deps()[v]
                    &&& final(self).version_spec() == old(self).version_spec().wrapping_add(1)
                    &&& final(self).cached() is None
                }
            },
    {
        if pass.0 >= self.passes.len() {
            return Err(RenderGraphError::MissingPass(pass));
        }
        if dependency.0 >= self.passes.len() {
            return Err(RenderGraphError::MissingPass(dependency));
        }
        proof {
            assert(self.deps()[pass.0 as int] == pass_ids(self.passes@[pass.0 as int].dependencies@));
        }
        let (position, present) = Self::search_dependency(&self.passes[pass.0].dependencies, dependency);
        if !present {
            return Ok(false);
        }
        let ghost old_list = self.passes@[pass.0 as int].dependencies@;
        let mut entry = self.take_pass(pass.0);
        let _removed = entry.dependencies.remove(position);
        proof {
            let ids = pass_ids(entry.dependencies@);
            let old_ids = pass_ids(old_list);
            assert forall|k: int| 0 <= k < ids.len() implies #[trigger] ids[k] == if k
                < position {
                old_ids[k]
            } else {
                old_ids[k + 1]
            } by {}
            assert(strictly_sorted(ids)) by {
                assert forall|a: int, b: int| 0 <= a < b < ids.len() implies (#[trigger] ids[a])
                    < #[trigger] ids[b] by {
                    if b < position {
                    } else if a < position {
                        assert(old_ids[a] < old_ids[b + 1]);
                    } else {
                        assert(old_ids[a + 1] < old_ids[b + 1]);
                    }
                }
            }
            assert(ids.to_set() =~= old_ids.to_set().remove(dependency.0)) by {
                assert forall|x: usize| ids.to_set().contains(x) implies old_ids.to_set().remove(
                    dependency.0,
                ).contains(x) by {
                    let k = choose|k: int| 0 <= k < ids.len() && ids[k] == x;
                    if k < position {
                        assert(old_ids[k] == x);
                        assert(old_ids[k] < old_ids[position as int]);
                    } else {
                        assert(old_ids[k + 1] == x);
                        assert(old_ids[position as int] < old_ids[k + 1]);
                    }
                }
                assert forall|x: usize| old_ids.to_set().remove(dependency.0).contains(x) implies ids.to_set().contains(x) by {
                    let k = choose|k: int| 0 <= k < old_ids.len() && old_ids[k] == x;
                    if k < position {
                        assert(ids[k] == x);
                    } else {
                        assert(k != position);
                        assert(ids[k - 1] == x);
                    }
                }
            }
        }
        self.put_pass(pass.0, entry);
        self.invalidate();
        proof {
            assert forall|v: int| 0 <= v < self.passes@.len() implies strictly_sorted(
                #[trigger] self.deps()[v],
            ) by {
                if v != pass.0 {
                    assert(self.deps()[v] == old(self).deps()[v]);
                }
            }
            assert(self.names() =~= old(self).names());
        }
        Ok(true)
    }

    /// Dependencies recorded for `pass`, in ascending order.
    pub fn dependencies(&self, pass: RenderPassId) -> (r: Option<&[RenderPassId]>)
        ensures
            match r {
                Some(list) => (pass.0 as int) < self.deps().len() && pass_ids(list@)
                    == self.deps()[pass.0 as int],
                None => (pass.0 as int) >= self.deps().len(),
            },
    {
        if pass.0 < self.passes.len() {
            Some(self.passes[pass.0].dependencies.as_slice())
        } else {
            None
        }
    }

    /// Records the edge `pass -> dependency` without checking that `dependency` exists.
    /// A dangling edge makes compilation report [`RenderGraphError::MissingPass`].
    pub fn add_dependency_unchecked(&mut self, pass: RenderPassId, dependency: RenderPassId) -> (r:
        Result<(), RenderGraphError>)
        requires
            old(self).wf(),
        ensures
            final(self).wf(),
            final(self).names() == old(self).names(),
            r is Err <==> (pass.0 as int) >= old(self).deps().len(),
            r is Err ==> r == Err::<(), RenderGraphError>(RenderGraphError::MissingPass(pass))
                && *final(self) == *old(self),
            r is Ok ==> {
                &&& final(self).deps().len() == old(self).deps().len()
                &&& final(self).deps()[pass.0 as int].to_set() == old(self).deps()[pass.0 as int].to_set().insert(dependency.0)
                &&& forall|v: int|
                    0 <= v < old(self).deps().len() && v != pass.0 ==> #[trigger] final(self).deps()[v] == old(self).deps()[v]
                &&& !old(self).deps()[pass.0 as int].contains(dependency.0) ==> final(self).cached() is None
            },
    {
        if pass.0 >= self.passes.len() {
            return Err(RenderGraphError::MissingPass(pass));
        }
        proof {
            assert(self.deps()[pass.0 as int] == pass_ids(self.passes@[pass.0 as int].dependencies@));
        }
        let (position, present) = Self::search_dependency(&self.passes[pass.0].dependencies, dependency);
        if present {
            return Ok(());
        }
        let ghost old_list = self.passes@[pass.0 as int].dependencies@;
        let mut entry = self.take_pass(pass.0);
        entry.dependencies.insert(position, dependency);
        proof {
            lemma_sorted_insert(old_list, entry.dependencies@, position as int, dependency);
        }
        self.put_pass(pass.0, entry);
        self.invalidate();
        proof {
            assert forall|v: int| 0 <= v < self.passes@.len() implies strictly_sorted(
                #[trigger] self.deps()[v],
            ) by {
                if v != pass.0 {
                    assert(self.deps()[v] == old(self).deps()[v]);
                }
            }
            assert(self.names() =~= old(self).names());
        }
        Ok(())
    }

    /// Drops every dependency of `pass`, returning whether there were any.
    pub fn clear_dependencies(&mut self, pass: RenderPassId) -> (r: Result<bool, RenderGraphError>)
        requires
            old(self).wf(),
        ensures
            final(self).wf(),
            final(self).names() == old(self).names(),
            r is Err <==> (pass.0 as int) >= old(self).deps().len(),
            r is Err ==> r == Err::<bool, RenderGraphError>(RenderGraphError::MissingPass(pass))
                && *final(self) == *old(self),
            r matches Ok(cleared) ==> {
                &&& cleared == (old(self).deps()[pass.0 as int].len() > 0)
                &&& !cleared ==> *final(self) == *old(self)
                &&& cleared ==> {
                    &&& final(self).deps() == old(self).deps().update(pass.0 as int, Seq::<usize>::empty())
                    &&& final(self).version_spec() == old(self).version_spec().wrapping_add(1)
                    &&& final(self).cached() is None
                }
            },
    {
        if pass.0 >= self.passes.len() {
            return Err(RenderGraphError::MissingPass(pass));
        }
        proof {
            assert(self.deps()[pass.0 as int] == pass_ids(self.passes@[pass.0 as int].dependencies@));
        }
        if self.passes[pass.0].dependencies.len() == 0 {
            return Ok(false);
        }
        let mut entry = self.take_pass(pass.0);
        entry.dependencies.clear();
        self.put_pass(pass.0, entry);
        self.invalidate();
        proof {
            assert(pass_ids(Seq::<RenderPassId>::empty()) =~= Seq::<usize>::empty());
            assert(self.deps() =~= old(self).deps().update(pass.0 as int, Seq::<usize>::empty()));
            assert forall|v: int| 0 <= v < self.passes@.len() implies strictly_sorted(
                #[trigger] self.deps()[v],
            ) by {
                if v != pass.0 {
                    assert(self.deps()[v] == old(self).deps()[v]);
                }
            }
            assert(self.names() =~= old(self).names());
        }
        Ok(true)
    }

    /// Sets the topology version and drops the cached plan, which belonged to the old version.
    pub fn force_version(&mut self, version: u64)
        requires
            old(self).wf(),
        ensures
            final(self).wf(),
            final(self).deps() == old(self).deps(),
            final(self).names() == old(self).names(),
            final(self).version_spec() == version,
            final(self).cached() is None,
    {
        self.version = version;
        self.cached_plan = None;
        proof {
            assert forall|v: int| 0 <= v < self.passes@.len() implies strictly_sorted(
                #[trigger] self.deps()[v],
            ) by {
                assert(self.deps()[v] == old(self).deps()[v]);
            }
        }
    }

    /// Moves pass `index` out, leaving an empty placeholder with the same name.
    fn take_pass(&mut self, index: usize) -> (entry: RenderPass)
        requires
            index < old(self).passes@.len(),
        ensures
            entry == old(self).passes@[index as int],
            final(self).passes@.len() == old(self).passes@.len(),
            forall|k: int| 0 <= k < old(self).passes@.len() && k != index ==> #[trigger] final(self).passes@[k] == old(self).passes@[k],
            final(self).version == old(self).version,
            final(self).cached_plan == old(self).cached_plan,
    {
        let mut placeholder = RenderPass { name: String::new(), dependencies: Vec::new() };
        let slot = &mut self.passes[index];
        std::mem::swap(slot, &mut placeholder);
        placeholder
    }

    /// Stores `entry` at pass `index`, keeping its name.
    fn put_pass(&mut self, index: usize, entry: RenderPass)
        requires
            index < old(self).passes@.len(),
        ensures
            final(self).passes@ == old(self).passes@.update(index as int, entry),
            final(self).version == old(self).version,
            final(self).cached_plan == old(self).cached_plan,
    {
        self.passes.set(index, entry);
    }

    pub fn pass_name(&self, pass: RenderPassId) -> (r: Option<&str>)
        ensures
            match r {
                Some(name) => (pass.0 as int) < self.names().len() && name@ == self.names()[pass.0 as int],
                None => (pass.0 as int) >= self.names().len(),
            },
    {
        if pass.0 < self.passes.len() {
            Some(self.passes[pass.0].name.as_str())
        } else {
            None
        }
    }

    pub fn cached_plan(&self) -> (r: Option<&CompiledRenderGraph>)
        ensures
            match r {
                Some(plan) => self.cached() == Some(*plan),
                None => self.cached() is None,
            },
    {
        match &self.cached_plan {
            Some(plan) => Some(&**plan),
            None => None,
        }
    }

    /// Computes the dependency-first order by an explicit-stack depth-first search.
    ///
    /// Roots are taken in ascending order and dependencies in their sorted order; the first
    /// missing dependency or back edge met is reported.
    fn plan_order(&self) -> (r: Result<Vec<RenderPassId>, RenderGraphError>)
        requires
            self.wf(),
        ensures
            match r {
                Ok(order) => is_topological_order(self.deps(), pass_ids(order@)),
                Err(e) => search_error(self.deps(), e),
            },
            match dfs_order(self.deps()) {
                Ok(o) => r matches Ok(order) && order@ == o,
                Err(e) => r == Err::<Vec<RenderPassId>, RenderGraphError>(e),
            },
    {
        let ghost g = self.deps();
        let n = self.passes.len();
        let mut states: Vec<u8> = vec![0u8; n];
        let mut order: Vec<RenderPassId> = Vec::new();
        proof {
            assert(states@ =~= Seq::new(g.len(), |i: int| 0u8));
            assert(order@ =~= Seq::<RenderPassId>::empty());
        }
        proof {
            assert forall|v: usize| (v as int) < n implies (#[trigger] states@[v as int] == 2
                <==> pass_ids(order@).contains(v)) by {}
        }
        let mut root: usize = 0;
        while root < n
            invariant
                self.wf(),
                n == g.len(),
                g == self.deps(),
                root <= n,
                finished_ok(g, states@, order@),
                forall|v: int| 0 <= v < n ==> #[trigger] states@[v] != 1,
                forall|v: int| 0 <= v < root ==> #[trigger] states@[v] == 2,
                dfs_roots(g, 0, Seq::new(g.len(), |i: int| 0u8), Seq::empty()) == dfs_roots(
                    g,
                    root as int,
                    states@,
                    order@,
                ),
            decreases n - root,
        {
            if states[root] == 0 {
                match self.visit_from(root, &mut states, &mut order) {
                    Ok(()) => {},
                    Err(e) => return Err(e),
                }
            } else {
                proof {
                    assert(dfs_visit(g, root as int, states@, order@) == DfsWalk::Done(states@, order@));
                }
            }
            root = root + 1;
        }
        proof {
            let ids = pass_ids(order@);
            assert forall|v: usize| (v as int) < g.len() implies #[trigger] ids.contains(v) by {
                assert(states@[v as int] == 2);
            }
            assert forall|i: int| 0 <= i < ids.len() implies (#[trigger] ids[i] as int) < g.len() by {
                assert(ids[i] == order@[i].0);
            }
            assert forall|i: int, j: int|
                0 <= i < ids.len() && 0 <= j < g[ids[i] as int].len() implies #[trigger] listed_before(g, ids, i, j) by {
                assert(ids[i] == order@[i].0);
                assert(finished_before(g, order@, i, j));
                let k = choose|k: int| 0 <= k < i && #[trigger] order@[k].0 == g[order@[i].0 as int][j];
                assert(ids[k] == order@[k].0);
            }
            assert(ids.no_duplicates());
            assert(is_topological_order(g, ids));
        }
        Ok(order)
    }

    /// Depth-first search from one unvisited root, appending finished passes to `order`.
    fn visit_from(&self, root: usize, states: &mut Vec<u8>, order: &mut Vec<RenderPassId>) -> (r:
        Result<(), RenderGraphError>)
        requires
            self.wf(),
            (root as int) < self.deps().len(),
            finished_ok(self.deps(), old(states)@, old(order)@),
            old(states)@[root as int] == 0,
            forall|v: int| 0 <= v < self.deps().len() ==> #[trigger] old(states)@[v] != 1,
        ensures
            match r {
                Ok(()) => dfs_visit(self.deps(), root as int, old(states)@, old(order)@) == DfsWalk::Done(
                    final(states)@,
                    final(order)@,
                ),
                Err(e) => dfs_visit(self.deps(), root as int, old(states)@, old(order)@) == DfsWalk::Failed(e),
            },
            match r {
                Ok(()) => {
                    &&& finished_ok(self.deps(), final(states)@, final(order)@)
                    &&& final(states)@[root as int] == 2
                    &&& forall|v: int| 0 <= v < self.deps().len() ==> #[trigger] final(states)@[v] != 1
                    &&& forall|v: int| 0 <= v < self.deps().len() && old(states)@[v] == 2 ==> #[trigger] final(states)@[v] == 2
                },
                Err(e) => search_error(self.deps(), e),
            },
    {
        let ghost g = self.deps();
        let n = self.passes.len();
        let mut stack: Vec<(usize, usize)> = Vec::new();
        let ghost before = states@;
        states.set(root, 1);
        stack.push((root, 0));
        proof {
            lemma_count_unvisited_mark(before, root as int, 1);
            lemma_start_search(g, before, order@, root);
            assert(stack@.drop_last() =~= Seq::<(usize, usize)>::empty());
            assert(dfs_visit(g, root as int, before, order@) == dfs_deps(g, root as int, 0, states@, order@));
            match dfs_deps(g, root as int, 0, states@, order@) {
                DfsWalk::Done(a, b) => {
                    assert(dfs_resume(g, stack@.drop_last(), a, b) == DfsWalk::Done(a, b));
                },
                DfsWalk::Failed(_) => {},
            }
        }
        while stack.len() > 0
            invariant
                n == g.len(),
                g == self.deps(),
                n <= usize::MAX,
                (root as int) < n,
                finished_ok(g, states@, order@),
                stack_ok(g, states@, stack@),
                states@[root as int] != 0,
                forall|v: int| 0 <= v < n && old(states)@[v] == 2 ==> #[trigger] states@[v] == 2,
                stack@.len() == 0 ==> forall|v: int| 0 <= v < n ==> #[trigger] states@[v] != 1,
                dfs_resume(g, stack@, states@, order@) == dfs_visit(g, root as int, old(states)@, old(order)@),
            decreases count_unvisited(states@), pending(g, stack@) + stack@.len(),
        {
            let top = stack.len() - 1;
            let (node, examined) = stack[top];
            let deps_len = self.passes[node].dependencies.len();
            proof {
                assert(deps_len == g[node as int].len());
                lemma_pending_nonneg(g, stack@);
            }
            if examined < deps_len {
                let dependency = self.passes[node].dependencies[examined];
                proof {
                    assert(dependency.0 == g[node as int][examined as int]);
                }
                let ghost old_stack = stack@;
                stack.set(top, (node, examined + 1));
                proof {
                    lemma_pending_step(g, old_stack, node, examined);
                }
                if dependency.0 >= n {
                    proof {
                        assert(dfs_deps(g, node as int, examined as int, states@, order@) == DfsWalk::Failed(
                            RenderGraphError::MissingPass(dependency),
                        ));
                    }
                    return Err(RenderGraphError::MissingPass(dependency));
                }
                let state = states[dependency.0];
                if state == 1 {
                    proof {
                        lemma_back_edge_is_cycle(g, states@, old_stack, dependency.0);
                        assert(dfs_visit(g, dependency.0 as int, states@, order@) == DfsWalk::Failed(
                            RenderGraphError::Cycle(dependency),
                        ));
                        assert(dfs_deps(g, node as int, examined as int, states@, order@) == DfsWalk::Failed(
                            RenderGraphError::Cycle(dependency),
                        ));
                    }
                    return Err(RenderGraphError::Cycle(dependency));
                }
                if state == 0 {
                    let ghost before = states@;
                    states.set(dependency.0, 1);
                    stack.push((dependency.0, 0));
                    proof {
                        lemma_count_unvisited_mark(before, dependency.0 as int, 1);
                        lemma_descend(g, before, order@, old_stack, dependency.0);
                        lemma_resume_descend(g, old_stack, before, order@);
                    }
                } else {
                    proof {
                        lemma_skip_finished(g, states@, order@, old_stack, dependency.0);
                        lemma_resume_skip(g, old_stack, states@, order@);
                    }
                }
            } else {
                let ghost before = states@;
                let ghost old_stack = stack@;
                let ghost old_order = order@;
                states.set(node, 2);
                order.push(RenderPassId(node));
                stack.pop();
                proof {
                    lemma_count_unvisited_mark(before, node as int, 2);
                    lemma_pending_pop(g, old_stack);
                    lemma_finish_frame(g, before, old_order, old_stack);
                    assert(stack@ =~= old_stack.drop_last());
                    assert(order@ =~= old_order.push(RenderPassId(node)));
                    assert(dfs_deps(g, node as int, examined as int, before, old_order) == DfsWalk::Done(
                        states@,
                        order@,
                    ));
                }
            }
        }
        Ok(())
    }

    /// Returns the shared cached plan when it is current, otherwise compiles and caches one.
    pub fn compile_shared(&mut self) -> (r: Result<Arc<CompiledRenderGraph>, RenderGraphError>)
        requires
            old(self).wf(),
        ensures
            final(self).wf(),
            final(self).deps() == old(self).deps(),
            final(self).names() == old(self).names(),
            final(self).version_spec() == old(self).version_spec(),
            r is Ok <==> old(self).compilable(),
            match dfs_order(old(self).deps()) {
                Ok(o) => r matches Ok(plan) && plan.execution_order@ == o,
                Err(e) => r == Err::<Arc<CompiledRenderGraph>, RenderGraphError>(e),
            },
            match r {
                Ok(plan) => {
                    &&& plan.version == old(self).version_spec()
                    &&& is_topological_order(old(self).deps(), pass_ids(plan.execution_order@))
                    &&& final(self).cached() == Some(*plan)
                    &&& old(self).cached() matches Some(previous) ==> *plan == previous
                },
                Err(e) => final(self).cached() is None && search_error(old(self).deps(), e),
            },
    {
        if let Some(plan) = &self.cached_plan {
            if plan.version == self.version {
                proof {
                    lemma_topological_order_witnesses_validity(self.deps(), pass_ids(plan.execution_order@));
                }
                return Ok(share_plan(plan));
            }
        }
        let ordered = self.plan_order();
        match ordered {
            Ok(execution_order) => {
                proof {
                    lemma_topological_order_witnesses_validity(self.deps(), pass_ids(execution_order@));
                }
                let plan = Arc::new(CompiledRenderGraph { version: self.version, execution_order });
                self.cached_plan = Some(share_plan(&plan));
                Ok(plan)
            },
            Err(error) => {
                proof {
                    match error {
                        RenderGraphError::MissingPass(d) => {}
                        RenderGraphError::Cycle(p) => {
                            assert(!acyclic(self.deps()));
                        }
                    }
                }
                self.cached_plan = None;
                Err(error)
            },
        }
    }

    /// Like [`Self::compile_shared`], returning an independent copy of the plan.
    pub fn compile(&mut self) -> (r: Result<CompiledRenderGraph, RenderGraphError>)
        requires
            old(self).wf(),
        ensures
            final(self).wf(),
            final(self).deps() == old(self).deps(),
            final(self).names() == old(self).names(),
            final(self).version_spec() == old(self).version_spec(),
            r is Ok <==> old(self).compilable(),
            match dfs_order(old(self).deps()) {
                Ok(o) => r matches Ok(plan) && plan.execution_order@ == o,
                Err(e) => r == Err::<CompiledRenderGraph, RenderGraphError>(e),
            },
            match r {
                Ok(plan) => {
                    &&& plan.version == old(self).version_spec()
                    &&& is_topological_order(old(self).deps(), pass_ids(plan.execution_order@))
                    &&& final(self).cached() matches Some(c) && c.version == plan.version
                        && c.execution_order@ == plan.execution_order@
                    &&& old(self).cached() matches Some(previous) ==> previous.execution_order@
                        == plan.execution_order@
                },
                Err(e) => final(self).cached() is None && search_error(old(self).deps(), e),
            },
    {
        match self.compile_shared() {
            Ok(plan) => Ok(plan.duplicate()),
            Err(error) => Err(error),
        }
    }
}


/// What a reported search error says about the graph.
pub open spec fn search_error(g: Seq<Seq<usize>>, e: RenderGraphError) -> bool {
    match e {
        RenderGraphError::MissingPass(d) => (d.0 as int) >= g.len() && exists|v: int, j: int|
            0 <= v < g.len() && 0 <= j < g[v].len() && #[trigger] g[v][j] == d.0,
        RenderGraphError::Cycle(p) => (p.0 as int) < g.len() && on_cycle(g, p.0),
    }
}

/// State of a recursive depth-first visit: the per-pass marks (0 unvisited, 1 in progress,
/// 2 finished) and the finished passes in order, or the error that stopped it.
pub enum DfsWalk {
    Done(Seq<u8>, Seq<RenderPassId>),
    Failed(RenderGraphError),
}

/// Recursive depth-first visit of pass `v`: a pass in progress is a cycle, a finished pass
/// is skipped, an unvisited one is marked, its dependencies are visited in order, and it is
/// then appended to the order.
pub open spec fn dfs_visit(g: Seq<Seq<usize>>, v: int, st: Seq<u8>, ord: Seq<RenderPassId>) -> DfsWalk
    decreases count_unvisited(st), 0int, 0int,
{
    if !(0 <= v < st.len()) {
        DfsWalk::Failed(RenderGraphError::MissingPass(RenderPassId(v as usize)))
    } else if st[v] == 1 {
        DfsWalk::Failed(RenderGraphError::Cycle(RenderPassId(v as usize)))
    } else if st[v] != 0 {
        DfsWalk::Done(st, ord)
    } else {
        proof {
            lemma_count_unvisited_mark(st, v, 1);
        }
        dfs_deps(g, v, 0, st.update(v, 1), ord)
    }
}

/// Dependencies `j..` of pass `v`, visited in order; then `v` is finished. A dependency that
/// names no pass is reported as missing.
pub open spec fn dfs_deps(g: Seq<Seq<usize>>, v: int, j: int, st: Seq<u8>, ord: Seq<RenderPassId>) -> DfsWalk
    decreases count_unvisited(st), 1int, if 0 <= v < g.len() && j <= g[v].len() { g[v].len() - j } else { 0 },
{
    if !(0 <= v < g.len() && 0 <= j <= g[v].len() && v < st.len()) {
        DfsWalk::Failed(RenderGraphError::MissingPass(RenderPassId(v as usize)))
    } else if j == g[v].len() {
        DfsWalk::Done(st.update(v, 2), ord.push(RenderPassId(v as usize)))
    } else {
        let d = g[v][j];
        if d as int >= g.len() {
            DfsWalk::Failed(RenderGraphError::MissingPass(RenderPassId(d)))
        } else {
            match dfs_visit(g, d as int, st, ord) {
                DfsWalk::Failed(e) => DfsWalk::Failed(e),
                DfsWalk::Done(st2, ord2) => if count_unvisited(st2) <= count_unvisited(st) {
                    dfs_deps(g, v, j + 1, st2, ord2)
                } else {
                    DfsWalk::Failed(RenderGraphError::MissingPass(RenderPassId(v as usize)))
                },
            }
        }
    }
}

/// Roots `i..` visited in ascending order.
pub open spec fn dfs_roots(g: Seq<Seq<usize>>, i: int, st: Seq<u8>, ord: Seq<RenderPassId>) -> DfsWalk
    decreases g.len() - i,
{
    if i >= g.len() {
        DfsWalk::Done(st, ord)
    } else {
        match dfs_visit(g, i, st, ord) {
            DfsWalk::Failed(e) => DfsWalk::Failed(e),
            DfsWalk::Done(st2, ord2) => dfs_roots(g, i + 1, st2, ord2),
        }
    }
}

/// The plan of a dependency graph: the finishing order of a depth-first search that takes
/// roots in ascending order and dependencies in their stored order, or its first error.
pub open spec fn dfs_order(g: Seq<Seq<usize>>) -> Result<Seq<RenderPassId>, RenderGraphError> {
    match dfs_roots(g, 0, Seq::new(g.len(), |i: int| 0u8), Seq::empty()) {
        DfsWalk::Done(_, ord) => Ok(ord),
        DfsWalk::Failed(e) => Err(e),
    }
}

/// Visiting never unmarks a pass.
proof fn lemma_dfs_monotone(g: Seq<Seq<usize>>, v: int, j: int, st: Seq<u8>, ord: Seq<RenderPassId>, deps: bool)
    ensures
        deps ==> (dfs_deps(g, v, j, st, ord) matches DfsWalk::Done(st2, _) ==> count_unvisited(st2)
            <= count_unvisited(st) && st2.len() == st.len()),
        !deps ==> (dfs_visit(g, v, st, ord) matches DfsWalk::Done(st2, _) ==> count_unvisited(st2)
            <= count_unvisited(st) && st2.len() == st.len()),
    decreases count_unvisited(st), if deps { 1int } else { 0int }, if 0 <= v < g.len() && j <= g[v].len() {
        g[v].len() - j
    } else {
        0
    },
{
    if deps {
        if 0 <= v < g.len() && 0 <= j <= g[v].len() && v < st.len() {
            if j == g[v].len() {
                lemma_count_unvisited_mark(st, v, 2);
            } else {
                let d = g[v][j];
                if (d as int) < g.len() {
                    lemma_dfs_monotone(g, d as int, 0, st, ord, false);
                    match dfs_visit(g, d as int, st, ord) {
                        DfsWalk::Done(st2, ord2) => {
                            if count_unvisited(st2) <= count_unvisited(st) {
                                lemma_dfs_monotone(g, v, j + 1, st2, ord2, true);
                            }
                        },
                        DfsWalk::Failed(_) => {},
                    }
                }
            }
        }
    } else {
        if 0 <= v < st.len() && st[v] == 0 {
            lemma_count_unvisited_mark(st, v, 1);
            lemma_dfs_monotone(g, v, 0, st.update(v, 1), ord, true);
        }
    }
}

/// What remains of a recursive visit whose pending frames are `stack`, innermost last: each
/// frame `(v, j)` resumes with dependency `j` of pass `v`.
spec fn dfs_resume(g: Seq<Seq<usize>>, stack: Seq<(usize, usize)>, st: Seq<u8>, ord: Seq<RenderPassId>) -> DfsWalk
    decreases stack.len(),
{
    if stack.len() == 0 {
        DfsWalk::Done(st, ord)
    } else {
        match dfs_deps(g, stack.last().0 as int, stack.last().1 as int, st, ord) {
            DfsWalk::Failed(e) => DfsWalk::Failed(e),
            DfsWalk::Done(st2, ord2) => dfs_resume(g, stack.drop_last(), st2, ord2),
        }
    }
}

/// A dependency that is already finished is skipped by advancing the top frame.
proof fn lemma_resume_skip(g: Seq<Seq<usize>>, stack: Seq<(usize, usize)>, st: Seq<u8>, ord: Seq<RenderPassId>)
    requires
        stack.len() > 0,
        0 <= stack.last().0 < g.len(),
        stack.last().0 < st.len(),
        stack.last().1 < g[stack.last().0 as int].len(),
        stack.last().1 < usize::MAX,
        (g[stack.last().0 as int][stack.last().1 as int] as int) < g.len(),
        (g[stack.last().0 as int][stack.last().1 as int] as int) < st.len(),
        st[g[stack.last().0 as int][stack.last().1 as int] as int] != 0,
        st[g[stack.last().0 as int][stack.last().1 as int] as int] != 1,
    ensures
        dfs_resume(g, stack.update(stack.len() - 1, (stack.last().0, (stack.last().1 + 1) as usize)), st, ord)
            == dfs_resume(g, stack, st, ord),
{
    let (v, j) = stack.last();
    let t = stack.update(stack.len() - 1, (v, (j + 1) as usize));
    assert(t.drop_last() =~= stack.drop_last());
    assert(t.last() == (v, (j + 1) as usize));
    let d = g[v as int][j as int];
    assert(dfs_visit(g, d as int, st, ord) == DfsWalk::Done(st, ord));
    assert(dfs_deps(g, v as int, j as int, st, ord) == dfs_deps(g, v as int, j + 1, st, ord));
}

/// Descending into an unvisited dependency pushes a frame for it and advances its parent.
proof fn lemma_resume_descend(g: Seq<Seq<usize>>, stack: Seq<(usize, usize)>, st: Seq<u8>, ord: Seq<RenderPassId>)
    requires
        stack.len() > 0,
        0 <= stack.last().0 < g.len(),
        stack.last().0 < st.len(),
        stack.last().1 < g[stack.last().0 as int].len(),
        stack.last().1 < usize::MAX,
        (g[stack.last().0 as int][stack.last().1 as int] as int) < g.len(),
        (g[stack.last().0 as int][stack.last().1 as int] as int) < st.len(),
        st[g[stack.last().0 as int][stack.last().1 as int] as int] == 0,
    ensures
        dfs_resume(
            g,
            stack.update(stack.len() - 1, (stack.last().0, (stack.last().1 + 1) as usize)).push(
                (g[stack.last().0 as int][stack.last().1 as int], 0usize),
            ),
            st.update(g[stack.last().0 as int][stack.last().1 as int] as int, 1),
            ord,
        ) == dfs_resume(g, stack, st, ord),
{
    let (v, j) = stack.last();
    let d = g[v as int][j as int];
    let t = stack.update(stack.len() - 1, (v, (j + 1) as usize));
    let u = t.push((d, 0usize));
    let st1 = st.update(d as int, 1);
    reveal_with_fuel(dfs_resume, 2);
    assert(u.drop_last() =~= t);
    assert(u.last() == (d, 0usize));
    assert(t.drop_last() =~= stack.drop_last());
    assert(t.last() == (v, (j + 1) as usize));
    assert(dfs_visit(g, d as int, st, ord) == dfs_deps(g, d as int, 0, st1, ord));
    lemma_dfs_monotone(g, d as int, 0, st, ord, false);
    match dfs_deps(g, d as int, 0, st1, ord) {
        DfsWalk::Failed(e) => {},
        DfsWalk::Done(st2, ord2) => {
            assert(dfs_deps(g, v as int, j as int, st, ord) == dfs_deps(g, v as int, j + 1, st2, ord2));
        },
    }
}

/// Finished passes (state 2) are exactly those in `order`, each after its dependencies.
spec fn finished_ok(g: Seq<Seq<usize>>, states: Seq<u8>, order: Seq<RenderPassId>) -> bool {
    &&& states.len() == g.len()
    &&& forall|v: int| 0 <= v < g.len() ==> #[trigger] states[v] <= 2
    &&& forall|v: usize|
        (v as int) < g.len() ==> (#[trigger] states[v as int] == 2 <==> pass_ids(order).contains(v))
    &&& pass_ids(order).no_duplicates()
    &&& forall|i: int| 0 <= i < order.len() ==> (#[trigger] order[i].0 as int) < g.len()
    &&& forall|i: int, j: int|
        0 <= i < order.len() && 0 <= j < g[order[i].0 as int].len() ==> #[trigger] finished_before(
            g,
            order,
            i,
            j,
        )
}

/// The `j`-th dependency of `order[i]` appears earlier in `order`.
spec fn finished_before(g: Seq<Seq<usize>>, order: Seq<RenderPassId>, i: int, j: int) -> bool {
    exists|k: int| 0 <= k < i && #[trigger] order[k].0 == g[order[i].0 as int][j]
}

/// Passes in progress (state 1) are exactly those on the stack, linked frame to frame.
spec fn stack_ok(g: Seq<Seq<usize>>, states: Seq<u8>, stack: Seq<(usize, usize)>) -> bool {
    &&& forall|j: int| 0 <= j < stack.len() ==> (#[trigger] stack[j].0 as int) < g.len()
    &&& forall|j: int| 0 <= j < stack.len() ==> #[trigger] states[stack[j].0 as int] == 1
    &&& forall|v: int|
        0 <= v < g.len() && #[trigger] states[v] == 1 ==> exists|j: int|
            0 <= j < stack.len() && stack[j].0 as int == v
    &&& forall|j1: int, j2: int|
        0 <= j1 < j2 < stack.len() ==> (#[trigger] stack[j1]).0 != (#[trigger] stack[j2]).0
    &&& frames_bounded(g, stack)
    &&& forall|j: int, t: int|
        0 <= j < stack.len() && 0 <= t < stack[j].1 ==> {
            &&& (#[trigger] g[stack[j].0 as int][t] as int) < g.len()
            &&& (states[g[stack[j].0 as int][t] as int] == 2 || (j + 1 < stack.len() && t
                == stack[j].1 - 1))
        }
    &&& forall|j: int|
        0 <= j < stack.len() - 1 ==> {
            &&& (#[trigger] stack[j]).1 >= 1
            &&& g[stack[j].0 as int][stack[j].1 - 1] == stack[j + 1].0
        }
}

proof fn lemma_start_search(g: Seq<Seq<usize>>, states: Seq<u8>, order: Seq<RenderPassId>, root: usize)
    requires
        finished_ok(g, states, order),
        (root as int) < g.len(),
        states[root as int] == 0,
        forall|v: int| 0 <= v < g.len() ==> #[trigger] states[v] != 1,
    ensures
        finished_ok(g, states.update(root as int, 1), order),
        stack_ok(g, states.update(root as int, 1), seq![(root, 0usize)]),
{
    let s2 = states.update(root as int, 1);
    assert forall|v: int| 0 <= v < g.len() implies #[trigger] s2[v] <= 2 by {}
    assert forall|v: usize| (v as int) < g.len() implies (#[trigger] s2[v as int] == 2
        <==> pass_ids(order).contains(v)) by {
        assert(states[v as int] == 2 <==> pass_ids(order).contains(v));
    }
    assert forall|v: int| 0 <= v < g.len() && #[trigger] s2[v] == 1 implies exists|j: int|
        0 <= j < 1 && seq![(root, 0usize)][j].0 as int == v by {
        assert(seq![(root, 0usize)][0].0 as int == v);
    }
}

proof fn lemma_back_edge_is_cycle(g: Seq<Seq<usize>>, states: Seq<u8>, stack: Seq<(usize, usize)>, d: usize)
    requires
        stack_ok(g, states, stack),
        stack.len() > 0,
        (stack.last().1 as int) < g[stack.last().0 as int].len(),
        g[stack.last().0 as int][stack.last().1 as int] == d,
        (d as int) < g.len(),
        states[d as int] == 1,
    ensures
        on_cycle(g, d),
{
    let m = choose|j: int| 0 <= j < stack.len() && stack[j].0 as int == d as int;
    let frames = stack.subrange(m, stack.len() as int);
    let path = frames.map_values(|f: (usize, usize)| f.0).push(d);
    assert(path.len() == stack.len() - m + 1);
    assert forall|i: int| 0 <= i < path.len() - 1 implies (#[trigger] path[i] as int) < g.len()
        && g[path[i] as int].contains(path[i + 1]) by {
        let j = m + i;
        assert(path[i] == stack[j].0);
        if i < path.len() - 2 {
            assert(path[i + 1] == stack[j + 1].0);
            let t = stack[j].1 - 1;
            assert(g[stack[j].0 as int][t] == stack[j + 1].0);
        } else {
            assert(j == stack.len() - 1);
            assert(path[i + 1] == d);
            assert(g[stack[j].0 as int][stack.last().1 as int] == d);
        }
    }
    assert(is_dependency_path(g, path));
    assert(path[0] == d);
    assert(path.last() == d);
}

proof fn lemma_descend(
    g: Seq<Seq<usize>>,
    states: Seq<u8>,
    order: Seq<RenderPassId>,
    stack: Seq<(usize, usize)>,
    d: usize,
)
    requires
        finished_ok(g, states, order),
        stack_ok(g, states, stack),
        stack.len() > 0,
        (stack.last().1 as int) < g[stack.last().0 as int].len(),
        g[stack.last().0 as int][stack.last().1 as int] == d,
        (d as int) < g.len(),
        states[d as int] == 0,
        stack.last().1 < usize::MAX,
    ensures
        finished_ok(g, states.update(d as int, 1), order),
        stack_ok(
            g,
            states.update(d as int, 1),
            stack.update(stack.len() - 1, (stack.last().0, (stack.last().1 + 1) as usize)).push(
                (d, 0usize),
            ),
        ),
{
    let s2 = states.update(d as int, 1);
    let top = stack.len() - 1;
    let st1 = stack.update(top, (stack.last().0, (stack.last().1 + 1) as usize));
    let st2 = st1.push((d, 0usize));
    assert forall|v: int| 0 <= v < g.len() implies #[trigger] s2[v] <= 2 by {}
    assert forall|v: usize| (v as int) < g.len() implies (#[trigger] s2[v as int] == 2
        <==> pass_ids(order).contains(v)) by {
        assert(states[v as int] == 2 <==> pass_ids(order).contains(v));
    }
    assert forall|j: int| 0 <= j < st2.len() implies #[trigger] s2[st2[j].0 as int] == 1 by {
        if j < stack.len() {
            assert(st2[j].0 == stack[j].0);
            assert(states[stack[j].0 as int] == 1);
        }
    }
    assert forall|v: int| 0 <= v < g.len() && #[trigger] s2[v] == 1 implies exists|j: int|
        0 <= j < st2.len() && st2[j].0 as int == v by {
        if v == d as int {
            assert(st2[stack.len() as int].0 as int == v);
        } else {
            let j = choose|j: int| 0 <= j < stack.len() && stack[j].0 as int == v;
            assert(st2[j].0 == stack[j].0);
        }
    }
    assert forall|j1: int, j2: int| 0 <= j1 < j2 < st2.len() implies (#[trigger] st2[j1]).0
        != (#[trigger] st2[j2]).0 by {
        assert(st2[j1].0 == stack[j1].0);
        if j2 < stack.len() {
            assert(st2[j2].0 == stack[j2].0);
        } else {
            assert(states[stack[j1].0 as int] == 1);
        }
    }
    assert forall|j: int| 0 <= j < st2.len() implies (#[trigger] st2[j]).1 <= g[st2[j].0
        as int].len() by {
        if j < stack.len() {
            assert(stack[j].1 <= g[stack[j].0 as int].len());
        }
    }
    assert forall|j: int, t: int| 0 <= j < st2.len() && 0 <= t < st2[j].1 implies {
        &&& (#[trigger] g[st2[j].0 as int][t] as int) < g.len()
        &&& (s2[g[st2[j].0 as int][t] as int] == 2 || (j + 1 < st2.len() && t == st2[j].1 - 1))
    } by {
        assert(j < stack.len());
        assert(st2[j].0 == stack[j].0);
        if j == top {
            if t < stack[j].1 {
                assert(states[g[stack[j].0 as int][t] as int] == 2);
            }
        } else {
            assert(st2[j] == stack[j]);
            if states[g[stack[j].0 as int][t] as int] == 2 {
                assert(g[stack[j].0 as int][t] != d);
            }
        }
    }
    assert forall|j: int| 0 <= j < st2.len() - 1 implies {
        &&& (#[trigger] st2[j]).1 >= 1
        &&& g[st2[j].0 as int][st2[j].1 - 1] == st2[j + 1].0
    } by {
        if j < top {
            assert(st2[j] == stack[j]);
            assert(st2[j + 1].0 == stack[j + 1].0);
        }
    }
}

proof fn lemma_skip_finished(
    g: Seq<Seq<usize>>,
    states: Seq<u8>,
    order: Seq<RenderPassId>,
    stack: Seq<(usize, usize)>,
    d: usize,
)
    requires
        finished_ok(g, states, order),
        stack_ok(g, states, stack),
        stack.len() > 0,
        (stack.last().1 as int) < g[stack.last().0 as int].len(),
        g[stack.last().0 as int][stack.last().1 as int] == d,
        (d as int) < g.len(),
        states[d as int] == 2,
    ensures
        stack_ok(
            g,
            states,
            stack.update(stack.len() - 1, (stack.last().0, (stack.last().1 + 1) as usize)),
        ),
{
    let top = stack.len() - 1;
    let st1 = stack.update(top, (stack.last().0, (stack.last().1 + 1) as usize));
    assert forall|j: int| 0 <= j < st1.len() implies #[trigger] states[st1[j].0 as int] == 1 by {
        assert(st1[j].0 == stack[j].0);
    }
    assert forall|v: int| 0 <= v < g.len() && #[trigger] states[v] == 1 implies exists|j: int|
        0 <= j < st1.len() && st1[j].0 as int == v by {
        let j = choose|j: int| 0 <= j < stack.len() && stack[j].0 as int == v;
        assert(st1[j].0 == stack[j].0);
    }
    assert forall|j1: int, j2: int| 0 <= j1 < j2 < st1.len() implies (#[trigger] st1[j1]).0
        != (#[trigger] st1[j2]).0 by {
        assert(st1[j1].0 == stack[j1].0);
        assert(st1[j2].0 == stack[j2].0);
    }
    assert forall|j: int| 0 <= j < st1.len() implies (#[trigger] st1[j]).1 <= g[st1[j].0
        as int].len() by {
        assert(stack[j].1 <= g[stack[j].0 as int].len());
    }
    assert forall|j: int, t: int| 0 <= j < st1.len() && 0 <= t < st1[j].1 implies {
        &&& (#[trigger] g[st1[j].0 as int][t] as int) < g.len()
        &&& (states[g[st1[j].0 as int][t] as int] == 2 || (j + 1 < st1.len() && t == st1[j].1 - 1))
    } by {
        assert(st1[j].0 == stack[j].0);
        if j != top {
            assert(st1[j] == stack[j]);
        }
    }
    assert forall|j: int| 0 <= j < st1.len() - 1 implies {
        &&& (#[trigger] st1[j]).1 >= 1
        &&& g[st1[j].0 as int][st1[j].1 - 1] == st1[j + 1].0
    } by {
        assert(st1[j] == stack[j]);
        if j + 1 < top {
            assert(st1[j + 1] == stack[j + 1]);
        }
        assert(st1[j + 1].0 == stack[j + 1].0);
    }
}

proof fn lemma_finish_frame(
    g: Seq<Seq<usize>>,
    states: Seq<u8>,
    order: Seq<RenderPassId>,
    stack: Seq<(usize, usize)>,
)
    requires
        finished_ok(g, states, order),
        stack_ok(g, states, stack),
        stack.len() > 0,
        stack.last().1 == g[stack.last().0 as int].len(),
    ensures
        finished_ok(g, states.update(stack.last().0 as int, 2), order.push(RenderPassId(stack.last().0))),
        stack_ok(g, states.update(stack.last().0 as int, 2), stack.drop_last()),
        stack.drop_last().len() == 0 ==> forall|v: int|
            0 <= v < g.len() ==> #[trigger] states.update(stack.last().0 as int, 2)[v] != 1,
{
    let node = stack.last().0;
    let top = stack.len() - 1;
    let s2 = states.update(node as int, 2);
    let o2 = order.push(RenderPassId(node));
    let st = stack.drop_last();
    assert(pass_ids(o2) =~= pass_ids(order).push(node));
    assert(stack[top] == stack.last());
    assert(!pass_ids(order).contains(node)) by {
        assert(states[node as int] == 1);
    }
    assert forall|v: int| 0 <= v < g.len() implies #[trigger] s2[v] <= 2 by {}
    assert forall|v: usize| (v as int) < g.len() implies (#[trigger] s2[v as int] == 2
        <==> pass_ids(o2).contains(v)) by {
        if v == node {
            assert(pass_ids(o2)[order.len() as int] == node);
        } else {
            assert(states[v as int] == 2 <==> pass_ids(order).contains(v));
            if pass_ids(o2).contains(v) {
                let k = choose|k: int| 0 <= k < pass_ids(o2).len() && pass_ids(o2)[k] == v;
                assert(pass_ids(order)[k] == v);
            }
            if pass_ids(order).contains(v) {
                let k = choose|k: int| 0 <= k < pass_ids(order).len() && pass_ids(order)[k] == v;
                assert(pass_ids(o2)[k] == v);
            }
        }
    }
    assert forall|i: int| 0 <= i < o2.len() implies (#[trigger] o2[i].0 as int) < g.len() by {
        if i < order.len() {
            assert(o2[i] == order[i]);
        }
    }
    assert forall|i: int, j: int| 0 <= i < o2.len() && 0 <= j < g[o2[i].0 as int].len() implies #[trigger] finished_before(g, o2, i, j) by {
        if i < order.len() {
            assert(o2[i] == order[i]);
            assert(finished_before(g, order, i, j));
            let k = choose|k: int| 0 <= k < i && #[trigger] order[k].0 == g[order[i].0 as int][j];
            assert(o2[k] == order[k]);
        } else {
            let d = g[node as int][j];
            assert(g[stack[top].0 as int][j] == d);
            assert(states[d as int] == 2);
            assert(pass_ids(order).contains(d));
            let k = choose|k: int| 0 <= k < pass_ids(order).len() && pass_ids(order)[k] == d;
            assert(o2[k] == order[k]);
        }
    }
    assert forall|j: int| 0 <= j < st.len() implies #[trigger] s2[st[j].0 as int] == 1 by {
        assert(st[j] == stack[j]);
        assert(stack[j].0 != stack[top].0);
    }
    assert forall|v: int| 0 <= v < g.len() && #[trigger] s2[v] == 1 implies exists|j: int|
        0 <= j < st.len() && st[j].0 as int == v by {
        let j = choose|j: int| 0 <= j < stack.len() && stack[j].0 as int == v;
        assert(j != top);
        assert(st[j] == stack[j]);
    }
    assert forall|j1: int, j2: int| 0 <= j1 < j2 < st.len() implies (#[trigger] st[j1]).0
        != (#[trigger] st[j2]).0 by {
        assert(st[j1] == stack[j1]);
        assert(st[j2] == stack[j2]);
    }
    assert forall|j: int| 0 <= j < st.len() implies (#[trigger] st[j]).1 <= g[st[j].0
        as int].len() by {
        assert(st[j] == stack[j]);
    }
    assert forall|j: int, t: int| 0 <= j < st.len() && 0 <= t < st[j].1 implies {
        &&& (#[trigger] g[st[j].0 as int][t] as int) < g.len()
        &&& (s2[g[st[j].0 as int][t] as int] == 2 || (j + 1 < st.len() && t == st[j].1 - 1))
    } by {
        assert(st[j] == stack[j]);
        let dep = g[stack[j].0 as int][t];
        if states[dep as int] != 2 {
            if j + 1 == top {
                assert(g[stack[j].0 as int][stack[j].1 - 1] == stack[j + 1].0);
            }
        }
    }
    assert forall|j: int| 0 <= j < st.len() - 1 implies {
        &&& (#[trigger] st[j]).1 >= 1
        &&& g[st[j].0 as int][st[j].1 - 1] == st[j + 1].0
    } by {
        assert(st[j] == stack[j]);
        assert(st[j + 1] == stack[j + 1]);
    }
    if st.len() == 0 {
        assert forall|v: int| 0 <= v < g.len() implies #[trigger] s2[v] != 1 by {
            if s2[v] == 1 {
                let j = choose|j: int| 0 <= j < stack.len() && stack[j].0 as int == v;
            }
        }
    }
}

/// Inserting a new identifier at its sorted position keeps the list strictly sorted and
/// adds exactly that identifier.
proof fn lemma_sorted_insert(
    old_list: Seq<RenderPassId>,
    new_list: Seq<RenderPassId>,
    position: int,
    dependency: RenderPassId,
)
    requires
        strictly_sorted(pass_ids(old_list)),
        0 <= position <= old_list.len(),
        new_list == old_list.insert(position, dependency),
        forall|k: int| 0 <= k < position ==> (#[trigger] old_list[k]).0 < dependency.0,
        forall|k: int| position <= k < old_list.len() ==> (#[trigger] old_list[k]).0 > dependency.0,
    ensures
        strictly_sorted(pass_ids(new_list)),
        pass_ids(new_list).to_set() == pass_ids(old_list).to_set().insert(dependency.0),
{
    let ids = pass_ids(new_list);
    let old_ids = pass_ids(old_list);
    assert forall|k: int| 0 <= k < ids.len() implies #[trigger] ids[k] == if k < position {
        old_ids[k]
    } else if k == position {
        dependency.0
    } else {
        old_ids[k - 1]
    } by {}
    assert forall|a: int, b: int| 0 <= a < b < ids.len() implies (#[trigger] ids[a]) < #[trigger] ids[b] by {
        if b < position {
        } else if b == position {
            assert(old_list[a].0 < dependency.0);
        } else if a == position {
            assert(old_list[b - 1].0 > dependency.0);
        } else if a < position {
            if a < b - 1 {
                assert(old_ids[a] < old_ids[b - 1]);
            }
        } else {
            assert(old_ids[a - 1] < old_ids[b - 1]);
        }
    }
    assert(ids.to_set() =~= old_ids.to_set().insert(dependency.0)) by {
        assert forall|x: usize| ids.to_set().contains(x) implies old_ids.to_set().insert(
            dependency.0,
        ).contains(x) by {
            let k = choose|k: int| 0 <= k < ids.len() && ids[k] == x;
            if k < position {
                assert(old_ids[k] == x);
            } else if k > position {
                assert(old_ids[k - 1] == x);
            }
        }
        assert forall|x: usize| old_ids.to_set().insert(dependency.0).contains(x) implies ids.to_set().contains(x) by {
            if x == dependency.0 {
                assert(ids[position] == x);
            } else {
                let k = choose|k: int| 0 <= k < old_ids.len() && old_ids[k] == x;
                if k < position {
                    assert(ids[k] == x);
                } else {
                    assert(ids[k + 1] == x);
                }
            }
        }
    }
}

proof fn lemma_pending_step(g: Seq<Seq<usize>>, stack: Seq<(usize, usize)>, node: usize, examined: usize)
    requires
        stack.len() > 0,
        stack.last() == (node, examined),
        (node as int) < g.len(),
        (examined as int) < g[node as int].len(),
        examined < usize::MAX,
    ensures
        pending(g, stack.update(stack.len() - 1, (node, (examined + 1) as usize))) == pending(g, stack) - 1,
{
    let t = stack.update(stack.len() - 1, (node, (examined + 1) as usize));
    assert(t.drop_last() =~= stack.drop_last());
}

proof fn lemma_pending_pop(g: Seq<Seq<usize>>, stack: Seq<(usize, usize)>)
    requires
        stack.len() > 0,
        stack.last().1 == g[stack.last().0 as int].len(),
    ensures
        pending(g, stack.drop_last()) == pending(g, stack),
{
}

/// The engine's default frame graph: `clear`, then `main` after it, then `ui` after `main`.
pub fn default_render_graph() -> (g: RenderGraph)
    ensures
        g.wf(),
        g.names() == seq!["clear"@, "main"@, "ui"@],
        g.deps().len() == 3,
        g.deps()[0] == Seq::<usize>::empty(),
        g.deps()[1].to_set() == set![0usize],
        g.deps()[2].to_set() == set![1usize],
        g.cached() is None,
{
    let mut graph = RenderGraph::new();
    let clear = graph.add_pass("clear");
    let main = graph.add_pass("main");
    let ui = graph.add_pass("ui");
    proof {
        assert(Seq::<usize>::empty().to_set() =~= Set::<usize>::empty());
    }
    let ghost before = graph.deps();
    assert(before[1] == Seq::<usize>::empty());
    assert(!before[1].contains(0usize));
    let first = graph.add_dependency(main, clear);
    let ghost middle = graph.deps();
    assert(first is Ok);
    assert(middle[1].to_set() =~= set![0usize]);
    assert(middle[2] == before[2]);
    assert(!middle[2].contains(1usize));
    let second = graph.add_dependency(ui, main);
    assert(second is Ok);
    assert(graph.deps()[1] == middle[1]);
    assert(graph.deps()[2].to_set() =~= set![1usize]);
    graph
}

} // verus!
