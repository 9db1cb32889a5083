//! The chain of compute passes: which shader runs how often, which of the two
//! ping-pong bind groups each pass uses, and how the render graph links them.
//!
//! Every compute pass reads one set of buffers and writes the other. Bind
//! group 0 reads the "A" buffers and writes the "B" buffers, bind group 1 the
//! reverse, and the passes use them in turn, so each pass reads what the one
//! before it wrote. The final pass reads whichever set the last compute pass
//! wrote.

use vstd::prelude::*;

verus! {

/// The side length, in cells, of the simulation grid.
pub const BUFFER_LEN: usize = 2048;

/// The number of values stored per grid cell.
pub const GRID_SIZE: usize = 8;

/// The length of each data strip.
pub const STRIP_SIZE: usize = 8192;

/// The number of data strips.
pub const STRIP_COUNT: usize = 3;

/// The side length of a compute workgroup, in cells.
pub const WORKGROUP_SIZE: usize = 16;

/// A compute shader and the number of times its pass runs per frame.
pub struct ShaderConfig {
    pub shader_path: &'static str,
    pub iterations: u32,
}

impl Clone for ShaderConfig {
    fn clone(&self) -> (r: Self)
        ensures
            r == *self,
    {
        ShaderConfig { shader_path: self.shader_path, iterations: self.iterations }
    }
}

/// The shader configurations of the compute passes, in pass order.
pub struct ShaderConfigHolder {
    pub shader_configs: Vec<ShaderConfig>,
}

/// The bind group of each compute pass, by compute node: a map from node index
/// to the bind group (0 or 1) of each of its iterations.
#[verifier::external_body]
pub struct SelectorMap {
    map: bevy::utils::HashMap<u32, Vec<u32>>,
}

/// The entries of a `SelectorMap`: node index to its list of bind groups.
pub uninterp spec fn selector_entries(m: SelectorMap) -> Map<u32, Seq<u32>>;

impl SelectorMap {
    /// An empty map, made by `Default::default` on `bevy::utils::HashMap`
    /// (hashbrown's `HashMap::default`, which holds no entries).
    #[verifier::external_body]
    fn new() -> (r: SelectorMap)
        ensures
            selector_entries(r).is_empty(),
    {
        SelectorMap { map: bevy::utils::HashMap::default() }
    }

    /// `HashMap::insert` of hashbrown: afterwards `node` maps to `groups`; the
    /// value it mapped to before, if any, is returned.
    #[verifier::external_body]
    fn insert(&mut self, node: u32, groups: Vec<u32>) -> (r: Option<Vec<u32>>)
        ensures
            selector_entries(*final(self)) == selector_entries(*old(self)).insert(node, groups@),
            r matches Some(v) ==> selector_entries(*old(self)).contains_key(node) && v@
                == selector_entries(*old(self))[node],
            r is None ==> !selector_entries(*old(self)).contains_key(node),
    {
        self.map.insert(node, groups)
    }

    /// `HashMap::get` of hashbrown: the value that `node` maps to, if any.
    #[verifier::external_body]
    fn get(&self, node: u32) -> (r: Option<&Vec<u32>>)
        ensures
            r matches Some(v) ==> selector_entries(*self).contains_key(node) && v@
                == selector_entries(*self)[node],
            r is None ==> !selector_entries(*self).contains_key(node),
    {
        self.map.get(&node)
    }
}

/// Which bind group each compute pass uses, and which the final pass uses.
pub struct BindGroupSelection {
    pub selectors: SelectorMap,
    pub final_pass: u32,
}

impl BindGroupSelection {
    /// The bind group of iteration `iteration` of node `node`, if the selection
    /// lists one.
    pub fn group_of(&self, node: u32, iteration: usize) -> (r: Option<u32>)
        ensures
            r matches Some(g) ==> selector_entries(self.selectors).contains_key(node) && iteration
                < selector_entries(self.selectors)[node].len() && g == selector_entries(
                self.selectors,
            )[node][iteration as int],
            r is None ==> !selector_entries(self.selectors).contains_key(node) || iteration
                >= selector_entries(self.selectors)[node].len(),
    {
        match self.selectors.get(node) {
            Some(groups) => {
                if iteration < groups.len() {
                    Some(groups[iteration])
                } else {
                    None
                }
            },
            None => None,
        }
    }
}

/// The number of passes that run before those of node `k`: the sum of the
/// iteration counts of the first `k` configurations.
pub open spec fn passes_before(configs: Seq<ShaderConfig>, k: int) -> int
    decreases k,
{
    if k <= 0 {
        0
    } else {
        passes_before(configs, k - 1) + configs[k - 1].iterations
    }
}

/// The bind groups of the passes of node `k`: the passes alternate between
/// group 0 and group 1, counting from the very first pass of the frame.
pub open spec fn node_groups(configs: Seq<ShaderConfig>, k: int) -> Seq<u32> {
    Seq::new(
        configs[k].iterations as nat,
        |j: int| ((passes_before(configs, k) + j) % 2) as u32,
    )
}

/// The selection map of the first `n` nodes.
pub open spec fn spec_selectors(configs: Seq<ShaderConfig>, n: int) -> Map<u32, Seq<u32>> {
    Map::new(|k: u32| k < n, |k: u32| node_groups(configs, k as int))
}

/// Passes-before only grows along the nodes.
pub proof fn lemma_passes_before_monotone(configs: Seq<ShaderConfig>, j: int, k: int)
    requires
        0 <= j <= k,
    ensures
        passes_before(configs, j) <= passes_before(configs, k),
    decreases k - j,
{
    if j < k {
        lemma_passes_before_monotone(configs, j, k - 1);
    }
}

/// The bind groups of the passes of the first `pipeline_count` compute nodes,
/// and of the final pass.
///
/// The `k`-th pass of the frame (counting from 0 over all nodes in order) uses
/// bind group `k % 2`; the final pass uses `total % 2`, where `total` is the
/// number of compute passes.
pub fn bind_group_selection(pipeline_count: usize, shader_configs: &Vec<ShaderConfig>) -> (r:
    BindGroupSelection)
    requires
        pipeline_count <= shader_configs@.len(),
        pipeline_count <= u32::MAX,
        passes_before(shader_configs@, pipeline_count as int) <= u32::MAX,
    ensures
        selector_entries(r.selectors) == spec_selectors(shader_configs@, pipeline_count as int),
        r.final_pass == passes_before(shader_configs@, pipeline_count as int) % 2,
{
    let mut selectors = SelectorMap::new();
    let mut total_iterations: u32 = 0;
    let mut node: u32 = 0;
    for p in 0..pipeline_count
        invariant
            pipeline_count <= shader_configs@.len(),
            pipeline_count <= u32::MAX,
            passes_before(shader_configs@, pipeline_count as int) <= u32::MAX,
            node == p,
            total_iterations == passes_before(shader_configs@, p as int),
            selector_entries(selectors) == spec_selectors(shader_configs@, p as int),
    {
        proof {
            lemma_passes_before_monotone(shader_configs@, p + 1, pipeline_count as int);
        }
        let mut node_selections: Vec<u32> = Vec::new();
        let i = shader_configs[node as usize].iterations;
        let ghost start = total_iterations;
        for j in 0..i
            invariant
                total_iterations == start + j,
                start + i <= u32::MAX,
                node_selections@ =~= Seq::new(j as nat, |t: int| ((start + t) % 2) as u32),
        {
            node_selections.push(total_iterations % 2);
            total_iterations += 1;
        }
        let ghost groups = node_selections@;
        selectors.insert(node, node_selections);
        proof {
            assert(groups =~= node_groups(shader_configs@, p as int));
            assert(selector_entries(selectors) =~= spec_selectors(shader_configs@, p + 1));
        }
        node += 1;
    }
    let final_pass = total_iterations % 2;
    BindGroupSelection { selectors, final_pass }
}

/// The passes alternate between the two bind groups, starting with group 0:
/// iteration `j` of node `k` is pass number `passes_before(k) + j` of the
/// frame and uses group `(passes_before(k) + j) % 2`. In particular two
/// passes in a row, within a node or across the boundary between two nodes,
/// never use the same group.
pub proof fn law_passes_alternate(configs: Seq<ShaderConfig>, n: int, k: int)
    requires
        0 <= k < n <= configs.len(),
    ensures
        forall|j: int|
            0 <= j < configs[k].iterations - 1 ==> #[trigger] node_groups(configs, k)[j]
                != node_groups(configs, k)[j + 1],
        configs[k].iterations > 0 && k + 1 < n && configs[k + 1].iterations > 0 ==> node_groups(
            configs,
            k,
        ).last() != node_groups(configs, k + 1)[0],
        k == 0 && configs[0].iterations > 0 ==> node_groups(configs, 0)[0] == 0,
{
}

/// The final pass reads what the last compute pass wrote: when any compute
/// pass runs, the final pass uses the other group than the last one.
pub proof fn law_final_pass_reads_last_output(configs: Seq<ShaderConfig>, n: int, k: int)
    requires
        0 <= k < n <= configs.len(),
        configs[k].iterations > 0,
        forall|m: int| k < m < n ==> #[trigger] configs[m].iterations == 0,
    ensures
        passes_before(configs, n) % 2 != node_groups(configs, k).last(),
    decreases n - k,
{
    if k + 1 < n {
        law_final_pass_reads_last_output_step(configs, n, k);
    }
}

/// Nodes without passes do not move the pass count.
proof fn law_final_pass_reads_last_output_step(configs: Seq<ShaderConfig>, n: int, k: int)
    requires
        0 <= k < n <= configs.len(),
        forall|m: int| k < m < n ==> #[trigger] configs[m].iterations == 0,
    ensures
        passes_before(configs, n) == passes_before(configs, k + 1),
    decreases n - k,
{
    if k + 1 < n {
        law_final_pass_reads_last_output_step(configs, n - 1, k);
        assert(configs[n - 1].iterations == 0);
    }
}

/// A node of the render graph: one compute shader's passes, or the final pass.
pub struct ComputeNode {
    pub pipeline_index: usize,
    pub is_final: bool,
}

impl Default for ComputeNode {
    fn default() -> (r: Self)
        ensures
            r.pipeline_index == 0,
            !r.is_final,
    {
        ComputeNode { pipeline_index: 0, is_final: false }
    }
}

/// The bind group that one dispatch of a node binds.
#[derive(Clone, Copy, Debug, PartialEq, Eq, Structural)]
pub enum PassBindGroup {
    /// The ping-pong bind group with this index.
    Compute(u32),
    /// The final pass bind group that reads the "A" buffers.
    FinalA,
    /// The final pass bind group that reads the "B" buffers.
    FinalB,
}

/// The bind groups of the dispatches of a compute node, given the node's list
/// of groups; `None` where that list is too short or names a group past
/// `group_count`.
pub open spec fn spec_compute_dispatches(
    groups: Option<Seq<u32>>,
    iterations: nat,
    group_count: nat,
) -> Option<Seq<PassBindGroup>> {
    if iterations == 0 {
        Some(Seq::empty())
    } else {
        match groups {
            None => None,
            Some(g) => if g.len() < iterations || exists|j: int|
                0 <= j < iterations && #[trigger] g[j] >= group_count {
                None
            } else {
                Some(Seq::new(iterations, |j: int| PassBindGroup::Compute(g[j])))
            },
        }
    }
}

/// The bind groups that `node` dispatches with, in order: for the final node
/// one dispatch, with the final group that `selection` names; for a compute
/// node one dispatch per iteration of its shader, with the groups `selection`
/// lists for it.
///
/// `None` where the node's configuration or selection is missing or too short,
/// or names a bind group past `group_count`.
pub fn node_dispatches(
    node: &ComputeNode,
    shader_configs: &Vec<ShaderConfig>,
    selection: &BindGroupSelection,
    group_count: usize,
) -> (r: Option<Vec<PassBindGroup>>)
    ensures
        node.is_final ==> (r matches Some(v) && v@ == seq![
            if selection.final_pass == 0 {
                PassBindGroup::FinalA
            } else {
                PassBindGroup::FinalB
            },
        ]),
        !node.is_final && node.pipeline_index >= shader_configs@.len() ==> r is None,
        !node.is_final && node.pipeline_index < shader_configs@.len() ==> ({
            let key = node.pipeline_index as u32;
            let entries = selector_entries(selection.selectors);
            let groups = if entries.contains_key(key) {
                Some(entries[key])
            } else {
                None
            };
            match r {
                Some(v) => spec_compute_dispatches(
                    groups,
                    shader_configs@[node.pipeline_index as int].iterations as nat,
                    group_count as nat,
                ) == Some(v@),
                None => spec_compute_dispatches(
                    groups,
                    shader_configs@[node.pipeline_index as int].iterations as nat,
                    group_count as nat,
                ) is None,
            }
        }),
        r matches Some(v) ==> (!node.is_final ==> ({
            let key = node.pipeline_index as u32;
            &&& node.pipeline_index < shader_configs@.len()
            &&& v@.len() == shader_configs@[node.pipeline_index as int].iterations
            &&& forall|j: int|
                0 <= j < v@.len() ==> #[trigger] v@[j] == PassBindGroup::Compute(
                    selector_entries(selection.selectors)[key][j],
                )
        })),
        !node.is_final && node.pipeline_index < shader_configs@.len() && ({
            let key = node.pipeline_index as u32;
            let its = shader_configs@[node.pipeline_index as int].iterations;
            let entries = selector_entries(selection.selectors);
            its == 0 || (entries.contains_key(key) && entries[key].len() >= its && forall|j: int|
                0 <= j < its ==> #[trigger] entries[key][j] < group_count)
        }) ==> r is Some,
{
    if node.is_final {
        let group = if selection.final_pass == 0 {
            PassBindGroup::FinalA
        } else {
            PassBindGroup::FinalB
        };
        let mut v: Vec<PassBindGroup> = Vec::new();
        v.push(group);
        return Some(v);
    }
    if node.pipeline_index >= shader_configs.len() {
        return None;
    }
    let iters = shader_configs[node.pipeline_index].iterations;
    let mut v: Vec<PassBindGroup> = Vec::new();
    if iters == 0 {
        proof {
            assert(v@ =~= Seq::<PassBindGroup>::empty());
        }
        return Some(v);
    }
    let key = node.pipeline_index as u32;
    let groups = match selection.selectors.get(key) {
        Some(g) => g,
        None => return None,
    };
    if groups.len() < iters as usize {
        return None;
    }
    for iteration in 0..iters
        invariant
            !node.is_final,
            node.pipeline_index < shader_configs@.len(),
            iters == shader_configs@[node.pipeline_index as int].iterations,
            iters > 0,
            key == node.pipeline_index as u32,
            selector_entries(selection.selectors).contains_key(key),
            groups@ == selector_entries(selection.selectors)[key],
            iters as int <= groups@.len(),
            forall|j: int| 0 <= j < iteration ==> groups@[j] < group_count,
            v@ =~= Seq::new(iteration as nat, |j: int| PassBindGroup::Compute(groups@[j])),
    {
        let g = groups[iteration as usize];
        if g as usize >= group_count {
            return None;
        }
        v.push(PassBindGroup::Compute(g));
    }
    Some(v)
}

/// The number of workgroups of side `WORKGROUP_SIZE` that cover `len` cells:
/// `len` divided by the workgroup size, rounded up, as a `u32` (truncated, as
/// an `as u32` cast does, should it not fit).
pub fn workgroup_count(len: usize) -> (r: u32)
    requires
        len + 15 <= usize::MAX,
    ensures
        r == ((len + 15) / 16) as u32,
        (len + 15) / 16 <= u32::MAX ==> r * 16 >= len,
        (len + 15) / 16 <= u32::MAX && len > 0 ==> (r - 1) * 16 < len,
{
    ((len + 15) / 16) as u32
}

/// The render graph of the compute chain: `compute_count` compute nodes, one
/// per configured shader in order, then the final node; each node runs after
/// the one before it.
///
/// Returns the nodes and the edges between them, as pairs of node indices.
pub fn compute_graph(compute_count: usize) -> (r: (Vec<ComputeNode>, Vec<(usize, usize)>))
    requires
        compute_count < usize::MAX,
    ensures
        r.0@.len() == compute_count + 1,
        forall|i: int|
            0 <= i < compute_count ==> (#[trigger] r.0@[i]).pipeline_index == i && !r.0@[i].is_final,
        r.0@[compute_count as int].pipeline_index == 0,
        r.0@[compute_count as int].is_final,
        r.1@ == Seq::new(compute_count as nat, |i: int| (i as usize, (i + 1) as usize)),
{
    let mut nodes: Vec<ComputeNode> = Vec::new();
    let mut edges: Vec<(usize, usize)> = Vec::new();
    for i in 0..compute_count
        invariant
            compute_count < usize::MAX,
            nodes@.len() == i,
            forall|j: int|
                0 <= j < i ==> (#[trigger] nodes@[j]).pipeline_index == j && !nodes@[j].is_final,
            edges@ =~= Seq::new(
                if i == 0 {
                    0nat
                } else {
                    (i - 1) as nat
                },
                |j: int| (j as usize, (j + 1) as usize),
            ),
    {
        nodes.push(ComputeNode { pipeline_index: i, is_final: false });
        if i > 0 {
            edges.push((i - 1, i));
        }
    }
    nodes.push(ComputeNode { pipeline_index: 0, is_final: true });
    if compute_count > 0 {
        edges.push((compute_count - 1, compute_count));
    }
    proof {
        assert(edges@ =~= Seq::new(compute_count as nat, |i: int| (i as usize, (i + 1) as usize)));
    }
    (nodes, edges)
}

/// The compute shaders of the cave generator, in pass order, with the number
/// of times each runs per frame.
pub fn default_shader_configs() -> (r: Vec<ShaderConfig>)
    ensures
        r@.len() == 5,
        r@[0].shader_path@ == "shaders/generate_circle.wgsl"@ && r@[0].iterations == 1,
        r@[1].shader_path@ == "shaders/domain_warp.wgsl"@ && r@[1].iterations == 5,
        r@[2].shader_path@ == "shaders/pre_ca_noise.wgsl"@ && r@[2].iterations == 1,
        r@[3].shader_path@ == "shaders/ca.wgsl"@ && r@[3].iterations == 16,
        r@[4].shader_path@ == "shaders/post_ca_warp.wgsl"@ && r@[4].iterations == 1,
{
    let mut r: Vec<ShaderConfig> = Vec::new();
    r.push(ShaderConfig { shader_path: "shaders/generate_circle.wgsl", iterations: 1 });
    r.push(ShaderConfig { shader_path: "shaders/domain_warp.wgsl", iterations: 5 });
    r.push(ShaderConfig { shader_path: "shaders/pre_ca_noise.wgsl", iterations: 1 });
    r.push(ShaderConfig { shader_path: "shaders/ca.wgsl", iterations: 16 });
    r.push(ShaderConfig { shader_path: "shaders/post_ca_warp.wgsl", iterations: 1 });
    r
}

/// The lists of a selection map for nodes `0..n`, joined in node order: the
/// bind groups of every compute pass of a frame, in the order they run.
pub open spec fn joined_selectors(selectors: Map<u32, Seq<u32>>, n: int) -> Seq<u32>
    decreases n,
{
    if n <= 0 {
        Seq::empty()
    } else {
        joined_selectors(selectors, n - 1) + selectors[(n - 1) as u32]
    }
}

/// Iteration counts are never negative, so passes-before is never negative.
proof fn lemma_passes_before_nonneg(configs: Seq<ShaderConfig>, k: int)
    ensures
        passes_before(configs, k) >= 0,
    decreases k,
{
    if k > 0 {
        lemma_passes_before_nonneg(configs, k - 1);
    }
}

/// All passes of the first `n` nodes, joined: pass `k` of the frame uses bind
/// group `k % 2`, across the boundaries between nodes too. The final pass
/// uses group 0 when no compute pass runs, and otherwise the group other than
/// the one the last compute pass used, so it reads what that pass wrote.
pub proof fn law_selection_alternates_over_all_passes(configs: Seq<ShaderConfig>, n: int)
    requires
        0 <= n <= configs.len(),
        n <= u32::MAX,
    ensures
        joined_selectors(spec_selectors(configs, n), n) == Seq::new(
            passes_before(configs, n) as nat,
            |k: int| (k % 2) as u32,
        ),
        passes_before(configs, n) == 0 ==> passes_before(configs, n) % 2 == 0,
        passes_before(configs, n) > 0 ==> passes_before(configs, n) % 2 == 1 - joined_selectors(
            spec_selectors(configs, n),
            n,
        ).last(),
{
    lemma_joined_prefix(configs, n, n);
    lemma_passes_before_nonneg(configs, n);
}

/// The joined lists of the first `j` nodes of the selection of `n` nodes.
proof fn lemma_joined_prefix(configs: Seq<ShaderConfig>, n: int, j: int)
    requires
        0 <= j <= n <= configs.len(),
        n <= u32::MAX,
    ensures
        joined_selectors(spec_selectors(configs, n), j) == Seq::new(
            passes_before(configs, j) as nat,
            |k: int| (k % 2) as u32,
        ),
    decreases j,
{
    lemma_passes_before_nonneg(configs, j);
    if j > 0 {
        lemma_joined_prefix(configs, n, j - 1);
        lemma_passes_before_nonneg(configs, j - 1);
        let sel = spec_selectors(configs, n);
        assert(sel.contains_key((j - 1) as u32));
        assert(sel[(j - 1) as u32] == node_groups(configs, j - 1));
        assert(joined_selectors(sel, j) =~= Seq::new(
            passes_before(configs, j) as nat,
            |k: int| (k % 2) as u32,
        ));
    } else {
        assert(joined_selectors(spec_selectors(configs, n), 0) =~= Seq::new(
            passes_before(configs, 0) as nat,
            |k: int| (k % 2) as u32,
        ));
    }
}

/// A compute node dispatches with exactly the groups its selection lists, one
/// per iteration, whenever the list is long enough and names only existing
/// groups; a node without iterations dispatches nothing.
pub proof fn law_dispatch_uses_listed_groups(groups: Seq<u32>, iterations: nat, group_count: nat)
    requires
        groups.len() >= iterations,
        forall|j: int| 0 <= j < iterations ==> #[trigger] groups[j] < group_count,
    ensures
        spec_compute_dispatches(Some(groups), iterations, group_count) is Some,
        spec_compute_dispatches(Some(groups), iterations, group_count)->0.len() == iterations,
        forall|j: int|
            0 <= j < iterations ==> #[trigger] spec_compute_dispatches(
                Some(groups),
                iterations,
                group_count,
            )->0[j] == PassBindGroup::Compute(groups[j]),
{
}

/// With the selection that `bind_group_selection` builds, iteration `j` of
/// node `k` dispatches with group `(passes_before(k) + j) % 2`: the ping-pong
/// carries on across nodes instead of restarting at each node, so every
/// node's first pass reads what the previous node's last pass wrote.
pub proof fn law_node_dispatch_follows_pass_count(configs: Seq<ShaderConfig>, n: int, k: int)
    requires
        0 <= k < n <= configs.len(),
        n <= u32::MAX,
    ensures
        spec_compute_dispatches(
            Some(spec_selectors(configs, n)[k as u32]),
            configs[k].iterations as nat,
            2,
        ) == Some(
            Seq::new(
                configs[k].iterations as nat,
                |j: int| PassBindGroup::Compute(((passes_before(configs, k) + j) % 2) as u32),
            ),
        ),
{
    let g = spec_selectors(configs, n)[k as u32];
    assert(g == node_groups(configs, k));
    let its = configs[k].iterations as nat;
    if its > 0 {
        assert forall|j: int| 0 <= j < its implies #[trigger] g[j] < 2 by {
            assert(g[j] == ((passes_before(configs, k) + j) % 2) as u32);
        }
        law_dispatch_uses_listed_groups(g, its, 2);
        assert(spec_compute_dispatches(Some(g), its, 2)->0 =~= Seq::new(
            its,
            |j: int| PassBindGroup::Compute(((passes_before(configs, k) + j) % 2) as u32),
        ));
    } else {
        assert(spec_compute_dispatches(Some(g), its, 2)->0 =~= Seq::new(
            its,
            |j: int| PassBindGroup::Compute(((passes_before(configs, k) + j) % 2) as u32),
        ));
    }
}

} // verus!
