use crate::chain::{frame_planned, ChainError, NodeFrame, RenderChain};
use crate::effect_node::EffectError;
use crate::graph::{lemma_graph_edges_valid, occupant, Graph, GraphError};
use crate::digraph::edges_within;
use crate::library::Library;
use crate::effect_node::program_of;
use crate::video_node::{loaded_text, node_advanced, NodeIds, VideoNode};
use vstd::prelude::*;

verus! {

/// Identities from `lo` up to, not including, `hi`.
pub open spec fn id_range(lo: int, hi: int) -> Set<usize> {
    Set::new(|k: usize| lo <= k < hi)
}

/// Names of the default effects, in the order they are added.
pub open spec fn default_names() -> Seq<Seq<char>> {
    seq![
        "oscope"@,
        "spin"@,
        "zoomin"@,
        "rjump"@,
        "lpf"@,
        "tunnel"@,
        "melt"@,
        "composite"@,
        "test"@,
    ]
}

/// `e` with edges `base + m -> base + m + 1` into slot 0, for `m < n`.
pub open spec fn chain_edges(e: Map<(usize, usize), usize>, base: int, n: nat) -> Map<(usize, usize), usize>
    decreases n,
{
    if n == 0 {
        e
    } else {
        chain_edges(e, base, (n - 1) as nat).insert(((base + n - 1) as usize, (base + n) as usize), 0)
    }
}

/// The edges of the default graph over the ten identities from `base`,
/// added to `e`: a chain through the eight effects, the ninth into the
/// second slot of the eighth, and the eighth into the sink.
pub open spec fn setup_edges(e: Map<(usize, usize), usize>, base: int) -> Map<(usize, usize), usize> {
    chain_edges(e, base, 7).insert(((base + 8) as usize, (base + 7) as usize), 1).insert(
        ((base + 7) as usize, (base + 9) as usize),
        0,
    )
}

proof fn lemma_chain_edges(e: Map<(usize, usize), usize>, base: int, n: nat)
    requires
        0 <= base,
        base + n + 1 <= usize::MAX,
    ensures
        forall|k: (usize, usize)| #[trigger] chain_edges(e, base, n).contains_key(k) ==> e.contains_key(k) || (
            base <= k.0 < base + n && k.1 == k.0 + 1 && chain_edges(e, base, n)[k] == 0),
    decreases n,
{
    if n > 0 {
        lemma_chain_edges(e, base, (n - 1) as nat);
        let prev = chain_edges(e, base, (n - 1) as nat);
        let key = ((base + n - 1) as usize, (base + n) as usize);
        assert(chain_edges(e, base, n) == prev.insert(key, 0));
        assert(key.0 == base + n - 1 && key.1 == base + n);
        assert forall|k: (usize, usize)| #[trigger] chain_edges(e, base, n).contains_key(k) implies e.contains_key(k) || (
            base <= k.0 < base + n && k.1 == k.0 + 1 && chain_edges(e, base, n)[k] == 0) by {
            if k != key {
                assert(prev.contains_key(k));
            }
        }
    }
}

/// Why building the graph failed.
#[derive(Clone, Copy, Debug, PartialEq, Eq, Structural)]
pub enum ModelError {
    /// An effect could not be built.
    Effect(EffectError),
    /// The graph refused an edge.
    Graph(GraphError),
    /// No identity is left to hand out.
    OutOfIds,
}

/// The render graph, the source of its node identities, and the node on show.
pub struct Model {
    graph: Graph,
    ids: NodeIds,
    show: Option<usize>,
}

impl Model {
    pub closed spec fn spec_graph(&self) -> Graph {
        self.graph
    }

    /// The identity that the next added node gets.
    pub closed spec fn spec_next_id(&self) -> nat {
        self.ids.next_id()
    }

    pub closed spec fn spec_show(&self) -> Option<usize> {
        self.show
    }

    /// The render graph.
    pub fn graph(&self) -> (r: &Graph)
        ensures
            *r == self.spec_graph(),
    {
        &self.graph
    }

    /// The node on show, if any.
    pub fn show(&self) -> (r: Option<usize>)
        ensures
            r == self.spec_show(),
    {
        self.show
    }

    pub closed spec fn wf(&self) -> bool {
        &&& self.graph.wf()
        &&& forall|k: usize| #[trigger] self.graph.ids().contains(k) ==> k < self.ids.next_id()
    }

    /// An empty graph with nothing on show.
    pub fn new() -> (r: Model)
        ensures
            r.wf(),
            r.spec_graph().ids().is_empty(),
            r.spec_show() is None,
    {
        let r = Model { graph: Graph::new(), ids: NodeIds::new(), show: None };
        proof {
            assert(r.spec_graph().ids() =~= Set::<usize>::empty());
        }
        r
    }

    /// Adds the effect `name` at the given intensity (thousandths), with no
    /// edges. On failure the graph is unchanged.
    pub fn append_node(&mut self, lib: &Library, name: &str, intensity: u32) -> (r: Result<usize, ModelError>)
        requires
            old(self).wf(),
            lib.wf(),
            intensity <= 1000,
        ensures
            final(self).wf(),
            final(self).spec_graph().edges() == old(self).spec_graph().edges(),
            final(self).spec_show() == old(self).spec_show(),
            final(self).spec_next_id() >= old(self).spec_next_id(),
            r matches Ok(id) ==> id == old(self).spec_next_id() && final(self).spec_next_id() == old(self).spec_next_id() + 1,
            match loaded_text(lib, name@) {
                None => r == Err::<usize, ModelError>(ModelError::Effect(EffectError::UnknownEffect)),
                Some(t) => match program_of(t) {
                    Err(e) => r == Err::<usize, ModelError>(ModelError::Effect(e)),
                    Ok(p) => if old(self).spec_next_id() == usize::MAX {
                        r == Err::<usize, ModelError>(ModelError::OutOfIds)
                    } else {
                        &&& r == Ok::<usize, ModelError>(old(self).spec_next_id() as usize)
                        &&& final(self).spec_next_id() == old(self).spec_next_id() + 1
                        &&& final(self).spec_graph().node_map()[r->Ok_0].spec_n_inputs() == p.2
                        &&& final(self).spec_graph().node_map()[r->Ok_0].spec_kind()->Effect_0.sources() == p.0
                    },
                },
            },
            match r {
                Ok(id) => {
                    &&& !old(self).spec_graph().ids().contains(id)
                    &&& final(self).spec_graph().ids() == old(self).spec_graph().ids().insert(id)
                    &&& forall|k: usize| k != id ==> #[trigger] final(self).spec_graph().node_map()[k] == old(self).spec_graph().node_map()[k]
                    &&& final(self).spec_graph().node_map()[id].spec_name() == name@
                    &&& final(self).spec_graph().node_map()[id].spec_kind() is Effect
                    &&& final(self).spec_graph().node_map()[id].spec_kind()->Effect_0.spec_intensity() == intensity
                },
                Err(_) => final(self).spec_graph().node_map() == old(self).spec_graph().node_map(),
            },
    {
        let id = match self.ids.fresh() {
            Some(id) => id,
            None => {
                return match VideoNode::effect(lib, 0, name) {
                    Err(e) => Err(ModelError::Effect(e)),
                    Ok(_) => Err(ModelError::OutOfIds),
                };
            },
        };
        let mut node = match VideoNode::effect(lib, id, name) {
            Ok(n) => n,
            Err(e) => {
                return Err(ModelError::Effect(e));
            },
        };
        node.set_intensity(intensity);
        let added = self.graph.add_videonode(node);
        proof {
            assert(added);
            assert(self.graph.ids() =~= old(self).spec_graph().ids().insert(id));
        }
        Ok(id)
    }

    /// Adds the output sink, with no edges, and puts it on show.
    pub fn add_output(&mut self) -> (r: Result<usize, ModelError>)
        requires
            old(self).wf(),
        ensures
            final(self).wf(),
            final(self).spec_graph().edges() == old(self).spec_graph().edges(),
            match r {
                Ok(id) => {
                    &&& id == old(self).spec_next_id()
                    &&& old(self).spec_next_id() < usize::MAX
                    &&& final(self).spec_next_id() == old(self).spec_next_id() + 1
                    &&& !old(self).spec_graph().ids().contains(id)
                    &&& final(self).spec_graph().ids() == old(self).spec_graph().ids().insert(id)
                    &&& forall|k: usize| k != id && old(self).spec_graph().ids().contains(k) ==> #[trigger] final(self).spec_graph().node_map()[k] == old(self).spec_graph().node_map()[k]
                    &&& final(self).spec_graph().node_map()[id].spec_kind() is Output
                    &&& final(self).spec_show() == Some(id)
                },
                Err(e) => e == ModelError::OutOfIds && old(self).spec_next_id() == usize::MAX
                    && final(self).spec_graph() == old(self).spec_graph()
                    && final(self).spec_show() == old(self).spec_show(),
            },
    {
        let id = match self.ids.fresh() {
            Some(id) => id,
            None => {
                return Err(ModelError::OutOfIds);
            },
        };
        let added = self.graph.add_videonode(VideoNode::output(id));
        proof {
            assert(added);
            assert(self.graph.ids() =~= old(self).graph.ids().insert(id));
        }
        self.show = Some(id);
        Ok(id)
    }

    /// Connects `src` to slot `slot` of `dst`, splicing as the graph does.
    pub fn add_edge(&mut self, src: usize, dst: usize, slot: usize) -> (r: Result<(), GraphError>)
        requires
            old(self).wf(),
        ensures
            final(self).wf(),
            final(self).spec_graph().node_map() == old(self).spec_graph().node_map(),
            final(self).spec_show() == old(self).spec_show(),
            final(self).spec_next_id() == old(self).spec_next_id(),
            match old(self).spec_graph().edge_error(src, dst, slot) {
                Some(e) => r == Err::<(), GraphError>(e) && final(self).spec_graph().edges()
                    == old(self).spec_graph().edges(),
                None => r is Ok && final(self).spec_graph().edges() == crate::graph::spliced(
                    old(self).spec_graph().edges(),
                    src,
                    dst,
                    slot,
                ),
            },
    {
        self.graph.add_edge_by_ids(src, dst, slot)
    }

    /// Sets the intensity of effect `id`, in thousandths.
    pub fn set_intensity(&mut self, id: usize, intensity: u32) -> (r: bool)
        requires
            old(self).wf(),
            intensity <= 1000,
        ensures
            final(self).wf(),
            r == (old(self).spec_graph().ids().contains(id)
                && old(self).spec_graph().node_map()[id].spec_kind() is Effect),
            r ==> final(self).spec_graph().node_map()[id].spec_kind()->Effect_0.spec_intensity() == intensity,
            !r ==> final(self).spec_graph().node_map() == old(self).spec_graph().node_map(),
            forall|k: usize| k != id ==> #[trigger] final(self).spec_graph().node_map()[k] == old(self).spec_graph().node_map()[k],
            final(self).spec_graph().ids() == old(self).spec_graph().ids(),
            final(self).spec_graph().edges() == old(self).spec_graph().edges(),
            final(self).spec_show() == old(self).spec_show(),
            final(self).spec_next_id() == old(self).spec_next_id(),
    {
        self.graph.set_intensity(id, intensity)
    }

    /// Builds the default graph: a chain of effects, a second input into
    /// the last one, and the output sink after it, on show. The new nodes
    /// take the next ten identities, in that order.
    pub fn setup(&mut self, lib: &Library) -> (r: Result<(), ModelError>)
        requires
            old(self).wf(),
            lib.wf(),
        ensures
            final(self).wf(),
            r is Ok ==> {
                let n0 = old(self).spec_next_id() as int;
                let g = final(self).spec_graph();
                &&& n0 + 10 <= usize::MAX
                &&& g.ids() == old(self).spec_graph().ids().union(id_range(n0, n0 + 10))
                &&& g.edges() == setup_edges(old(self).spec_graph().edges(), n0)
                &&& forall|m: int| 0 <= m < 9 ==> #[trigger] g.node_map()[(n0 + m) as usize].spec_name() == default_names()[m]
                &&& g.node_map()[(n0 + 9) as usize].spec_kind() is Output
                &&& final(self).spec_show() == Some((n0 + 9) as usize)
            },
    {
        let ghost n0: int = self.spec_next_id() as int;
        let ghost ids0 = self.spec_graph().ids();
        let ghost e0 = self.spec_graph().edges();
        proof {
            lemma_graph_edges_valid(self.graph);
        }
        let names = vec!["oscope", "spin", "zoomin", "rjump", "lpf", "tunnel", "melt", "composite"];
        let levels: Vec<u32> = vec![1000, 200, 300, 900, 300, 300, 400, 500];
        let mut ids: Vec<usize> = Vec::new();
        let mut i: usize = 0;
        while i < names.len()
            invariant
                self.wf(),
                lib.wf(),
                names@.len() == 8,
                levels@.len() == 8,
                forall|k: int| 0 <= k < 8 ==> #[trigger] levels@[k] <= 1000,
                forall|k: int| 0 <= k < 8 ==> #[trigger] names@[k]@ == default_names()[k],
                0 <= n0,
                i <= 8,
                ids@.len() == i,
                forall|m: int| 0 <= m < i ==> #[trigger] ids@[m] == n0 + m,
                self.spec_next_id() == n0 + i,
                self.spec_graph().ids() == ids0.union(id_range(n0, n0 + i)),
                self.spec_graph().edges() == e0,
                forall|m: int| 0 <= m < i ==> #[trigger] self.spec_graph().node_map()[(n0 + m) as usize].spec_name() == default_names()[m],
            decreases 8 - i,
        {
            let ghost before = self.spec_graph().node_map();
            let id = match self.append_node(lib, names[i], levels[i]) {
                Ok(id) => id,
                Err(e) => {
                    return Err(e);
                },
            };
            proof {
                assert forall|m: int| 0 <= m < i + 1 implies #[trigger] self.spec_graph().node_map()[(n0 + m) as usize].spec_name() == default_names()[m] by {
                    if m < i {
                        assert((n0 + m) as usize != id);
                        assert(before[(n0 + m) as usize].spec_name() == default_names()[m]);
                    } else {
                        assert(names@[m]@ == default_names()[m]);
                    }
                }
                assert(self.spec_graph().ids() =~= ids0.union(id_range(n0, n0 + i + 1)));
            }
            ids.push(id);
            i = i + 1;
        }
        let mut j: usize = 1;
        while j < ids.len()
            invariant
                self.wf(),
                ids@.len() == 8,
                forall|m: int| 0 <= m < 8 ==> #[trigger] ids@[m] == n0 + m,
                n0 + 8 == self.spec_next_id(),
                0 <= n0,
                1 <= j <= 8,
                edges_within(ids0, e0),
                forall|k: usize| #[trigger] ids0.contains(k) ==> k < n0,
                self.spec_graph().ids() == ids0.union(id_range(n0, n0 + 8)),
                self.spec_graph().edges() == chain_edges(e0, n0, (j - 1) as nat),
                forall|m: int| 0 <= m < 8 ==> #[trigger] self.spec_graph().node_map()[(n0 + m) as usize].spec_name() == default_names()[m],
            decreases 8 - j,
        {
            proof {
                lemma_chain_edges(e0, n0, (j - 1) as nat);
                let e = self.spec_graph().edges();
                let dst = ids@[j as int];
                assert forall|a: usize| !(#[trigger] e.contains_key((a, dst))) by {
                    if e0.contains_key((a, dst)) {
                        assert(ids0.contains(dst));
                    }
                }
                assert(occupant(e, dst, 0) is None);
            }
            match self.add_edge(ids[j - 1], ids[j], 0) {
                Ok(()) => {},
                Err(e) => {
                    return Err(ModelError::Graph(e));
                },
            }
            j = j + 1;
        }
        let last = ids[7];
        let test = match self.append_node(lib, "test", 700) {
            Ok(id) => id,
            Err(e) => {
                return Err(e);
            },
        };
        proof {
            reveal_strlit("test");
            lemma_chain_edges(e0, n0, 7);
            let e = self.spec_graph().edges();
            assert forall|a: usize| !(#[trigger] e.contains_key((a, last)) && e[(a, last)] == 1) by {
                if e0.contains_key((a, last)) {
                    assert(ids0.contains(last));
                }
            }
            assert(occupant(e, last, 1) is None);
        }
        match self.add_edge(test, last, 1) {
            Ok(()) => {},
            Err(e) => {
                return Err(ModelError::Graph(e));
            },
        }
        let out = match self.add_output() {
            Ok(id) => id,
            Err(e) => {
                return Err(e);
            },
        };
        proof {
            let e = self.spec_graph().edges();
            assert forall|a: usize| !(#[trigger] e.contains_key((a, out))) by {
                if e0.contains_key((a, out)) {
                    assert(ids0.contains(out));
                }
            }
            assert(occupant(e, out, 0) is None);
        }
        match self.add_edge(last, out, 0) {
            Ok(()) => {},
            Err(e) => {
                return Err(ModelError::Graph(e));
            },
        }
        proof {
            assert(self.spec_graph().ids() =~= ids0.union(id_range(n0, n0 + 10)));
            assert forall|m: int| 0 <= m < 9 implies #[trigger] self.spec_graph().node_map()[(n0 + m) as usize].spec_name() == default_names()[m] by {
            }
        }
        Ok(())
    }

    /// Advances every node's clock to `time` (milliseconds) and plans the
    /// frame on `chain`.
    pub fn render(&mut self, chain: &mut RenderChain, time: u64) -> (r: Result<Vec<NodeFrame>, ChainError>)
        requires
            old(self).wf(),
        ensures
            final(self).wf(),
            final(self).spec_graph().ids() == old(self).spec_graph().ids(),
            final(self).spec_graph().edges() == old(self).spec_graph().edges(),
            final(self).spec_show() == old(self).spec_show(),
            final(self).spec_next_id() == old(self).spec_next_id(),
            forall|k: usize| #[trigger] old(self).spec_graph().ids().contains(k) ==> node_advanced(
                old(self).spec_graph().node_map()[k],
                final(self).spec_graph().node_map()[k],
                time,
            ),
            frame_planned(final(self).spec_graph(), *old(chain), *final(chain), r),
    {
        self.graph.pre_render(time);
        chain.render_frame(&self.graph)
    }
}

} // verus!
