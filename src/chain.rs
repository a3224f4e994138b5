use crate::digraph::is_topo_order;
use crate::graph::{occupant, Graph};
use crate::render::PassBinding;
use crate::video_node::{VideoNode, VideoNodeKind};
use std::collections::HashMap;
use vstd::prelude::*;

verus! {

broadcast use vstd::std_specs::hash::group_hash_axioms;

/// What one node did in a frame.
pub struct NodeFrame {
    /// The node.
    pub id: usize,
    /// Image in each input slot: the output of the upstream node in this
    /// frame, or none.
    pub inputs: Vec<Option<u64>>,
    /// Its passes, in execution order.
    pub passes: Vec<PassBinding>,
    /// Its output image, if it has one.
    pub output: Option<u64>,
}

/// Output of node `u` among the frames `frames`; none where `u` did not run.
pub open spec fn output_of(frames: Seq<NodeFrame>, u: usize) -> Option<u64> {
    if exists|j: int| 0 <= j < frames.len() && (#[trigger] frames[j]).id == u {
        frames[choose|j: int| 0 <= j < frames.len() && (#[trigger] frames[j]).id == u].output
    } else {
        None
    }
}

/// Image fed to slot `slot` of `id` when the frames `frames` have run.
pub open spec fn input_image(g: Graph, frames: Seq<NodeFrame>, id: usize, slot: usize) -> Option<u64> {
    match occupant(g.edges(), id, slot) {
        Some(u) => output_of(frames, u),
        None => None,
    }
}

/// `r` is what planning a frame of `g` gives on a chain that goes from
/// `before` to `after`: refused, with nothing changed, exactly while a node
/// lacks its buffers; otherwise every node once, in topological order, each
/// input slot holding the output that its upstream node gave earlier in
/// the same frame.
pub open spec fn frame_planned(
    g: Graph,
    before: RenderChain,
    after: RenderChain,
    r: Result<Vec<NodeFrame>, ChainError>,
) -> bool {
    &&& (r is Err <==> exists|k: usize| #[trigger] g.ids().contains(k) && !before.provisioned(g, k))
    &&& (r matches Err(ChainError::MissingResources { id }) ==> {
        &&& g.ids().contains(id)
        &&& !before.provisioned(g, id)
        &&& after.buffers() == before.buffers()
        &&& after.spec_scratch() == before.spec_scratch()
    })
    &&& (r matches Ok(frames) ==> {
        &&& is_topo_order(g.ids(), g.edges(), Seq::new(frames@.len(), |k: int| frames@[k].id))
        &&& Seq::new(frames@.len(), |k: int| frames@[k].id) == g.order()
        &&& forall|k: int| 0 <= k < frames@.len() ==> frame_of_node(g.node_map()[#[trigger] frames@[k].id], frames@[k])
        &&& forall|k: int|
            0 <= k < frames@.len() ==> {
                &&& (#[trigger] frames@[k]).inputs@.len() == g.n_inputs_of(frames@[k].id)
                &&& frames@[k].passes@.len() == g.node_map()[frames@[k].id].spec_n_buffers()
                &&& forall|i: int|
                    0 <= i < frames@[k].inputs@.len() ==> #[trigger] frames@[k].inputs@[i]
                        == input_image(g, frames@.take(k), frames@[k].id, i as usize)
            }
        &&& after.buffers().dom() == before.buffers().dom()
        &&& forall|k: usize| #[trigger] g.ids().contains(k) ==> after.provisioned(g, k)
    })
    &&& after.spec_size() == before.spec_size()
}

/// `f` is what node `node` did in a frame: the sink draws nothing and
/// hands on its first input; an effect runs its passes from last to first,
/// each with its own program and the node's inputs, and gives the image that
/// its first pass drew.
pub open spec fn frame_of_node(node: VideoNode, f: NodeFrame) -> bool {
    match node.spec_kind() {
        VideoNodeKind::Output => f.passes@.len() == 0 && f.output == f.inputs@[0],
        VideoNodeKind::Effect(e) => {
            let n = e.passes().len();
            &&& n >= 1
            &&& f.passes@.len() == n
            &&& forall|j: int|
                0 <= j < n ==> {
                    &&& (#[trigger] f.passes@[j]).pass == n - 1 - j
                    &&& f.passes@[j].shader == e.passes()[n - 1 - j]
                    &&& f.passes@[j].inputs@ == f.inputs@
                }
            &&& f.output == Some(f.passes@[n - 1].target)
        },
    }
}

/// Why a frame could not run.
#[derive(Clone, Copy, Debug, PartialEq, Eq, Structural)]
pub enum ChainError {
    /// Node `id` has no buffers, or not one per pass.
    MissingResources { id: usize },
}

/// Per-node images of a render graph at one resolution, and the shared
/// scratch image that passes draw into.
pub struct RenderChain {
    width: u32,
    height: u32,
    buffers: HashMap<usize, Vec<u64>>,
    scratch: u64,
}

impl RenderChain {
    /// The buffers held for each node.
    pub closed spec fn buffers(&self) -> Map<usize, Seq<u64>> {
        Map::new(|k: usize| self.buffers@.contains_key(k), |k: usize| self.buffers@[k]@)
    }

    pub closed spec fn spec_size(&self) -> (u32, u32) {
        (self.width, self.height)
    }

    pub closed spec fn spec_scratch(&self) -> u64 {
        self.scratch
    }

    /// Whether node `k` of `g` has one buffer per pass.
    pub open spec fn provisioned(&self, g: Graph, k: usize) -> bool {
        self.buffers().contains_key(k) && self.buffers()[k].len() == g.node_map()[k].spec_n_buffers()
    }

    /// A chain of the given size, with no node buffers yet.
    pub fn new(width: u32, height: u32, scratch: u64) -> (r: RenderChain)
        ensures
            r.spec_size() == (width, height),
            r.spec_scratch() == scratch,
            r.buffers() == Map::<usize, Seq<u64>>::empty(),
    {
        let r = RenderChain { width, height, buffers: HashMap::new(), scratch };
        proof {
            assert(r.buffers() =~= Map::<usize, Seq<u64>>::empty());
        }
        r
    }

    pub fn size(&self) -> (r: (u32, u32))
        ensures
            r == self.spec_size(),
    {
        (self.width, self.height)
    }

    /// The nodes of `g` that lack buffers, each with the number it needs.
    pub fn missing_resources(&self, g: &Graph) -> (r: Vec<(usize, usize)>)
        requires
            g.wf(),
        ensures
            forall|k: usize|
                #[trigger] g.ids().contains(k) && !self.provisioned(*g, k) ==> exists|i: int|
                    0 <= i < r@.len() && (#[trigger] r@[i]).0 == k,
            forall|i: int|
                0 <= i < r@.len() ==> {
                    &&& g.ids().contains((#[trigger] r@[i]).0)
                    &&& !self.provisioned(*g, r@[i].0)
                    &&& r@[i].1 == g.node_map()[r@[i].0].spec_n_buffers()
                },
    {
        let order = g.toposort();
        let mut r: Vec<(usize, usize)> = Vec::new();
        let mut i: usize = 0;
        while i < order.len()
            invariant
                g.wf(),
                i <= order@.len(),
                order@.to_set() == g.ids(),
                forall|j: int|
                    0 <= j < i && !self.provisioned(*g, #[trigger] order@[j]) ==> exists|m: int|
                        0 <= m < r@.len() && (#[trigger] r@[m]).0 == order@[j],
                forall|m: int|
                    0 <= m < r@.len() ==> {
                        &&& g.ids().contains((#[trigger] r@[m]).0)
                        &&& !self.provisioned(*g, r@[m].0)
                        &&& r@[m].1 == g.node_map()[r@[m].0].spec_n_buffers()
                    },
            decreases order@.len() - i,
        {
            let id = order[i];
            proof {
                assert(order@.to_set().contains(id));
            }
            let n = match g.node(id) {
                Some(node) => node.n_buffers(),
                None => 0,
            };
            let ok = match self.buffers.get(&id) {
                Some(b) => b.len() == n,
                None => false,
            };
            let ghost old_r = r@;
            if !ok {
                r.push((id, n));
            }
            proof {
                assert(ok == self.provisioned(*g, id));
                assert forall|j: int|
                    0 <= j < i + 1 && !self.provisioned(*g, #[trigger] order@[j]) implies exists|m: int|
                        0 <= m < r@.len() && (#[trigger] r@[m]).0 == order@[j] by {
                    if j < i {
                        let m = choose|m: int| 0 <= m < old_r.len() && (#[trigger] old_r[m]).0 == order@[j];
                        assert(r@[m] == old_r[m]);
                    } else {
                        assert(r@[old_r.len() as int].0 == id);
                    }
                }
            }
            i = i + 1;
        }
        proof {
            assert forall|k: usize| #[trigger] g.ids().contains(k) && !self.provisioned(*g, k) implies exists|i: int|
                0 <= i < r@.len() && (#[trigger] r@[i]).0 == k by {
                assert(order@.to_set().contains(k));
                let j = choose|j: int| 0 <= j < order@.len() && order@[j] == k;
            }
        }
        r
    }

    /// Plans one frame: every node of `g` runs once, in topological order,
    /// with, in each input slot, the output that the upstream node gave
    /// earlier in this same frame. Refused, with nothing changed, while a
    /// node lacks its buffers.
    pub fn render_frame(&mut self, g: &Graph) -> (r: Result<Vec<NodeFrame>, ChainError>)
        requires
            g.wf(),
        ensures
            frame_planned(*g, *old(self), *final(self), r),
            final(self).spec_size() == old(self).spec_size(),
    {
        let missing = self.missing_resources(g);
        if missing.len() > 0 {
            return Err(ChainError::MissingResources { id: missing[0].0 });
        }
        let order = g.toposort();
        let ghost b0 = self.buffers();
        let mut frames: Vec<NodeFrame> = Vec::new();
        let mut k: usize = 0;
        while k < order.len()
            invariant
                g.wf(),
                is_topo_order(g.ids(), g.edges(), order@),
                k <= order@.len(),
                frames@.len() == k,
                forall|j: int| 0 <= j < k ==> (#[trigger] frames@[j]).id == order@[j],
                self.buffers().dom() == b0.dom(),
                forall|x: usize| #[trigger] g.ids().contains(x) ==> self.provisioned(*g, x),
                self.spec_size() == old(self).spec_size(),
                forall|j: int| 0 <= j < k ==> frame_of_node(g.node_map()[#[trigger] frames@[j].id], frames@[j]),
                order@ == g.order(),
                forall|j: int|
                    0 <= j < k ==> {
                        &&& (#[trigger] frames@[j]).inputs@.len() == g.n_inputs_of(frames@[j].id)
                        &&& frames@[j].passes@.len() == g.node_map()[frames@[j].id].spec_n_buffers()
                        &&& forall|i: int|
                            0 <= i < frames@[j].inputs@.len() ==> #[trigger] frames@[j].inputs@[i]
                                == input_image(*g, frames@.take(j), frames@[j].id, i as usize)
                    },
            decreases order@.len() - k,
        {
            let id = order[k];
            proof {
                assert(order@.to_set().contains(id));
            }
            let node = match g.node(id) {
                Some(n) => n,
                None => {
                    return Err(ChainError::MissingResources { id });
                },
            };
            let slots = match g.node_inputs(id) {
                Some(v) => v,
                None => {
                    return Err(ChainError::MissingResources { id });
                },
            };
            proof {
                assert forall|a: int, b: int|
                    0 <= a < frames@.len() && 0 <= b < frames@.len() && (#[trigger] frames@[a]).id == (
                    #[trigger] frames@[b]).id implies a == b by {
                    assert(order@[a] == order@[b]);
                }
            }
            let mut inputs: Vec<Option<u64>> = Vec::new();
            let mut i: usize = 0;
            while i < slots.len()
                invariant
                    i <= slots@.len(),
                    inputs@.len() == i,
                    forall|a: int, b: int|
                        0 <= a < frames@.len() && 0 <= b < frames@.len() && (#[trigger] frames@[a]).id == (
                        #[trigger] frames@[b]).id ==> a == b,
                    forall|m: int| 0 <= m < i ==> #[trigger] inputs@[m] == (match slots@[m] {
                        Some(u) => output_of(frames@, u),
                        None => None,
                    }),
                decreases slots@.len() - i,
            {
                let img = match slots[i] {
                    Some(u) => find_output(&frames, u),
                    None => None,
                };
                inputs.push(img);
                i = i + 1;
            }
            let mut bufs = match self.buffers.remove(&id) {
                Some(b) => b,
                None => {
                    return Err(ChainError::MissingResources { id });
                },
            };
            let (passes, output) = node.render(&inputs, &mut bufs, &mut self.scratch);
            self.buffers.insert(id, bufs);
            let ghost old_frames = frames@;
            frames.push(NodeFrame { id, inputs, passes, output });
            proof {
                assert(self.buffers().dom() =~= b0.dom());
                assert forall|x: usize| #[trigger] g.ids().contains(x) implies self.provisioned(*g, x) by {
                }
                assert(frames@.take(k as int) =~= old_frames);
                assert forall|j: int| 0 <= j < k + 1 implies frame_of_node(g.node_map()[#[trigger] frames@[j].id], frames@[j]) by {
                    if j < k {
                        assert(frames@[j] == old_frames[j]);
                    }
                }
                assert forall|j: int| 0 <= j < k + 1 implies {
                        &&& (#[trigger] frames@[j]).inputs@.len() == g.n_inputs_of(frames@[j].id)
                        &&& frames@[j].passes@.len() == g.node_map()[frames@[j].id].spec_n_buffers()
                        &&& forall|i: int|
                            0 <= i < frames@[j].inputs@.len() ==> #[trigger] frames@[j].inputs@[i]
                                == input_image(*g, frames@.take(j), frames@[j].id, i as usize)
                    } by {
                    if j < k {
                        assert(frames@.take(j) =~= old_frames.take(j));
                        assert(frames@[j] == old_frames[j]);
                    }
                }
            }
            k = k + 1;
        }
        proof {
            assert(Seq::new(frames@.len(), |j: int| frames@[j].id) =~= order@);
        }
        Ok(frames)
    }

    /// Hands node `id` its buffers.
    pub fn provide(&mut self, id: usize, handles: Vec<u64>)
        ensures
            final(self).buffers() == old(self).buffers().insert(id, handles@),
            final(self).spec_size() == old(self).spec_size(),
            final(self).spec_scratch() == old(self).spec_scratch(),
    {
        self.buffers.insert(id, handles);
        proof {
            assert(self.buffers() =~= old(self).buffers().insert(id, handles@));
        }
    }
}

/// Output of node `u` in the frames run so far.
fn find_output(frames: &Vec<NodeFrame>, u: usize) -> (r: Option<u64>)
    requires
        forall|i: int, j: int|
            0 <= i < frames@.len() && 0 <= j < frames@.len() && (#[trigger] frames@[i]).id == (
            #[trigger] frames@[j]).id ==> i == j,
    ensures
        r == output_of(frames@, u),
{
    let mut i: usize = 0;
    while i < frames.len()
        invariant
            i <= frames@.len(),
            forall|j: int| 0 <= j < i ==> (#[trigger] frames@[j]).id != u,
            forall|a: int, b: int|
                0 <= a < frames@.len() && 0 <= b < frames@.len() && (#[trigger] frames@[a]).id == (
                #[trigger] frames@[b]).id ==> a == b,
        decreases frames@.len() - i,
    {
        if frames[i].id == u {
            proof {
                let j = choose|j: int| 0 <= j < frames@.len() && (#[trigger] frames@[j]).id == u;
                assert(frames@[j].id == frames@[i as int].id);
            }
            return frames[i].output;
        }
        i = i + 1;
    }
    None
}

} // verus!
