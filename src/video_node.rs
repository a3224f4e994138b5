use crate::effect_node::{advanced, program_of, EffectError, EffectNode};
use crate::library::{Entry, Library, Status};
use crate::render::{planned, PassBinding};
use vstd::prelude::*;
use vstd::string::StringExecFns;

verus! {

/// What a node does when rendered.
pub enum VideoNodeKind {
    /// A shader effect.
    Effect(EffectNode),
    /// Terminal sink with one input.
    Output,
}

/// A unit of computation in the render graph.
pub struct VideoNode {
    id: usize,
    name: String,
    n_inputs: usize,
    kind: VideoNodeKind,
}

/// Text of the program that the library holds loaded under `name`.
pub open spec fn loaded_text(lib: &Library, name: Seq<char>) -> Option<Seq<char>> {
    match lib.status(name) {
        Status::Loaded(Entry::Effect { source_hash }) => if lib.stored().contains_key(source_hash.0) {
            Some(lib.stored()[source_hash.0])
        } else {
            None
        },
        _ => None,
    }
}

/// `b` is `a` advanced to `time`: an effect as `EffectNode::pre_render`
/// advances it, the sink unchanged.
pub open spec fn node_advanced(a: VideoNode, b: VideoNode, time: u64) -> bool {
    &&& b.spec_id() == a.spec_id()
    &&& b.spec_name() == a.spec_name()
    &&& b.spec_n_inputs() == a.spec_n_inputs()
    &&& b.spec_n_buffers() == a.spec_n_buffers()
    &&& match a.spec_kind() {
        VideoNodeKind::Effect(e) => b.spec_kind() is Effect && advanced(e, b.spec_kind()->Effect_0, time),
        VideoNodeKind::Output => b == a,
    }
}

/// Source of node identities: each one handed out once.
pub struct NodeIds {
    next: usize,
}

impl NodeIds {
    pub closed spec fn next_id(&self) -> nat {
        self.next as nat
    }

    pub fn new() -> (r: NodeIds)
        ensures
            r.next_id() == 0,
    {
        NodeIds { next: 0 }
    }

    /// A fresh identity, larger than every one handed out before.
    pub fn fresh(&mut self) -> (r: Option<usize>)
        ensures
            match r {
                Some(id) => id == old(self).next_id() && old(self).next_id() < usize::MAX
                    && final(self).next_id() == old(self).next_id() + 1,
                None => old(self).next_id() == usize::MAX && final(self).next_id() == old(self).next_id(),
            },
    {
        if self.next == usize::MAX {
            None
        } else {
            let id = self.next;
            self.next = self.next + 1;
            Some(id)
        }
    }
}

impl VideoNode {
    pub closed spec fn spec_id(&self) -> usize {
        self.id
    }

    pub closed spec fn spec_kind(&self) -> VideoNodeKind {
        self.kind
    }

    pub closed spec fn spec_n_inputs(&self) -> nat {
        self.n_inputs as nat
    }

    pub closed spec fn spec_name(&self) -> Seq<char> {
        self.name@
    }

    /// The terminal sink, with one input.
    pub fn output(id: usize) -> (r: VideoNode)
        ensures
            r.spec_id() == id,
            r.spec_n_inputs() == 1,
            r.spec_name() == "Output"@,
            r.spec_kind() is Output,
            r.wf(),
    {
        proof {
            reveal_strlit("Output");
        }
        VideoNode { id, name: String::from_str("Output"), n_inputs: 1, kind: VideoNodeKind::Output }
    }

    /// The effect `name` as the library holds it, under identity `id`.
    /// Refused where the library holds no loaded program of that name.
    pub fn effect(lib: &Library, id: usize, name: &str) -> (r: Result<VideoNode, EffectError>)
        requires
            lib.wf(),
        ensures
            match loaded_text(lib, name@) {
                None => r == Err::<VideoNode, EffectError>(EffectError::UnknownEffect),
                Some(text) => match program_of(text) {
                    Err(e) => r == Err::<VideoNode, EffectError>(e),
                    Ok(p) => r matches Ok(node) && {
                        &&& node.wf()
                        &&& node.spec_id() == id
                        &&& node.spec_name() == name@
                        &&& node.spec_n_inputs() == p.2
                        &&& node.spec_kind() is Effect
                        &&& node.spec_kind()->Effect_0.sources() == p.0
                    },
                },
            },
    {
        match lib.effect_source(name) {
            Status::Loaded(text) => match EffectNode::new(id, name, text.as_str()) {
                Ok(e) => {
                    let n_inputs = e.n_inputs();
                    Ok(VideoNode { id, name: String::from_str(name), n_inputs, kind: VideoNodeKind::Effect(e) })
                },
                Err(err) => Err(err),
            },
            _ => Err(EffectError::UnknownEffect),
        }
    }

    /// The kind of node and its state.
    pub fn kind(&self) -> (r: &VideoNodeKind)
        ensures
            *r == self.spec_kind(),
    {
        &self.kind
    }

    pub closed spec fn wf(&self) -> bool {
        match self.kind {
            VideoNodeKind::Effect(e) => e.wf() && e.spec_id() == self.id && e.spec_n_inputs() == self.n_inputs,
            VideoNodeKind::Output => self.n_inputs == 1,
        }
    }

    /// Number of per-pass buffers: one per pass of an effect, none for the sink.
    pub fn n_buffers(&self) -> (r: usize)
        ensures
            r == self.spec_n_buffers(),
    {
        match &self.kind {
            VideoNodeKind::Effect(e) => e.n_buffers(),
            VideoNodeKind::Output => 0,
        }
    }

    pub closed spec fn spec_n_buffers(&self) -> nat {
        match self.kind {
            VideoNodeKind::Effect(e) => e.passes().len(),
            VideoNodeKind::Output => 0,
        }
    }

    /// Sets the intensity of an effect, in thousandths; `false` for the sink.
    pub fn set_intensity(&mut self, intensity: u32) -> (r: bool)
        requires
            old(self).wf(),
            intensity <= 1000,
        ensures
            final(self).wf(),
            r == old(self).spec_kind() is Effect,
            r == final(self).spec_kind() is Effect,
            !r ==> *final(self) == *old(self),
            r ==> final(self).spec_kind()->Effect_0.sources() == old(self).spec_kind()->Effect_0.sources(),
            r ==> final(self).spec_kind()->Effect_0.spec_intensity() == intensity,
            final(self).spec_id() == old(self).spec_id(),
            final(self).spec_n_inputs() == old(self).spec_n_inputs(),
            final(self).spec_n_buffers() == old(self).spec_n_buffers(),
            final(self).spec_name() == old(self).spec_name(),
    {
        match &mut self.kind {
            VideoNodeKind::Effect(e) => {
                e.set_intensity(intensity);
                true
            },
            VideoNodeKind::Output => false,
        }
    }

    /// Advances an effect's clock to `time` (milliseconds).
    pub fn pre_render(&mut self, time: u64)
        requires
            old(self).wf(),
        ensures
            final(self).wf(),
            final(self).spec_id() == old(self).spec_id(),
            final(self).spec_n_inputs() == old(self).spec_n_inputs(),
            final(self).spec_n_buffers() == old(self).spec_n_buffers(),
            node_advanced(*old(self), *final(self), time),
    {
        match &mut self.kind {
            VideoNodeKind::Effect(e) => e.pre_render(time),
            VideoNodeKind::Output => {},
        }
    }

    /// Plans this node's frame: an effect runs its passes; the sink draws
    /// nothing and hands on its input.
    pub fn render(&self, inputs: &Vec<Option<u64>>, buffers: &mut Vec<u64>, scratch: &mut u64) -> (r: (
        Vec<PassBinding>,
        Option<u64>,
    ))
        requires
            self.wf(),
            inputs@.len() == self.spec_n_inputs(),
            old(buffers)@.len() == self.spec_n_buffers(),
        ensures
            final(buffers)@.len() == old(buffers)@.len(),
            r.0@.len() == self.spec_n_buffers(),
            self.spec_kind() is Output ==> r.0@.len() == 0 && r.1 == inputs@[0] && final(buffers)@ == old(buffers)@
                && *final(scratch) == *old(scratch),
            self.spec_kind() is Effect ==> planned(self.spec_kind()->Effect_0.passes(), inputs@, old(buffers)@, *old(scratch), r.0@),
            self.spec_kind() is Effect ==> self.spec_kind()->Effect_0.passes().len() >= 1,
            self.spec_kind() is Effect ==> r.0@.len() == old(buffers)@.len() && r.1 == Some(final(buffers)@[0])
                && final(buffers)@ == crate::render::buffers_after(old(buffers)@, *old(scratch))
                && *final(scratch) == old(buffers)@[0],
    {
        match &self.kind {
            VideoNodeKind::Effect(e) => {
                let (plan, out) = e.render(inputs, buffers, scratch);
                (plan, Some(out))
            },
            VideoNodeKind::Output => (Vec::new(), inputs[0]),
        }
    }

    pub fn id(&self) -> (r: usize)
        ensures
            r == self.spec_id(),
    {
        self.id
    }

    pub fn n_inputs(&self) -> (r: usize)
        ensures
            r == self.spec_n_inputs(),
    {
        self.n_inputs
    }

    pub fn name(&self) -> (r: &str)
        ensures
            r@ == self.spec_name(),
    {
        self.name.as_str()
    }
}

} // verus!
