use vstd::prelude::*;

verus! {

/// Image that pass `i` renders into, given the per-pass buffers `b` and
/// the scratch image `s` at the start of the frame. Passes run from last
/// to first, each drawing into the scratch image and then swapping it with
/// its own buffer, so the last pass draws into `s` and every other pass
/// into the buffer of the pass after it.
pub open spec fn pass_target(b: Seq<u64>, s: u64, i: int) -> u64 {
    if i == b.len() - 1 {
        s
    } else {
        b[i + 1]
    }
}

/// The per-pass buffers after a frame: each pass's buffer holds what it drew.
pub open spec fn buffers_after(b: Seq<u64>, s: u64) -> Seq<u64> {
    Seq::new(b.len(), |i: int| pass_target(b, s, i))
}

/// The buffers that pass `i` reads: those of later passes, which ran
/// already this frame, hold this frame's images; its own and those of
/// earlier passes still hold the previous frame's.
pub open spec fn channels_at(b: Seq<u64>, s: u64, i: int) -> Seq<u64> {
    Seq::new(b.len(), |j: int| if j > i { pass_target(b, s, j) } else { b[j] })
}

/// `plan` runs the passes with programs `shaders` from last to first, each
/// binding the node's inputs `inputs` and its buffers as `channels_at`
/// gives them, and drawing where `pass_target` says.
pub open spec fn planned(
    shaders: Seq<Option<u64>>,
    inputs: Seq<Option<u64>>,
    b: Seq<u64>,
    s: u64,
    plan: Seq<PassBinding>,
) -> bool {
    &&& plan.len() == shaders.len()
    &&& forall|k: int|
        0 <= k < plan.len() ==> {
            let p = shaders.len() - 1 - k;
            &&& (#[trigger] plan[k]).pass == p
            &&& plan[k].shader == shaders[p]
            &&& plan[k].inputs@ == inputs
            &&& plan[k].channels@ == channels_at(b, s, p)
            &&& plan[k].target == pass_target(b, s, p)
        }
}

/// What one pass binds and where it draws.
pub struct PassBinding {
    /// Index of the pass in declaration order.
    pub pass: usize,
    /// Compiled program of the pass; `None` draws with the pass-through blit.
    pub shader: Option<u64>,
    /// The node's input images, one per input slot.
    pub inputs: Vec<Option<u64>>,
    /// Every pass buffer of the node, as this pass reads them.
    pub channels: Vec<u64>,
    /// The image drawn into.
    pub target: u64,
}

/// Plans one frame of a multi-pass node: passes run in reverse declaration
/// order; each draws into the scratch image, which is then swapped with
/// that pass's buffer. Returns the bindings in execution order and the
/// node's output, the buffer of the first pass.
pub fn plan_passes(
    shaders: &Vec<Option<u64>>,
    inputs: &Vec<Option<u64>>,
    buffers: &mut Vec<u64>,
    scratch: &mut u64,
) -> (r: (Vec<PassBinding>, u64))
    requires
        old(buffers)@.len() == shaders@.len(),
        shaders@.len() >= 1,
    ensures
        final(buffers)@ == buffers_after(old(buffers)@, *old(scratch)),
        *final(scratch) == old(buffers)@[0],
        r.1 == final(buffers)@[0],
        planned(shaders@, inputs@, old(buffers)@, *old(scratch), r.0@),
{
    let ghost b0 = buffers@;
    let ghost s0 = *scratch;
    let n = buffers.len();
    let mut plan: Vec<PassBinding> = Vec::new();
    let mut i: usize = n;
    while i > 0
        invariant
            n == b0.len(),
            n == shaders@.len(),
            n >= 1,
            i <= n,
            buffers@.len() == n,
            plan@.len() == n - i,
            forall|j: int| 0 <= j < i ==> #[trigger] buffers@[j] == b0[j],
            forall|j: int| i <= j < n ==> #[trigger] buffers@[j] == pass_target(b0, s0, j),
            *scratch == (if i == n { s0 } else { b0[i as int] }),
            forall|k: int|
                0 <= k < plan@.len() ==> {
                    let p = n - 1 - k;
                    &&& (#[trigger] plan@[k]).pass == p
                    &&& plan@[k].shader == shaders@[p]
                    &&& plan@[k].inputs@ == inputs@
                    &&& plan@[k].channels@ == channels_at(b0, s0, p)
                    &&& plan@[k].target == pass_target(b0, s0, p)
                },
        decreases i,
    {
        let p = i - 1;
        let mut channels: Vec<u64> = Vec::new();
        let mut j: usize = 0;
        while j < n
            invariant
                j <= n,
                n == buffers@.len(),
                channels@ == buffers@.subrange(0, j as int),
            decreases n - j,
        {
            channels.push(buffers[j]);
            proof {
                assert(buffers@.subrange(0, j + 1) =~= buffers@.subrange(0, j as int).push(buffers@[j as int]));
            }
            j = j + 1;
        }
        proof {
            assert(channels@ =~= channels_at(b0, s0, p as int));
        }
        let target = *scratch;
        plan.push(PassBinding { pass: p, shader: shaders[p], inputs: inputs.clone(), channels, target });
        let previous = buffers[p];
        buffers.set(p, target);
        *scratch = previous;
        i = p;
    }
    proof {
        assert(buffers@ =~= buffers_after(b0, s0));
        assert(planned(shaders@, inputs@, b0, s0, plan@));
    }
    let out = buffers[0];
    (plan, out)
}

/// Feedback across frames: in the second of two consecutive frames, each
/// pass reads, in its own channel, exactly the image that it drew in the
/// first.
pub proof fn lemma_feedback(b: Seq<u64>, s: u64, i: int)
    requires
        0 <= i < b.len(),
    ensures
        channels_at(buffers_after(b, s), b[0], i)[i] == pass_target(b, s, i),
{
}

} // verus!
