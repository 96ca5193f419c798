//! The shadows node of the simple directional-shadow path: each frame it
//! gathers the command streams of every shadow caster and keeps only the
//! geometry commands — vertex and index buffer bindings and the draws —
//! dropping the casters' own pipeline and bind group commands, which the
//! shadow pipeline replaces with its own.

use vstd::prelude::*;
use crate::command::{Command, RenderCommand, views_of_commands};
use crate::shadow_pass::{DepthStencilAttachment, LoadOp, Operations, PassDescriptor,
    TextureAttachment};
use crate::slot::{ResourceType, SlotInfo};

verus! {

/// Marks an entity whose geometry is rendered into the shadow map.
#[derive(Clone, Copy, PartialEq, Eq, Structural, Default, Debug)]
pub struct ShadowCaster;

/// Whether a recorded command is pure geometry: kept for the shadow
/// pass, while pipeline and bind group commands are dropped.
pub open spec fn is_shadow_command(c: Command) -> bool {
    match c {
        Command::SetPipeline { .. } => false,
        Command::SetBindGroup { .. } => false,
        Command::SetVertexBuffer { .. } => true,
        Command::SetIndexBuffer { .. } => true,
        Command::SetPushConstants { .. } => false,
        Command::Draw { .. } => true,
        Command::DrawIndexed { .. } => true,
    }
}

/// The geometry commands of the first `upto` casters' streams,
/// concatenated in caster order.
pub open spec fn shadow_commands_of(draws: Seq<Vec<RenderCommand>>, upto: int) -> Seq<Command>
    decreases upto,
{
    if upto <= 0 {
        Seq::empty()
    } else {
        shadow_commands_of(draws, upto - 1) + views_of_commands(draws[upto - 1]@).filter(
            |c: Command| is_shadow_command(c),
        )
    }
}

/// The geometry commands of every caster's stream, in order: vertex and
/// index buffer bindings and draws pass, everything else is dropped.
pub fn collect_shadow_commands(draws: &Vec<Vec<RenderCommand>>) -> (r: Vec<RenderCommand>)
    ensures
        views_of_commands(r@) == shadow_commands_of(draws@, draws@.len() as int),
{
    let n = draws.len();
    let mut r: Vec<RenderCommand> = Vec::new();
    proof {
        assert(views_of_commands(r@) =~= Seq::<Command>::empty());
    }
    let mut d: usize = 0;
    while d < n
        invariant
            n == draws@.len(),
            d <= n,
            views_of_commands(r@) == shadow_commands_of(draws@, d as int),
        decreases n - d,
    {
        let cmds = &draws[d];
        let m = cmds.len();
        let ghost pred = |c: Command| is_shadow_command(c);
        let mut k: usize = 0;
        proof {
            reveal_with_fuel(Seq::filter, 1);
            assert(views_of_commands(cmds@).take(0) =~= Seq::<Command>::empty());
        }
        while k < m
            invariant
                n == draws@.len(),
                d < n,
                cmds == &draws@[d as int],
                m == cmds@.len(),
                k <= m,
                pred == (|c: Command| is_shadow_command(c)),
                views_of_commands(r@) == shadow_commands_of(draws@, d as int)
                    + views_of_commands(cmds@).take(k as int).filter(pred),
            decreases m - k,
        {
            let cmd = &cmds[k];
            let ghost cv = cmds@[k as int]@;
            proof {
                reveal_with_fuel(Seq::filter, 1);
                let vk = views_of_commands(cmds@);
                assert(vk.take(k + 1 as int).drop_last() =~= vk.take(k as int));
                assert(vk.take(k + 1 as int).last() == cv);
            }
            let keep = match cmd {
                RenderCommand::SetPipeline { .. } => false,
                RenderCommand::SetVertexBuffer { .. } => true,
                RenderCommand::SetIndexBuffer { .. } => true,
                RenderCommand::SetBindGroup { .. } => false,
                RenderCommand::DrawIndexed { .. } => true,
                RenderCommand::Draw { .. } => true,
                RenderCommand::SetPushConstants { .. } => false,
            };
            if keep {
                let ghost pre = views_of_commands(r@);
                out_push(&mut r, cmd);
                proof {
                    assert(views_of_commands(r@) =~= pre.push(cv));
                }
            }
            k = k + 1;
        }
        proof {
            assert(views_of_commands(cmds@).take(m as int) =~= views_of_commands(cmds@));
        }
        d = d + 1;
    }
    r
}

/// Appends a copy of one command.
fn out_push(r: &mut Vec<RenderCommand>, cmd: &RenderCommand)
    ensures
        views_of_commands(final(r)@) == views_of_commands(old(r)@).push(cmd@),
{
    let c = cmd.clone();
    let ghost pre = r@;
    r.push(c);
    proof {
        assert(views_of_commands(r@) =~= views_of_commands(pre).push(cmd@));
    }
}

/// The shadows node: holds the pass descriptor and the geometry
/// commands gathered for the current frame.
#[derive(Debug)]
pub struct ShadowsNode {
    pass_descriptor: PassDescriptor,
    commands: Vec<RenderCommand>,
}

impl ShadowsNode {
    /// The commands gathered for the current frame.
    pub closed spec fn spec_commands(&self) -> Seq<RenderCommand> {
        self.commands@
    }

    /// The pass descriptor.
    pub closed spec fn spec_descriptor(&self) -> &PassDescriptor {
        &self.pass_descriptor
    }

    /// A shadow pass over a single-sampled depth attachment fed by the
    /// pass's input slot, cleared at the start of the pass.
    pub fn new() -> (r: ShadowsNode)
        ensures
            r.spec_commands().len() == 0,
            r.spec_descriptor().sample_count == 1,
            r.spec_descriptor().depth_stencil_attachment matches Some(a) && (a.attachment
                matches TextureAttachment::Input(n) && n@ == "depth"@) && (a.depth_ops
                matches Some(o) && o.load == LoadOp::Clear && o.store) && a.stencil_ops
                is None,
    {
        let pass_descriptor = PassDescriptor {
            depth_stencil_attachment: Some(
                DepthStencilAttachment {
                    attachment: TextureAttachment::Input("depth".to_string()),
                    depth_ops: Some(Operations { load: LoadOp::Clear, store: true }),
                    stencil_ops: None,
                },
            ),
            sample_count: 1,
        };
        ShadowsNode { pass_descriptor, commands: Vec::new() }
    }

    /// The node's input slots: the shadow texture it renders into.
    pub fn input(&self) -> (r: Vec<SlotInfo>)
        ensures
            r@.len() == 1,
            r@[0].name@ == "shadow_texture"@,
            r@[0].resource_type == ResourceType::Texture,
    {
        let mut r: Vec<SlotInfo> = Vec::new();
        let info = SlotInfo::new("shadow_texture".to_string(), ResourceType::Texture);
        r.push(info);
        r
    }

    /// The node's output slots: none.
    pub fn output(&self) -> (r: Vec<SlotInfo>)
        ensures
            r@.len() == 0,
    {
        Vec::new()
    }

    /// Replaces this frame's commands with the geometry commands of the
    /// given casters' streams.
    pub fn prepare(&mut self, draws: &Vec<Vec<RenderCommand>>)
        ensures
            views_of_commands(final(self).spec_commands()) == shadow_commands_of(
                draws@,
                draws@.len() as int,
            ),
    {
        self.commands = collect_shadow_commands(draws);
    }
}

} // verus!
