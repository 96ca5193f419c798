//! The shadow pass node: for every point light, every cube face and
//! every visible shadow caster, it records the caster's draw commands,
//! resolves the camera bind groups of the caster's pipeline, and
//! transmits the face's view-projection together with the light and face
//! indices through push constants — keeping per-face data out of the
//! shared uniform buffer. Emission order is lights, then faces, then
//! casters, so consecutive draws sharing a pipeline are batched by the
//! draw-state compiler.

use vstd::prelude::*;
use crate::command::{clone_u8_vec, Command, RenderCommand, views_of_commands};
use crate::slot::{ResourceType, SlotInfo};

verus! {

/// Visibility mask bit of the vertex shader stage.
pub const SHADER_STAGE_VERTEX: u32 = 1;

/// Visibility mask bit of the fragment shader stage.
pub const SHADER_STAGE_FRAGMENT: u32 = 2;

/// Where a pass attachment gets its texture from.
#[derive(Debug)]
pub enum TextureAttachment {
    /// A resolved texture handle.
    Id(u64),
    /// The pass input slot with this name.
    Input(String),
    /// A globally named texture.
    Name(String),
}

/// What happens to an attachment at the start of the pass.
#[derive(Clone, Copy, PartialEq, Eq, Structural, Debug)]
pub enum LoadOp {
    /// Clear to the attachment's clear value.
    Clear,
    /// Keep what the previous pass left.
    Load,
}

/// Load and store behaviour of one attachment.
#[derive(Clone, Copy, PartialEq, Eq, Structural, Debug)]
pub struct Operations {
    pub load: LoadOp,
    pub store: bool,
}

/// The depth/stencil attachment of a pass.
#[derive(Debug)]
pub struct DepthStencilAttachment {
    pub attachment: TextureAttachment,
    pub depth_ops: Option<Operations>,
    pub stencil_ops: Option<Operations>,
}

/// Everything a render pass is begun with.
#[derive(Debug)]
pub struct PassDescriptor {
    pub depth_stencil_attachment: Option<DepthStencilAttachment>,
    pub sample_count: u32,
}

/// One visible shadow caster's recorded command stream for this pass.
#[derive(Debug)]
pub struct CasterCommands {
    pub commands: Vec<RenderCommand>,
}

/// The camera bind group commands registered for pipeline `p`, or the
/// empty stream when none are.
pub open spec fn camera_commands_of(cams: Seq<(u64, Vec<RenderCommand>)>, p: u64) -> Seq<
    Command,
> {
    if exists|i: int| 0 <= i < cams.len() && (#[trigger] cams[i]).0 == p {
        views_of_commands(
            cams[choose|i: int| 0 <= i < cams.len() && (#[trigger] cams[i]).0 == p].1@,
        )
    } else {
        Seq::empty()
    }
}

/// What one recorded command expands to: the command itself, followed —
/// when it sets a pipeline — by that pipeline's camera bind groups and
/// one push-constant write carrying the face's `payload`.
pub open spec fn command_block(
    c: Command,
    cams: Seq<(u64, Vec<RenderCommand>)>,
    payload: Seq<u8>,
    stages: u32,
) -> Seq<Command> {
    seq![c] + match c {
        Command::SetPipeline { pipeline } => camera_commands_of(cams, pipeline) + seq![
            Command::SetPushConstants { stages, offset: 0, data: payload },
        ],
        _ => Seq::empty(),
    }
}

/// The expansion of the first `upto` commands of one caster's stream.
pub open spec fn caster_stream(
    cmds: Seq<Command>,
    upto: int,
    cams: Seq<(u64, Vec<RenderCommand>)>,
    payload: Seq<u8>,
    stages: u32,
) -> Seq<Command>
    decreases upto,
{
    if upto <= 0 {
        Seq::empty()
    } else {
        caster_stream(cmds, upto - 1, cams, payload, stages) + command_block(
            cmds[upto - 1],
            cams,
            payload,
            stages,
        )
    }
}

/// The expansions of the first `upto` casters, concatenated.
pub open spec fn casters_stream(
    casters: Seq<CasterCommands>,
    upto: int,
    cams: Seq<(u64, Vec<RenderCommand>)>,
    payload: Seq<u8>,
    stages: u32,
) -> Seq<Command>
    decreases upto,
{
    if upto <= 0 {
        Seq::empty()
    } else {
        casters_stream(casters, upto - 1, cams, payload, stages) + caster_stream(
            views_of_commands(casters[upto - 1].commands@),
            views_of_commands(casters[upto - 1].commands@).len() as int,
            cams,
            payload,
            stages,
        )
    }
}

/// The streams of the first `fupto` cube faces of light `l`,
/// concatenated. The payload of face `f` of light `l` sits at position
/// `l * 6 + f`.
pub open spec fn faces_stream(
    casters: Seq<CasterCommands>,
    cams: Seq<(u64, Vec<RenderCommand>)>,
    payloads: Seq<Vec<u8>>,
    l: int,
    fupto: int,
    stages: u32,
) -> Seq<Command>
    decreases fupto,
{
    if fupto <= 0 {
        Seq::empty()
    } else {
        faces_stream(casters, cams, payloads, l, fupto - 1, stages) + casters_stream(
            casters,
            casters.len() as int,
            cams,
            payloads[l * 6 + (fupto - 1)]@,
            stages,
        )
    }
}

/// The streams of the first `lupto` lights, concatenated: lights outer,
/// faces middle, casters inner.
pub open spec fn lights_stream(
    casters: Seq<CasterCommands>,
    cams: Seq<(u64, Vec<RenderCommand>)>,
    payloads: Seq<Vec<u8>>,
    lupto: int,
    stages: u32,
) -> Seq<Command>
    decreases lupto,
{
    if lupto <= 0 {
        Seq::empty()
    } else {
        lights_stream(casters, cams, payloads, lupto - 1, stages) + faces_stream(
            casters,
            cams,
            payloads,
            lupto - 1,
            6,
            stages,
        )
    }
}

/// The camera bind group commands registered for pipeline `p`, if any.
fn find_camera_commands<'a>(cams: &'a Vec<(u64, Vec<RenderCommand>)>, p: u64) -> (r: Option<
    &'a Vec<RenderCommand>,
>)
    requires
        forall|i: int, j: int| 0 <= i < j < cams@.len() ==> (#[trigger] cams@[i]).0 != (
        #[trigger] cams@[j]).0,
    ensures
        match r {
            Some(v) => camera_commands_of(cams@, p) == views_of_commands(v@),
            None => camera_commands_of(cams@, p) == Seq::<Command>::empty(),
        },
{
    let n = cams.len();
    let mut i: usize = 0;
    while i < n
        invariant
            forall|a: int, b: int| 0 <= a < b < cams@.len() ==> (#[trigger] cams@[a]).0 != (
            #[trigger] cams@[b]).0,
            n == cams@.len(),
            i <= n,
            forall|j: int| 0 <= j < i ==> (#[trigger] cams@[j]).0 != p,
        decreases n - i,
    {
        if cams[i].0 == p {
            proof {
                let w = choose|k: int| 0 <= k < cams@.len() && (#[trigger] cams@[k]).0 == p;
                assert(w == i as int);
            }
            return Some(&cams[i].1);
        }
        i = i + 1;
    }
    proof {
        if exists|k: int| 0 <= k < cams@.len() && (#[trigger] cams@[k]).0 == p {
            let w = choose|k: int| 0 <= k < cams@.len() && (#[trigger] cams@[k]).0 == p;
            assert(false);
        }
    }
    None
}

/// Builds the shadow pass's full command stream: for each light, each of
/// its six cube faces, and each visible caster, the caster's commands
/// augmented — after each pipeline change — with the pipeline's camera
/// bind groups and a push-constant write of that face's payload.
///
/// `payloads` holds, at position `l * 6 + f`, the bytes light `l`'s face
/// `f` transmits (its view-projection with the light and face indices),
/// as prepared by the caller from the light's transform.
pub fn emit_shadow_pass_commands(
    light_count: usize,
    payloads: &Vec<Vec<u8>>,
    casters: &Vec<CasterCommands>,
    camera_commands: &Vec<(u64, Vec<RenderCommand>)>,
    stages: u32,
) -> (r: Vec<RenderCommand>)
    requires
        payloads@.len() == light_count * 6,
        forall|i: int, j: int|
            0 <= i < j < camera_commands@.len() ==> (#[trigger] camera_commands@[i]).0 != (
            #[trigger] camera_commands@[j]).0,
    ensures
        views_of_commands(r@) == lights_stream(
            casters@,
            camera_commands@,
            payloads@,
            light_count as int,
            stages,
        ),
{
    let mut out: Vec<RenderCommand> = Vec::new();
    proof {
        assert(views_of_commands(out@) =~= Seq::<Command>::empty());
    }
    let mut l: usize = 0;
    while l < light_count
        invariant
            payloads@.len() == light_count * 6,
            forall|i: int, j: int|
                0 <= i < j < camera_commands@.len() ==> (#[trigger] camera_commands@[i]).0 != (
                #[trigger] camera_commands@[j]).0,
            l <= light_count,
            views_of_commands(out@) == lights_stream(
                casters@,
                camera_commands@,
                payloads@,
                l as int,
                stages,
            ),
        decreases light_count - l,
    {
        let mut f: usize = 0;
        while f < 6
            invariant
                payloads@.len() == light_count * 6,
                forall|i: int, j: int|
                    0 <= i < j < camera_commands@.len() ==> (#[trigger] camera_commands@[i]).0
                        != (#[trigger] camera_commands@[j]).0,
                l < light_count,
                f <= 6,
                views_of_commands(out@) == lights_stream(
                    casters@,
                    camera_commands@,
                    payloads@,
                    l as int,
                    stages,
                ) + faces_stream(
                    casters@,
                    camera_commands@,
                    payloads@,
                    l as int,
                    f as int,
                    stages,
                ),
            decreases 6 - f,
        {
            let pl = payloads.len();
            proof {
                assert(pl == payloads@.len());
                assert(l * 6 + f < light_count * 6) by (nonlinear_arith)
                    requires
                        l < light_count,
                        f < 6,
                ;
                assert(light_count * 6 == payloads@.len());
            }
            let payload_index = l * 6 + f;
            let payload = &payloads[payload_index];
            let mut c: usize = 0;
            while c < casters.len()
                invariant
                    payloads@.len() == light_count * 6,
                    forall|i: int, j: int|
                        0 <= i < j < camera_commands@.len() ==> (
                        #[trigger] camera_commands@[i]).0 != (
                        #[trigger] camera_commands@[j]).0,
                    l < light_count,
                    f < 6,
                    payload_index == l * 6 + f,
                    (payload_index as int) < payloads@.len(),
                    payload == &payloads@[payload_index as int],
                    c <= casters@.len(),
                    views_of_commands(out@) == lights_stream(
                        casters@,
                        camera_commands@,
                        payloads@,
                        l as int,
                        stages,
                    ) + faces_stream(
                        casters@,
                        camera_commands@,
                        payloads@,
                        l as int,
                        f as int,
                        stages,
                    ) + casters_stream(
                        casters@,
                        c as int,
                        camera_commands@,
                        payload@,
                        stages,
                    ),
                decreases casters@.len() - c,
            {
                let cmds = &casters[c].commands;
                let mut k: usize = 0;
                while k < cmds.len()
                    invariant
                        payloads@.len() == light_count * 6,
                        forall|i: int, j: int|
                            0 <= i < j < camera_commands@.len() ==> (
                            #[trigger] camera_commands@[i]).0 != (
                            #[trigger] camera_commands@[j]).0,
                        l < light_count,
                        f < 6,
                        payload_index == l * 6 + f,
                        (payload_index as int) < payloads@.len(),
                        payload == &payloads@[payload_index as int],
                        c < casters@.len(),
                        cmds == &casters@[c as int].commands,
                        k <= cmds@.len(),
                        views_of_commands(out@) == lights_stream(
                            casters@,
                            camera_commands@,
                            payloads@,
                            l as int,
                            stages,
                        ) + faces_stream(
                            casters@,
                            camera_commands@,
                            payloads@,
                            l as int,
                            f as int,
                            stages,
                        ) + casters_stream(
                            casters@,
                            c as int,
                            camera_commands@,
                            payload@,
                            stages,
                        ) + caster_stream(
                            views_of_commands(cmds@),
                            k as int,
                            camera_commands@,
                            payload@,
                            stages,
                        ),
                    decreases cmds@.len() - k,
                {
                    let ghost out_pre = views_of_commands(out@);
                    let cmd = &cmds[k];
                    let ghost cv = cmds@[k as int]@;
                    out.push(cmd.clone());
                    proof {
                        assert(views_of_commands(out@) =~= out_pre.push(cv));
                    }
                    match cmd {
                        RenderCommand::SetPipeline { pipeline } => {
                            match find_camera_commands(camera_commands, *pipeline) {
                                Some(cam_cmds) => {
                                    let m = cam_cmds.len();
                                    let mut q: usize = 0;
                                    while q < m
                                        invariant
                                            m == cam_cmds@.len(),
                                            q <= m,
                                            views_of_commands(out@) == out_pre.push(cv)
                                                + views_of_commands(cam_cmds@).take(q as int),
                                        decreases m - q,
                                    {
                                        let ghost out_mid = views_of_commands(out@);
                                        out.push(cam_cmds[q].clone());
                                        proof {
                                            assert(views_of_commands(out@) =~= out_mid.push(
                                                cam_cmds@[q as int]@,
                                            ));
                                            assert(views_of_commands(cam_cmds@).take(
                                                q as int + 1,
                                            ) =~= views_of_commands(cam_cmds@).take(
                                                q as int,
                                            ).push(cam_cmds@[q as int]@));
                                        }
                                        q = q + 1;
                                    }
                                    proof {
                                        assert(views_of_commands(cam_cmds@).take(m as int)
                                            =~= views_of_commands(cam_cmds@));
                                    }
                                },
                                None => {},
                            }
                            let data = clone_u8_vec(payload);
                            let pc = RenderCommand::SetPushConstants {
                                stages,
                                offset: 0,
                                data,
                            };
                            let ghost out_mid2 = views_of_commands(out@);
                            out.push(pc);
                            proof {
                                assert(views_of_commands(out@) =~= out_mid2.push(
                                    Command::SetPushConstants {
                                        stages,
                                        offset: 0,
                                        data: payload@,
                                    },
                                ));
                                assert(views_of_commands(out@) =~= out_pre + command_block(
                                    cv,
                                    camera_commands@,
                                    payload@,
                                    stages,
                                ));
                            }
                        },
                        _ => {
                            proof {
                                assert(command_block(cv, camera_commands@, payload@, stages)
                                    =~= seq![cv]);
                                assert(views_of_commands(out@) =~= out_pre + command_block(
                                    cv,
                                    camera_commands@,
                                    payload@,
                                    stages,
                                ));
                            }
                        },
                    }
                    proof {
                        assert(views_of_commands(cmds@)[k as int] == cv);
                    }
                    k = k + 1;
                }
                proof {
                    assert(views_of_commands(cmds@).len() == cmds@.len());
                }
                c = c + 1;
            }
            f = f + 1;
        }
        l = l + 1;
    }
    out
}

/// The shadow pass node: holds the pass descriptor, the cameras whose
/// bindings feed the pass, and the commands recorded for the current
/// frame.
#[derive(Debug)]
pub struct ShadowPassNode {
    descriptor: PassDescriptor,
    cameras: Vec<String>,
    commands: Vec<RenderCommand>,
}

impl ShadowPassNode {
    /// The cameras whose bindings feed the pass, in registration order.
    pub closed spec fn spec_cameras(&self) -> Seq<String> {
        self.cameras@
    }

    /// The commands recorded for the current frame.
    pub closed spec fn spec_commands(&self) -> Seq<RenderCommand> {
        self.commands@
    }

    /// The pass descriptor.
    pub closed spec fn spec_descriptor(&self) -> &PassDescriptor {
        &self.descriptor
    }

    /// A shadow pass over a single-sampled depth attachment fed by the
    /// pass's input slot, cleared at the start of the pass.
    pub fn new() -> (r: ShadowPassNode)
        ensures
            r.spec_cameras().len() == 0,
            r.spec_commands().len() == 0,
            r.spec_descriptor().sample_count == 1,
            r.spec_descriptor().depth_stencil_attachment matches Some(a) && (a.attachment
                matches TextureAttachment::Input(n) && n@ == "depth"@) && (a.depth_ops
                matches Some(o) && o.load == LoadOp::Clear && o.store) && a.stencil_ops
                is None,
    {
        let descriptor = PassDescriptor {
            depth_stencil_attachment: Some(
                DepthStencilAttachment {
                    attachment: TextureAttachment::Input("depth".to_string()),
                    depth_ops: Some(Operations { load: LoadOp::Clear, store: true }),
                    stencil_ops: None,
                },
            ),
            sample_count: 1,
        };
        ShadowPassNode { descriptor, cameras: Vec::new(), commands: Vec::new() }
    }

    /// Registers a camera whose bindings feed the pass.
    pub fn add_camera(&mut self, camera_name: String)
        ensures
            final(self).spec_cameras() == old(self).spec_cameras().push(camera_name),
            final(self).spec_commands() == old(self).spec_commands(),
    {
        self.cameras.push(camera_name);
    }

    /// The pass's input slots: the shadow texture it renders into.
    pub fn input(&self) -> (r: Vec<SlotInfo>)
        ensures
            r@.len() == 1,
            r@[0].name@ == "shadow_texture"@,
            r@[0].resource_type == ResourceType::Texture,
    {
        let mut r: Vec<SlotInfo> = Vec::new();
        let info = SlotInfo::new("shadow_texture".to_string(), ResourceType::Texture);
        r.push(info);
        r
    }

    /// Records this frame's stream: the emission over all lights, faces
    /// and casters.
    pub fn prepare(
        &mut self,
        light_count: usize,
        payloads: &Vec<Vec<u8>>,
        casters: &Vec<CasterCommands>,
        camera_commands: &Vec<(u64, Vec<RenderCommand>)>,
    )
        requires
            payloads@.len() == light_count * 6,
            forall|i: int, j: int|
                0 <= i < j < camera_commands@.len() ==> (#[trigger] camera_commands@[i]).0 != (
                #[trigger] camera_commands@[j]).0,
        ensures
            final(self).spec_cameras() == old(self).spec_cameras(),
            views_of_commands(final(self).spec_commands()) == lights_stream(
                casters@,
                camera_commands@,
                payloads@,
                light_count as int,
                SHADER_STAGE_VERTEX | SHADER_STAGE_FRAGMENT,
            ),
    {
        self.commands = emit_shadow_pass_commands(
            light_count,
            payloads,
            casters,
            camera_commands,
            SHADER_STAGE_VERTEX | SHADER_STAGE_FRAGMENT,
        );
    }

    /// Hands the recorded commands out for compilation, leaving the node
    /// empty for the next frame.
    pub fn take_commands(&mut self) -> (r: Vec<RenderCommand>)
        ensures
            r@ == old(self).spec_commands(),
            final(self).spec_commands().len() == 0,
            final(self).spec_cameras() == old(self).spec_cameras(),
    {
        let mut taken: Vec<RenderCommand> = Vec::new();
        core::mem::swap(&mut self.commands, &mut taken);
        taken
    }
}

} // verus!
