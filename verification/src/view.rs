//! Per-view render targets: the main texture a camera's view renders
//! into (optionally high dynamic range and multi-sampled), the texture
//! presented to the surface, and the per-view depth texture — all drawn
//! from the transient resource provider.

use vstd::prelude::*;
use crate::resource_cache::{TextureCache, TextureDescriptor, TextureDimension, TextureFormat};

verus! {

/// Texture usage flag: the texture may be copied from.
pub const TEXTURE_USAGE_COPY_SRC: u32 = 1;

/// Texture usage flag: the texture may be copied to.
pub const TEXTURE_USAGE_COPY_DST: u32 = 2;

/// Texture usage flag: the texture may be bound for sampling.
pub const TEXTURE_USAGE_TEXTURE_BINDING: u32 = 4;

/// Texture usage flag: the texture may be bound for storage access.
pub const TEXTURE_USAGE_STORAGE_BINDING: u32 = 8;

/// Texture usage flag: the texture may be a render attachment.
pub const TEXTURE_USAGE_RENDER_ATTACHMENT: u32 = 16;

/// The format of high-dynamic-range main textures.
pub const TEXTURE_FORMAT_HDR: TextureFormat = TextureFormat::Rgba16Float;

/// The default surface-compatible texture format.
pub const DEFAULT_TEXTURE_FORMAT: TextureFormat = TextureFormat::Bgra8UnormSrgb;

/// Multi-sample anti-aliasing configuration: how many samples each
/// render target carries.
#[derive(Clone, Copy, PartialEq, Eq, Structural, Debug)]
pub struct Msaa {
    pub samples: u32,
}

impl Default for Msaa {
    /// Four samples.
    fn default() -> (r: Self)
        ensures
            r.samples == 4,
    {
        Msaa { samples: 4 }
    }
}

/// The main texture of a view: either a high-dynamic-range texture with
/// its tonemapping target, or a plain one; each with an optional
/// multi-sampled companion.
#[derive(Clone, Copy, PartialEq, Eq, Structural, Debug)]
pub enum ViewMainTexture {
    Hdr { hdr_texture: u64, sampled_hdr_texture: Option<u64>, ldr_texture: u64 },
    NoHdr { texture: u64, sampled_texture: Option<u64> },
}

impl ViewMainTexture {
    /// The texture the view's colors land in: the high-dynamic-range one
    /// when there is one, the plain one otherwise.
    pub fn maybe_hdr_texture(&self) -> (r: u64)
        ensures
            r == match *self {
                ViewMainTexture::Hdr { hdr_texture, .. } => hdr_texture,
                ViewMainTexture::NoHdr { texture, .. } => texture,
            },
    {
        match self {
            ViewMainTexture::Hdr { hdr_texture, .. } => *hdr_texture,
            ViewMainTexture::NoHdr { texture, .. } => *texture,
        }
    }
}

/// What a pass binds as its color attachment: the view to render into
/// and, when multi-sampling resolves into another texture, the resolve
/// target.
#[derive(Clone, Copy, PartialEq, Eq, Structural, Debug)]
pub struct ColorAttachmentTargets {
    pub view: u64,
    pub resolve_target: Option<u64>,
}

/// The textures one camera's view renders into and presents from.
#[derive(Clone, Copy, PartialEq, Eq, Structural, Debug)]
pub struct ViewTarget {
    pub main_texture: ViewMainTexture,
    pub out_texture: u64,
}

/// The descriptor of a view's main texture.
pub open spec fn main_texture_descriptor(
    width: u32,
    height: u32,
    format: TextureFormat,
) -> TextureDescriptor {
    TextureDescriptor {
        width,
        height,
        depth_or_array_layers: 1,
        mip_level_count: 1,
        sample_count: 1,
        dimension: TextureDimension::D2,
        format,
        usage: TEXTURE_USAGE_RENDER_ATTACHMENT | TEXTURE_USAGE_TEXTURE_BINDING,
    }
}

/// The descriptor of a view's multi-sampled companion texture.
pub open spec fn sampled_texture_descriptor(
    width: u32,
    height: u32,
    format: TextureFormat,
    samples: u32,
) -> TextureDescriptor {
    TextureDescriptor {
        width,
        height,
        depth_or_array_layers: 1,
        mip_level_count: 1,
        sample_count: samples,
        dimension: TextureDimension::D2,
        format,
        usage: TEXTURE_USAGE_RENDER_ATTACHMENT,
    }
}

/// The render targets of one view, as the transient resource provider
/// knows them: the main texture (high-dynamic-range when `hdr`, with the
/// tonemapping target then), and the multi-sampled companion when
/// `samples > 1`, each under the handle the provider cached for its
/// descriptor.
pub open spec fn view_target_matches(
    cache: &TextureCache,
    samples: u32,
    width: u32,
    height: u32,
    hdr: bool,
    vt: ViewTarget,
) -> bool {
    let format = if hdr {
        TEXTURE_FORMAT_HDR
    } else {
        DEFAULT_TEXTURE_FORMAT
    };
    let main_d = main_texture_descriptor(width, height, format);
    let sampled_d = sampled_texture_descriptor(width, height, format, samples);
    let ldr_d = main_texture_descriptor(width, height, DEFAULT_TEXTURE_FORMAT);
    &&& cache.has_descriptor(main_d)
    &&& (samples > 1 ==> cache.has_descriptor(sampled_d))
    &&& (hdr ==> cache.has_descriptor(ldr_d))
    &&& vt.main_texture == (if hdr {
        ViewMainTexture::Hdr {
            hdr_texture: cache.handle_of(main_d),
            sampled_hdr_texture: if samples > 1 {
                Some(cache.handle_of(sampled_d))
            } else {
                None
            },
            ldr_texture: cache.handle_of(ldr_d),
        }
    } else {
        ViewMainTexture::NoHdr {
            texture: cache.handle_of(main_d),
            sampled_texture: if samples > 1 {
                Some(cache.handle_of(sampled_d))
            } else {
                None
            },
        }
    })
}

impl ViewTarget {
    /// Builds one view's render targets from the transient resource
    /// provider: a main texture in the high-dynamic-range format when
    /// `hdr` (then also the tonemapping target in the default format),
    /// a multi-sampled companion when `msaa.samples > 1`, and the given
    /// surface texture to present from.
    pub fn new(
        cache: &mut TextureCache,
        msaa: &Msaa,
        width: u32,
        height: u32,
        out_texture: u64,
        hdr: bool,
    ) -> (r: ViewTarget)
        requires
            old(cache).wf(),
            old(cache).spec_next_id() + 3 <= u64::MAX,
        ensures
            final(cache).wf(),
            final(cache).spec_next_id() <= old(cache).spec_next_id() + 3,
            final(cache).spec_frame() == old(cache).spec_frame(),
            final(cache).spec_retain_frames() == old(cache).spec_retain_frames(),
            forall|d: TextureDescriptor|
                old(cache).has_descriptor(d) ==> #[trigger] final(cache).has_descriptor(d),
            forall|d: TextureDescriptor|
                old(cache).has_descriptor(d) ==> #[trigger] final(cache).handle_of(d) == old(
                    cache,
                ).handle_of(d),
            r.out_texture == out_texture,
            view_target_matches(final(cache), msaa.samples, width, height, hdr, r),
    {
        let main_texture_format = if hdr {
            TEXTURE_FORMAT_HDR
        } else {
            DEFAULT_TEXTURE_FORMAT
        };
        let main_descriptor = TextureDescriptor {
            width,
            height,
            depth_or_array_layers: 1,
            mip_level_count: 1,
            sample_count: 1,
            dimension: TextureDimension::D2,
            format: main_texture_format,
            usage: TEXTURE_USAGE_RENDER_ATTACHMENT | TEXTURE_USAGE_TEXTURE_BINDING,
        };
        let ghost c0 = *cache;
        let main_handle = cache.get(main_descriptor);
        let ghost c1 = *cache;
        let sampled_main_texture = if msaa.samples > 1 {
            let sampled_descriptor = TextureDescriptor {
                width,
                height,
                depth_or_array_layers: 1,
                mip_level_count: 1,
                sample_count: msaa.samples,
                dimension: TextureDimension::D2,
                format: main_texture_format,
                usage: TEXTURE_USAGE_RENDER_ATTACHMENT,
            };
            Some(cache.get(sampled_descriptor))
        } else {
            None
        };
        let ghost c2 = *cache;
        let main_texture = if hdr {
            let ldr_descriptor = TextureDescriptor {
                width,
                height,
                depth_or_array_layers: 1,
                mip_level_count: 1,
                sample_count: 1,
                dimension: TextureDimension::D2,
                format: DEFAULT_TEXTURE_FORMAT,
                usage: TEXTURE_USAGE_RENDER_ATTACHMENT | TEXTURE_USAGE_TEXTURE_BINDING,
            };
            let ldr_texture = cache.get(ldr_descriptor);
            proof {
                assert(cache.has_descriptor(ldr_descriptor));
            }
            ViewMainTexture::Hdr {
                hdr_texture: main_handle,
                sampled_hdr_texture: sampled_main_texture,
                ldr_texture,
            }
        } else {
            ViewMainTexture::NoHdr {
                texture: main_handle,
                sampled_texture: sampled_main_texture,
            }
        };
        proof {
            let format = if hdr {
                TEXTURE_FORMAT_HDR
            } else {
                DEFAULT_TEXTURE_FORMAT
            };
            assert(main_descriptor == main_texture_descriptor(width, height, format));
            assert forall|d: TextureDescriptor| old(cache).has_descriptor(d) implies
                #[trigger] cache.has_descriptor(d) && #[trigger] cache.handle_of(d) == old(
                cache,
            ).handle_of(d) by {
                assert(c1.has_descriptor(d) && c1.handle_of(d) == c0.handle_of(d));
                assert(c2.has_descriptor(d) && c2.handle_of(d) == c1.handle_of(d));
            }
            assert(cache.has_descriptor(main_descriptor));
            assert(cache.handle_of(main_descriptor) == main_handle) by {
                assert(c1.has_descriptor(main_descriptor) && c1.handle_of(main_descriptor)
                    == main_handle);
                assert(c2.has_descriptor(main_descriptor) && c2.handle_of(main_descriptor)
                    == c1.handle_of(main_descriptor));
            }
            if msaa.samples > 1 {
                let sampled_d = sampled_texture_descriptor(width, height, format, msaa.samples);
                assert(c2.has_descriptor(sampled_d));
                assert(cache.has_descriptor(sampled_d) && cache.handle_of(sampled_d)
                    == c2.handle_of(sampled_d));
            }
        }
        ViewTarget { main_texture, out_texture }
    }

    /// What a pass renders into: the multi-sampled texture resolving
    /// into the main texture when one exists, the main texture alone
    /// otherwise.
    pub fn get_color_attachment_hdr(&self) -> (r: ColorAttachmentTargets)
        ensures
            ({
                let (target, sampled) = match self.main_texture {
                    ViewMainTexture::Hdr { hdr_texture, sampled_hdr_texture, .. } => (
                        hdr_texture,
                        sampled_hdr_texture,
                    ),
                    ViewMainTexture::NoHdr { texture, sampled_texture } => (
                        texture,
                        sampled_texture,
                    ),
                };
                r == match sampled {
                    Some(s) => ColorAttachmentTargets { view: s, resolve_target: Some(target) },
                    None => ColorAttachmentTargets { view: target, resolve_target: None },
                }
            }),
    {
        let (target, sampled) = match &self.main_texture {
            ViewMainTexture::Hdr { hdr_texture, sampled_hdr_texture, .. } => (
                *hdr_texture,
                *sampled_hdr_texture,
            ),
            ViewMainTexture::NoHdr { texture, sampled_texture } => (*texture, *sampled_texture),
        };
        match sampled {
            Some(s) => ColorAttachmentTargets { view: s, resolve_target: Some(target) },
            None => ColorAttachmentTargets { view: target, resolve_target: None },
        }
    }
}

/// A view's depth texture and its view handle.
#[derive(Clone, Copy, PartialEq, Eq, Structural, Debug)]
pub struct ViewDepthTexture {
    pub texture: u64,
    pub view: u64,
}

/// The descriptor of a view's depth texture.
pub open spec fn depth_texture_descriptor(width: u32, height: u32) -> TextureDescriptor {
    TextureDescriptor {
        width,
        height,
        depth_or_array_layers: 1,
        mip_level_count: 1,
        sample_count: 1,
        dimension: TextureDimension::D2,
        format: TextureFormat::Depth32Float,
        usage: TEXTURE_USAGE_RENDER_ATTACHMENT,
    }
}

/// Draws a depth texture for every view size from the transient
/// resource provider, in order.
pub fn prepare_core_views(cache: &mut TextureCache, view_sizes: &Vec<(u32, u32)>) -> (r: Vec<
    ViewDepthTexture,
>)
    requires
        old(cache).wf(),
        old(cache).spec_next_id() + view_sizes@.len() <= u64::MAX,
    ensures
        final(cache).wf(),
        r@.len() == view_sizes@.len(),
        forall|i: int|
            0 <= i < r@.len() ==> final(cache).has_descriptor(
                depth_texture_descriptor((#[trigger] view_sizes@[i]).0, view_sizes@[i].1),
            ),
        forall|i: int|
            0 <= i < r@.len() ==> (#[trigger] r@[i]).texture == final(cache).handle_of(
                depth_texture_descriptor(view_sizes@[i].0, view_sizes@[i].1),
            ) && r@[i].view == r@[i].texture,
{
    let n = view_sizes.len();
    let mut r: Vec<ViewDepthTexture> = Vec::new();
    let mut i: usize = 0;
    while i < n
        invariant
            cache.wf(),
            cache.spec_next_id() + (n - i) <= u64::MAX,
            n == view_sizes@.len(),
            i <= n,
            r@.len() == i,
            forall|j: int|
                0 <= j < i ==> cache.has_descriptor(
                    depth_texture_descriptor((#[trigger] view_sizes@[j]).0, view_sizes@[j].1),
                ),
            forall|j: int|
                0 <= j < i ==> (#[trigger] r@[j]).texture == cache.handle_of(
                    depth_texture_descriptor(view_sizes@[j].0, view_sizes@[j].1),
                ) && r@[j].view == r@[j].texture,
        decreases n - i,
    {
        let size = view_sizes[i];
        let descriptor = TextureDescriptor {
            width: size.0,
            height: size.1,
            depth_or_array_layers: 1,
            mip_level_count: 1,
            sample_count: 1,
            dimension: TextureDimension::D2,
            format: TextureFormat::Depth32Float,
            usage: TEXTURE_USAGE_RENDER_ATTACHMENT,
        };
        proof {
            assert(descriptor == depth_texture_descriptor(view_sizes@[i as int].0, view_sizes@[
                i as int].1));
        }
        let ghost cache_pre = *cache;
        let ghost old_r = r@;
        let handle = cache.get(descriptor);
        let entry = ViewDepthTexture { texture: handle, view: handle };
        r.push(entry);
        proof {
            assert forall|j: int|
                0 <= j < i + 1 implies cache.has_descriptor(
                depth_texture_descriptor((#[trigger] view_sizes@[j]).0, view_sizes@[j].1),
            ) && (#[trigger] r@[j]).texture == cache.handle_of(
                depth_texture_descriptor(view_sizes@[j].0, view_sizes@[j].1),
            ) && r@[j].view == r@[j].texture by {
                let d = depth_texture_descriptor(view_sizes@[j].0, view_sizes@[j].1);
                if j < i {
                    assert(r@[j] == old_r[j]);
                    assert(cache_pre.has_descriptor(d));
                    assert(cache_pre.handle_of(d) == r@[j].texture);
                    assert(cache.has_descriptor(d));
                    assert(cache.handle_of(d) == cache_pre.handle_of(d));
                } else {
                    assert(r@[j] == entry);
                    assert(cache.has_descriptor(d));
                }
            }
        }
        i = i + 1;
    }
    r
}

/// One camera's surface as extracted for this frame: the view size,
/// whether it renders in high dynamic range, and the surface texture the
/// window currently offers, if any.
#[derive(Clone, Copy, PartialEq, Eq, Structural, Debug)]
pub struct CameraSurface {
    pub width: u32,
    pub height: u32,
    pub hdr: bool,
    pub swap_chain_texture: Option<u64>,
}

/// Builds the render targets of every camera whose window currently
/// offers a surface texture; a camera without one is skipped, not fatal:
/// an unavailable surface is a recoverable runtime condition.
pub fn prepare_view_targets(
    cache: &mut TextureCache,
    msaa: &Msaa,
    cameras: &Vec<CameraSurface>,
) -> (r: Vec<Option<ViewTarget>>)
    requires
        old(cache).wf(),
        old(cache).spec_next_id() + 3 * cameras@.len() <= u64::MAX,
    ensures
        final(cache).wf(),
        r@.len() == cameras@.len(),
        forall|i: int|
            0 <= i < r@.len() ==> ((#[trigger] r@[i]) is Some == (#[trigger] cameras@[
                i]).swap_chain_texture is Some),
        forall|i: int|
            0 <= i < r@.len() && (#[trigger] cameras@[i]).swap_chain_texture is Some ==> {
                &&& (#[trigger] r@[i])->Some_0.out_texture
                    == cameras@[i].swap_chain_texture->Some_0
                &&& view_target_matches(
                    final(cache),
                    msaa.samples,
                    cameras@[i].width,
                    cameras@[i].height,
                    cameras@[i].hdr,
                    r@[i]->Some_0,
                )
            },
{
    let n = cameras.len();
    let mut r: Vec<Option<ViewTarget>> = Vec::new();
    let mut i: usize = 0;
    while i < n
        invariant
            cache.wf(),
            cache.spec_next_id() + 3 * (n - i) <= u64::MAX,
            n == cameras@.len(),
            i <= n,
            r@.len() == i,
            forall|j: int|
                0 <= j < i ==> ((#[trigger] r@[j]) is Some == (#[trigger] cameras@[
                    j]).swap_chain_texture is Some),
            forall|j: int|
                0 <= j < i && (#[trigger] cameras@[j]).swap_chain_texture is Some ==> {
                    &&& (#[trigger] r@[j])->Some_0.out_texture
                        == cameras@[j].swap_chain_texture->Some_0
                    &&& view_target_matches(
                        cache,
                        msaa.samples,
                        cameras@[j].width,
                        cameras@[j].height,
                        cameras@[j].hdr,
                        r@[j]->Some_0,
                    )
                },
        decreases n - i,
    {
        let camera = cameras[i];
        let ghost cache_pre = *cache;
        let entry = match camera.swap_chain_texture {
            Some(surface) => {
                let target = ViewTarget::new(
                    cache,
                    msaa,
                    camera.width,
                    camera.height,
                    surface,
                    camera.hdr,
                );
                proof {
                    assert forall|d: TextureDescriptor| cache_pre.has_descriptor(d) implies
                        #[trigger] cache.has_descriptor(d) by {}
                    assert forall|d: TextureDescriptor| cache_pre.has_descriptor(d) implies
                        #[trigger] cache.handle_of(d) == cache_pre.handle_of(d) by {}
                }
                Some(target)
            },
            None => {
                proof {
                    assert forall|d: TextureDescriptor| cache_pre.has_descriptor(d) implies
                        #[trigger] cache.has_descriptor(d) by {}
                    assert forall|d: TextureDescriptor| cache_pre.has_descriptor(d) implies
                        #[trigger] cache.handle_of(d) == cache_pre.handle_of(d) by {}
                }
                None
            },
        };
        r.push(entry);
        proof {
            assert forall|j: int|
                0 <= j < i + 1 && (#[trigger] cameras@[j]).swap_chain_texture is Some
                implies {
                &&& (#[trigger] r@[j])->Some_0.out_texture
                    == cameras@[j].swap_chain_texture->Some_0
                &&& view_target_matches(
                    cache,
                    msaa.samples,
                    cameras@[j].width,
                    cameras@[j].height,
                    cameras@[j].hdr,
                    r@[j]->Some_0,
                )
            } by {
                if j < i {
                    assert(r@[j] is Some);
                    assert(r@[j]->Some_0.out_texture == cameras@[j].swap_chain_texture->Some_0);
                    assert(view_target_matches(
                        &cache_pre,
                        msaa.samples,
                        cameras@[j].width,
                        cameras@[j].height,
                        cameras@[j].hdr,
                        r@[j]->Some_0,
                    ));
                    let format = if cameras@[j].hdr {
                        TEXTURE_FORMAT_HDR
                    } else {
                        DEFAULT_TEXTURE_FORMAT
                    };
                    let main_d = main_texture_descriptor(
                        cameras@[j].width,
                        cameras@[j].height,
                        format,
                    );
                    let sampled_d = sampled_texture_descriptor(
                        cameras@[j].width,
                        cameras@[j].height,
                        format,
                        msaa.samples,
                    );
                    let ldr_d = main_texture_descriptor(
                        cameras@[j].width,
                        cameras@[j].height,
                        DEFAULT_TEXTURE_FORMAT,
                    );
                    assert(cache_pre.has_descriptor(main_d));
                    assert(cache.has_descriptor(main_d) && cache.handle_of(main_d)
                        == cache_pre.handle_of(main_d));
                    if msaa.samples > 1 {
                        assert(cache_pre.has_descriptor(sampled_d));
                        assert(cache.has_descriptor(sampled_d) && cache.handle_of(sampled_d)
                            == cache_pre.handle_of(sampled_d));
                    }
                    if cameras@[j].hdr {
                        assert(cache_pre.has_descriptor(ldr_d));
                        assert(cache.has_descriptor(ldr_d) && cache.handle_of(ldr_d)
                            == cache_pre.handle_of(ldr_d));
                    }
                } else {
                    assert(r@[j] == entry);
                }
            }
        }
        i = i + 1;
    }
    r
}

/// What a view renders to: a window's surface or a fixed texture.
#[derive(Clone, Copy, PartialEq, Eq, Structural, Debug)]
pub enum RenderTarget {
    Window(u64),
    Texture(u64),
}

/// The first window with the given identifier, if any.
pub open spec fn first_window(windows: Seq<(u64, Option<u64>)>, id: u64) -> Option<int>
    decreases windows.len(),
{
    if windows.len() == 0 {
        None
    } else if windows[0].0 == id {
        Some(0)
    } else {
        match first_window(windows.drop_first(), id) {
            Some(i) => Some(i + 1),
            None => None,
        }
    }
}

/// Resolves each render target of a view pass to a texture handle: a
/// fixed texture resolves to itself, a window to the surface texture it
/// currently offers. A window the frame does not know, or one whose
/// surface is unavailable, yields `None` for that target: the pass skips
/// its own work without aborting the whole frame.
pub fn resolve_render_targets(
    targets: &Vec<RenderTarget>,
    windows: &Vec<(u64, Option<u64>)>,
) -> (r: Vec<Option<u64>>)
    ensures
        r@.len() == targets@.len(),
        forall|i: int|
            0 <= i < r@.len() ==> #[trigger] r@[i] == (match targets@[i] {
                RenderTarget::Texture(t) => Some(t),
                RenderTarget::Window(id) => match first_window(windows@, id) {
                    Some(w) => windows@[w].1,
                    None => None,
                },
            }),
{
    let n = targets.len();
    let mut r: Vec<Option<u64>> = Vec::new();
    let mut i: usize = 0;
    while i < n
        invariant
            n == targets@.len(),
            i <= n,
            r@.len() == i,
            forall|j: int|
                0 <= j < i ==> #[trigger] r@[j] == (match targets@[j] {
                    RenderTarget::Texture(t) => Some(t),
                    RenderTarget::Window(id) => match first_window(windows@, id) {
                        Some(w) => windows@[w].1,
                        None => None,
                    },
                }),
        decreases n - i,
    {
        let resolved = match targets[i] {
            RenderTarget::Texture(t) => Some(t),
            RenderTarget::Window(id) => find_window_surface(windows, id),
        };
        r.push(resolved);
        i = i + 1;
    }
    r
}

/// The surface texture the window with identifier `id` offers, if the
/// window is known and its surface is available.
fn find_window_surface(windows: &Vec<(u64, Option<u64>)>, id: u64) -> (r: Option<u64>)
    ensures
        r == (match first_window(windows@, id) {
            Some(w) => windows@[w].1,
            None => None::<u64>,
        }),
{
    let n = windows.len();
    let mut i: usize = 0;
    while i < n
        invariant
            n == windows@.len(),
            i <= n,
            forall|j: int| 0 <= j < i ==> (#[trigger] windows@[j]).0 != id,
        decreases n - i,
    {
        if windows[i].0 == id {
            proof {
                lemma_first_window_at(windows@, id, i as int);
            }
            return windows[i].1;
        }
        i = i + 1;
    }
    proof {
        lemma_first_window_none(windows@, id);
    }
    None
}

proof fn lemma_first_window_at(s: Seq<(u64, Option<u64>)>, id: u64, i: int)
    requires
        0 <= i < s.len(),
        s[i].0 == id,
        forall|j: int| 0 <= j < i ==> s[j].0 != id,
    ensures
        first_window(s, id) == Some(i),
    decreases i,
{
    if i > 0 {
        lemma_first_window_at(s.drop_first(), id, i - 1);
    }
}

proof fn lemma_first_window_none(s: Seq<(u64, Option<u64>)>, id: u64)
    requires
        forall|j: int| 0 <= j < s.len() ==> s[j].0 != id,
    ensures
        first_window(s, id) is None,
    decreases s.len(),
{
    if s.len() > 0 {
        lemma_first_window_none(s.drop_first(), id);
    }
}

} // verus!
