//! The transient resource provider: hands out stable opaque handles for
//! GPU textures keyed by full descriptor equality, recycling a cached
//! handle when one exists. Within one frame two requests with an
//! identical descriptor return the same handle. A frame-boundary marker
//! ages the entries; ones unused for more than the configured number of
//! frames are evicted. The GPU resources behind the handles are created
//! and destroyed by the collaborator that owns the device.

use vstd::prelude::*;

verus! {

/// Dimensionality of a texture.
#[derive(Clone, Copy, PartialEq, Eq, Structural, Debug)]
pub enum TextureDimension {
    D1,
    D2,
    D3,
}

/// Pixel format of a texture.
#[derive(Clone, Copy, PartialEq, Eq, Structural, Debug)]
pub enum TextureFormat {
    Rgba8UnormSrgb,
    Bgra8UnormSrgb,
    Rgba16Float,
    Depth32Float,
    R8Unorm,
}

/// Everything that identifies a transient texture; the cache key is the
/// whole descriptor. `usage` is a bit mask of usage flags.
#[derive(Clone, Copy, PartialEq, Eq, Structural, Debug)]
pub struct TextureDescriptor {
    pub width: u32,
    pub height: u32,
    pub depth_or_array_layers: u32,
    pub mip_level_count: u32,
    pub sample_count: u32,
    pub dimension: TextureDimension,
    pub format: TextureFormat,
    pub usage: u32,
}

/// How texture coordinates outside the texture are treated by a sampler.
#[derive(Clone, Copy, PartialEq, Eq, Structural, Debug)]
pub enum AddressMode {
    ClampToEdge,
    Repeat,
    MirrorRepeat,
}

/// How a sampler interpolates between texels.
#[derive(Clone, Copy, PartialEq, Eq, Structural, Debug)]
pub enum FilterMode {
    Nearest,
    Linear,
}

/// Everything that identifies a sampler.
#[derive(Clone, Copy, PartialEq, Eq, Structural, Debug)]
pub struct SamplerDescriptor {
    pub address_mode_u: AddressMode,
    pub address_mode_v: AddressMode,
    pub address_mode_w: AddressMode,
    pub mag_filter: FilterMode,
    pub min_filter: FilterMode,
}

impl Default for SamplerDescriptor {
    /// Clamped nearest-neighbour sampling.
    fn default() -> (r: Self)
        ensures
            r.address_mode_u == AddressMode::ClampToEdge,
            r.address_mode_v == AddressMode::ClampToEdge,
            r.address_mode_w == AddressMode::ClampToEdge,
            r.mag_filter == FilterMode::Nearest,
            r.min_filter == FilterMode::Nearest,
    {
        SamplerDescriptor {
            address_mode_u: AddressMode::ClampToEdge,
            address_mode_v: AddressMode::ClampToEdge,
            address_mode_w: AddressMode::ClampToEdge,
            mag_filter: FilterMode::Nearest,
            min_filter: FilterMode::Nearest,
        }
    }
}

/// One cached texture: its descriptor, its handle, and the frame it was
/// last requested in.
#[derive(Clone, Copy, PartialEq, Eq, Structural, Debug)]
pub struct CacheEntry {
    pub descriptor: TextureDescriptor,
    pub id: u64,
    pub last_used_frame: u64,
}

/// Caches and recycles transient GPU textures keyed by descriptor.
pub struct TextureCache {
    entries: Vec<CacheEntry>,
    next_id: u64,
    frame: u64,
    retain_frames: u64,
}

impl TextureCache {
    /// The cached entries, in allocation order.
    pub closed spec fn spec_entries(&self) -> Seq<CacheEntry> {
        self.entries@
    }

    /// The handle the next allocation will receive.
    pub closed spec fn spec_next_id(&self) -> u64 {
        self.next_id
    }

    /// The current frame number.
    pub closed spec fn spec_frame(&self) -> u64 {
        self.frame
    }

    /// For how many unused frames an entry is retained.
    pub closed spec fn spec_retain_frames(&self) -> u64 {
        self.retain_frames
    }

    /// Whether a texture with this exact descriptor is cached.
    pub open spec fn has_descriptor(&self, d: TextureDescriptor) -> bool {
        exists|i: int|
            0 <= i < self.spec_entries().len() && (#[trigger] self.spec_entries()[i]).descriptor
                == d
    }

    /// The handle cached for this descriptor. Meaningful only when
    /// cached.
    pub open spec fn handle_of(&self, d: TextureDescriptor) -> u64 {
        self.spec_entries()[choose|i: int|
            0 <= i < self.spec_entries().len() && (#[trigger] self.spec_entries()[i]).descriptor
                == d].id
    }

    /// Descriptors are cached at most once, handles are unique and below
    /// the next handle, and no entry is from the future.
    pub open spec fn wf(&self) -> bool {
        &&& forall|i: int, j: int|
            0 <= i < j < self.spec_entries().len() ==> (#[trigger] self.spec_entries()[
                i]).descriptor != (#[trigger] self.spec_entries()[j]).descriptor
        &&& forall|i: int, j: int|
            0 <= i < j < self.spec_entries().len() ==> (#[trigger] self.spec_entries()[i]).id
                != (#[trigger] self.spec_entries()[j]).id
        &&& forall|i: int|
            0 <= i < self.spec_entries().len() ==> (#[trigger] self.spec_entries()[i]).id
                < self.spec_next_id()
        &&& forall|i: int|
            0 <= i < self.spec_entries().len() ==> (#[trigger] self.spec_entries()[
                i]).last_used_frame <= self.spec_frame()
    }

    /// An empty cache that retains unused entries for `retain_frames`
    /// frames. The eviction threshold is external policy, not a fixed
    /// constant.
    pub fn new(retain_frames: u64) -> (r: TextureCache)
        ensures
            r.wf(),
            r.spec_entries() == Seq::<CacheEntry>::empty(),
            r.spec_next_id() == 0,
            r.spec_frame() == 0,
            r.spec_retain_frames() == retain_frames,
    {
        let r = TextureCache { entries: Vec::new(), next_id: 0, frame: 0, retain_frames };
        proof {
            assert(r.spec_entries() =~= Seq::<CacheEntry>::empty());
        }
        r
    }

    /// The handle for a texture matching `descriptor`: the cached one
    /// when an entry with the identical descriptor exists — so two
    /// requests with the same descriptor in one frame return the same
    /// handle — or a freshly allocated one otherwise.
    pub fn get(&mut self, descriptor: TextureDescriptor) -> (r: u64)
        requires
            old(self).wf(),
            old(self).spec_next_id() < u64::MAX,
        ensures
            final(self).wf(),
            final(self).spec_frame() == old(self).spec_frame(),
            final(self).spec_retain_frames() == old(self).spec_retain_frames(),
            final(self).has_descriptor(descriptor),
            final(self).handle_of(descriptor) == r,
            forall|d: TextureDescriptor|
                final(self).has_descriptor(d) == (old(self).has_descriptor(d) || d
                    == descriptor),
            forall|d: TextureDescriptor|
                old(self).has_descriptor(d) ==> final(self).handle_of(d) == old(self).handle_of(d),
            old(self).has_descriptor(descriptor) ==> r == old(self).handle_of(descriptor)
                && final(self).spec_next_id() == old(self).spec_next_id(),
            !old(self).has_descriptor(descriptor) ==> r == old(self).spec_next_id() && final(self).spec_next_id() == old(self).spec_next_id() + 1,
    {
        let n = self.entries.len();
        let mut i: usize = 0;
        while i < n
            invariant
                *self == *old(self),
                old(self).wf(),
                n == self.spec_entries().len(),
                i <= n,
                forall|j: int|
                    0 <= j < i ==> (#[trigger] self.spec_entries()[j]).descriptor != descriptor,
            decreases n - i,
        {
            if self.entries[i].descriptor == descriptor {
                let id = self.entries[i].id;
                let frame = self.frame;
                let entry = CacheEntry { descriptor, id, last_used_frame: frame };
                self.entries.set(i, entry);
                proof {
                    let s_old = old(self).spec_entries();
                    let s_new = self.spec_entries();
                    assert(s_new == s_old.update(i as int, entry));
                    assert(s_new[i as int].descriptor == descriptor && s_new[i as int].id == id);
                    assert forall|d: TextureDescriptor|
                        final(self).has_descriptor(d) == (old(self).has_descriptor(d) || d
                            == descriptor) by {
                        if old(self).has_descriptor(d) {
                            let w = choose|k: int|
                                0 <= k < s_old.len() && (#[trigger] s_old[k]).descriptor == d;
                            assert(s_new[w].descriptor == d);
                        }
                        if self.has_descriptor(d) {
                            let w = choose|k: int|
                                0 <= k < s_new.len() && (#[trigger] s_new[k]).descriptor == d;
                            assert(s_old[w].descriptor == d);
                        }
                    }
                    assert forall|d: TextureDescriptor| old(self).has_descriptor(d) implies
                        self.handle_of(d) == old(self).handle_of(d) by {
                        let w = choose|k: int|
                            0 <= k < s_old.len() && (#[trigger] s_old[k]).descriptor == d;
                        let w2 = choose|k: int|
                            0 <= k < s_new.len() && (#[trigger] s_new[k]).descriptor == d;
                        assert(s_new[w].descriptor == d);
                        assert(s_old[w2].descriptor == d);
                        assert(w == w2);
                    }
                    assert(self.handle_of(descriptor) == id) by {
                        let w = choose|k: int|
                            0 <= k < s_new.len() && (#[trigger] s_new[k]).descriptor
                                == descriptor;
                        assert(w == i as int);
                    }
                    assert(old(self).handle_of(descriptor) == id) by {
                        let w = choose|k: int|
                            0 <= k < s_old.len() && (#[trigger] s_old[k]).descriptor
                                == descriptor;
                        assert(w == i as int);
                    }
                }
                return id;
            }
            i = i + 1;
        }
        let id = self.next_id;
        let frame = self.frame;
        let entry = CacheEntry { descriptor, id, last_used_frame: frame };
        self.entries.push(entry);
        self.next_id = self.next_id + 1;
        proof {
            let s_old = old(self).spec_entries();
            let s_new = self.spec_entries();
            let m = s_old.len() as int;
            assert(s_new == s_old.push(entry));
            assert(s_new[m].descriptor == descriptor);
            assert(!old(self).has_descriptor(descriptor));
            assert forall|d: TextureDescriptor|
                self.has_descriptor(d) == (old(self).has_descriptor(d) || d == descriptor) by {
                if old(self).has_descriptor(d) {
                    let w = choose|k: int|
                        0 <= k < s_old.len() && (#[trigger] s_old[k]).descriptor == d;
                    assert(s_new[w].descriptor == d);
                }
                if self.has_descriptor(d) && d != descriptor {
                    let w = choose|k: int|
                        0 <= k < s_new.len() && (#[trigger] s_new[k]).descriptor == d;
                    assert(w < m);
                    assert(s_old[w].descriptor == d);
                }
            }
            assert forall|d: TextureDescriptor| old(self).has_descriptor(d) implies
                self.handle_of(d) == old(self).handle_of(d) by {
                let w = choose|k: int|
                    0 <= k < s_old.len() && (#[trigger] s_old[k]).descriptor == d;
                let w2 = choose|k: int|
                    0 <= k < s_new.len() && (#[trigger] s_new[k]).descriptor == d;
                assert(s_new[w].descriptor == d);
                assert(w2 < m || d == descriptor);
                assert(s_old[w2].descriptor == d);
                assert(w == w2);
            }
            assert(self.handle_of(descriptor) == id) by {
                let w = choose|k: int|
                    0 <= k < s_new.len() && (#[trigger] s_new[k]).descriptor == descriptor;
                assert(w == m);
            }
        }
        id
    }

    /// Marks a frame boundary: the frame number advances and every entry
    /// unused for more than the configured number of frames is evicted.
    pub fn end_frame(&mut self)
        requires
            old(self).wf(),
            old(self).spec_frame() < u64::MAX,
        ensures
            final(self).wf(),
            final(self).spec_frame() == old(self).spec_frame() + 1,
            final(self).spec_next_id() == old(self).spec_next_id(),
            final(self).spec_retain_frames() == old(self).spec_retain_frames(),
            final(self).spec_entries() == old(self).spec_entries().filter(
                |e: CacheEntry|
                    old(self).spec_frame() + 1 - e.last_used_frame
                        <= old(self).spec_retain_frames(),
            ),
    {
        self.frame = self.frame + 1;
        let new_frame = self.frame;
        let retain = self.retain_frames;
        let ghost pred = |e: CacheEntry|
            old(self).spec_frame() + 1 - e.last_used_frame <= old(self).spec_retain_frames();
        let ghost s_old = self.entries@;
        let n = self.entries.len();
        let mut kept: Vec<CacheEntry> = Vec::new();
        let mut i: usize = 0;
        proof {
            reveal_with_fuel(Seq::filter, 1);
            assert(s_old.take(0) =~= Seq::<CacheEntry>::empty());
            assert(kept@ =~= s_old.take(0).filter(pred));
        }
        while i < n
            invariant
                self.entries@ == s_old,
                n == s_old.len(),
                i <= n,
                new_frame == self.frame,
                retain == self.retain_frames,
                pred == (|e: CacheEntry|
                    new_frame - e.last_used_frame <= retain),
                forall|j: int|
                    0 <= j < s_old.len() ==> (#[trigger] s_old[j]).last_used_frame < new_frame,
                kept@ == s_old.take(i as int).filter(pred),
            decreases n - i,
        {
            let e = self.entries[i];
            let keep = new_frame - e.last_used_frame <= retain;
            proof {
                reveal_with_fuel(Seq::filter, 1);
                assert(s_old.take(i + 1 as int).drop_last() =~= s_old.take(i as int));
                assert(s_old.take(i + 1 as int).last() == s_old[i as int]);
            }
            if keep {
                let entry = CacheEntry {
                    descriptor: e.descriptor,
                    id: e.id,
                    last_used_frame: e.last_used_frame,
                };
                kept.push(entry);
                proof {
                    assert(entry == s_old[i as int]);
                }
            }
            i = i + 1;
        }
        proof {
            assert(s_old.take(n as int) =~= s_old);
        }
        self.entries = kept;
        proof {
            let s_new = self.spec_entries();
            assert(s_new == s_old.filter(pred));
            assert forall|a: int, b: int|
                0 <= a < b < s_new.len() implies (#[trigger] s_new[a]).descriptor != (
            #[trigger] s_new[b]).descriptor && s_new[a].id != s_new[b].id by {
                lemma_filter_is_subsequence(s_old, pred, a, b);
            }
            assert forall|a: int|
                0 <= a < s_new.len() implies (#[trigger] s_new[a]).id < self.spec_next_id() && (
                s_new[a]).last_used_frame <= self.spec_frame() by {
                s_old.lemma_filter_pred(pred, a);
                lemma_filter_member(s_old, pred, a);
            }
        }
    }
}

/// Two positions of a filtered sequence come from two distinct positions
/// of the original, in order.
proof fn lemma_filter_is_subsequence<A>(s: Seq<A>, pred: spec_fn(A) -> bool, a: int, b: int)
    requires
        0 <= a < b < s.filter(pred).len(),
    ensures
        exists|i: int, j: int|
            0 <= i < j < s.len() && s[i] == s.filter(pred)[a] && s[j] == s.filter(pred)[b],
    decreases s.len(),
{
    reveal_with_fuel(Seq::filter, 1);
    if s.len() > 0 {
        let rest = s.drop_last().filter(pred);
        if pred(s.last()) && b == rest.len() {
            lemma_filter_member(s.drop_last(), pred, a);
            let i = choose|i: int|
                0 <= i < s.drop_last().len() && s.drop_last()[i] == s.filter(pred)[a];
            assert(s[i] == s.filter(pred)[a]);
            assert(s[s.len() - 1] == s.filter(pred)[b]);
        } else {
            lemma_filter_is_subsequence(s.drop_last(), pred, a, b);
            let (i, j) = choose|i: int, j: int|
                0 <= i < j < s.drop_last().len() && s.drop_last()[i] == s.drop_last().filter(
                    pred,
                )[a] && s.drop_last()[j] == s.drop_last().filter(pred)[b];
            assert(s[i] == s.filter(pred)[a] && s[j] == s.filter(pred)[b]);
        }
    }
}

/// Every element of a filtered sequence occurs in the original.
proof fn lemma_filter_member<A>(s: Seq<A>, pred: spec_fn(A) -> bool, a: int)
    requires
        0 <= a < s.filter(pred).len(),
    ensures
        exists|i: int| 0 <= i < s.len() && s[i] == s.filter(pred)[a],
    decreases s.len(),
{
    reveal_with_fuel(Seq::filter, 1);
    if s.len() > 0 {
        let rest = s.drop_last().filter(pred);
        if pred(s.last()) && a == rest.len() {
            assert(s[s.len() - 1] == s.filter(pred)[a]);
        } else {
            lemma_filter_member(s.drop_last(), pred, a);
            let i = choose|i: int|
                0 <= i < s.drop_last().len() && s.drop_last()[i] == s.drop_last().filter(
                    pred,
                )[a];
            assert(s[i] == s.filter(pred)[a]);
        }
    }
}

} // verus!
