use vstd::prelude::*;
use crate::color::Color;
use crate::perlin::Perlin;
use crate::resources_manager::Resource;
use crate::resources_manager::ResourceConfig;
use crate::resources_manager::ResourceHandle;
use crate::resources_manager::ResourceManager;

verus! {

// The texture configuration model. A configuration is the key under which
// the cache deduplicates textures; the resource it resolves to holds the
// texture's data. Sampling a color out of that data is floating-point work
// and lives with the caller.

/// What kind of texture a configuration describes.
pub enum TextureKind {
    /// A single color everywhere.
    Constant(Color),
    /// Alternating cells of two nested textures, each resolved through the
    /// same cache.
    Checker(Box<TextureConfig>, Box<TextureConfig>),
    /// An image by its file path. The cache itself cannot read a file: the
    /// caller pre-installs the loaded image, and an unresolved path falls
    /// back to the debug image.
    FromFile(String),
    /// Perlin noise from `point_count` lattice points, at the given scale.
    Perlin(usize, usize),
}

/// The cache key describing one texture.
pub struct TextureConfig {
    pub kind: TextureKind,
}

/// When two texture configurations describe the same texture.
pub open spec fn kind_eqv(a: TextureKind, b: TextureKind) -> bool
    decreases a,
{
    match a {
        TextureKind::Constant(c1) => match b {
            TextureKind::Constant(c2) => c1 == c2,
            _ => false,
        },
        TextureKind::Checker(a1, a2) => match b {
            TextureKind::Checker(b1, b2) => kind_eqv(a1.kind, b1.kind) && kind_eqv(
                a2.kind,
                b2.kind,
            ),
            _ => false,
        },
        TextureKind::FromFile(p1) => match b {
            TextureKind::FromFile(p2) => p1@ == p2@,
            _ => false,
        },
        TextureKind::Perlin(n1, s1) => match b {
            TextureKind::Perlin(n2, s2) => n1 == n2 && s1 == s2,
            _ => false,
        },
    }
}

pub open spec fn config_eqv(a: TextureConfig, b: TextureConfig) -> bool {
    kind_eqv(a.kind, b.kind)
}

/// A configuration the cache can resolve without panicking: Perlin noise
/// needs at least one lattice point.
pub open spec fn kind_wf(a: TextureKind) -> bool
    decreases a,
{
    match a {
        TextureKind::Checker(a1, a2) => kind_wf(a1.kind) && kind_wf(a2.kind),
        TextureKind::Perlin(n, _s) => n >= 1,
        _ => true,
    }
}

pub open spec fn config_wf(a: TextureConfig) -> bool {
    kind_wf(a.kind)
}

/// How many configurations are nested in `a`, itself included.
pub open spec fn kind_size(a: TextureKind) -> nat
    decreases a,
{
    match a {
        TextureKind::Checker(a1, a2) => 1 + kind_size(a1.kind) + kind_size(a2.kind),
        _ => 1,
    }
}

pub open spec fn config_size(a: TextureConfig) -> nat {
    kind_size(a.kind)
}

/// `kind_eqv` is an equivalence relation.
pub proof fn lemma_kind_eqv(a: TextureKind, b: TextureKind, c: TextureKind)
    ensures
        kind_eqv(a, a),
        kind_eqv(a, b) ==> kind_eqv(b, a),
        kind_eqv(a, b) && kind_eqv(b, c) ==> kind_eqv(a, c),
    decreases a,
{
    match a {
        TextureKind::Checker(a1, a2) => {
            match b {
                TextureKind::Checker(b1, b2) => {
                    match c {
                        TextureKind::Checker(c1, c2) => {
                            lemma_kind_eqv(a1.kind, b1.kind, c1.kind);
                            lemma_kind_eqv(a2.kind, b2.kind, c2.kind);
                        },
                        _ => {
                            lemma_kind_eqv(a1.kind, b1.kind, b1.kind);
                            lemma_kind_eqv(a2.kind, b2.kind, b2.kind);
                        },
                    }
                },
                _ => {
                    lemma_kind_eqv(a1.kind, a1.kind, a1.kind);
                    lemma_kind_eqv(a2.kind, a2.kind, a2.kind);
                },
            }
        },
        _ => {},
    }
}

impl TextureKind {
    /// Decide `kind_eqv`.
    pub fn kind_eq(&self, other: &TextureKind) -> (r: bool)
        ensures
            r == kind_eqv(*self, *other),
        decreases *self,
    {
        match self {
            TextureKind::Constant(c1) => match other {
                TextureKind::Constant(c2) => c1.r == c2.r && c1.g == c2.g && c1.b == c2.b,
                _ => false,
            },
            TextureKind::Checker(a1, a2) => match other {
                TextureKind::Checker(b1, b2) => {
                    let first = a1.kind.kind_eq(&b1.kind);
                    first && a2.kind.kind_eq(&b2.kind)
                },
                _ => false,
            },
            TextureKind::FromFile(p1) => match other {
                TextureKind::FromFile(p2) => <String as PartialEq>::eq(p1, p2),
                _ => false,
            },
            TextureKind::Perlin(n1, s1) => match other {
                TextureKind::Perlin(n2, s2) => *n1 == *n2 && *s1 == *s2,
                _ => false,
            },
        }
    }

    /// An equal configuration kind.
    pub fn kind_clone(&self) -> (r: TextureKind)
        ensures
            kind_eqv(r, *self),
        decreases *self,
    {
        proof {
            lemma_kind_eqv(*self, *self, *self);
        }
        match self {
            TextureKind::Constant(c) => TextureKind::Constant(*c),
            TextureKind::Checker(a1, a2) => TextureKind::Checker(
                Box::new(TextureConfig { kind: a1.kind.kind_clone() }),
                Box::new(TextureConfig { kind: a2.kind.kind_clone() }),
            ),
            TextureKind::FromFile(p) => TextureKind::FromFile(p.clone()),
            TextureKind::Perlin(n, s) => TextureKind::Perlin(*n, *s),
        }
    }
}

impl ResourceConfig for TextureConfig {
    type AssociatedResource = TextureResource;

    open spec fn key_eqv(self, other: Self) -> bool {
        config_eqv(self, other)
    }

    proof fn lemma_key_eqv(a: Self, b: Self, c: Self) {
        lemma_kind_eqv(a.kind, b.kind, c.kind);
    }

    fn eq_config(&self, other: &Self) -> (r: bool) {
        self.kind.kind_eq(&other.kind)
    }

    fn clone_config(&self) -> (r: Self) {
        TextureConfig { kind: self.kind.kind_clone() }
    }
}

/// An image sampled as a texture: the decoded pixel bytes, four channels
/// per pixel. An image that could not be loaded is the empty fallback,
/// which samples as a fixed debug color.
pub struct ImageTexture {
    pub pixels: Vec<u8>,
    pub width: u32,
    pub height: u32,
    pub channel_count: u32,
}

impl ImageTexture {
    /// The shape every image texture has: either a four-channel pixel
    /// buffer of exactly `width * height` pixels, or the empty fallback.
    pub open spec fn wf(self) -> bool {
        ||| (self.channel_count == 4 && self.width >= 1 && self.height >= 1 && self.pixels@.len()
            == self.width as nat * self.height as nat * 4)
        ||| self.is_fallback()
    }

    /// The debug fallback for an image that could not be loaded.
    pub open spec fn is_fallback(self) -> bool {
        &&& self.pixels@.len() == 0
        &&& self.width == 0
        &&& self.height == 0
        &&& self.channel_count == 0
    }

    pub open spec fn spec_width(self) -> u32 {
        self.width
    }

    pub open spec fn spec_height(self) -> u32 {
        self.height
    }

    pub open spec fn spec_pixels(self) -> Seq<u8> {
        self.pixels@
    }

    /// Wrap a decoded image, or fall back to the debug image when nothing
    /// was decoded or the buffer does not hold `width * height` four-byte
    /// pixels.
    pub fn new(loaded: Option<(Vec<u8>, u32, u32)>) -> (t: ImageTexture)
        ensures
            t.wf(),
            match loaded {
                Some(l) => {
                    if l.0@.len() == l.1 as nat * l.2 as nat * 4 && l.1 >= 1 && l.2 >= 1 {
                        t.spec_pixels() == l.0@ && t.spec_width() == l.1 && t.spec_height() == l.2
                            && t.channel_count == 4
                    } else {
                        t.is_fallback()
                    }
                },
                None => t.is_fallback(),
            },
    {
        match loaded {
            Some((pixels, width, height)) => {
                proof {
                    assert((width as nat) * (height as nat) <= u64::MAX) by (nonlinear_arith)
                        requires
                            width <= u32::MAX,
                            height <= u32::MAX,
                    ;
                }
                let wh: u64 = (width as u64) * (height as u64);
                let len = pixels.len();
                if width >= 1 && height >= 1 && len % 4 == 0 && (len / 4) as u64 == wh {
                    proof {
                        assert(len == 4 * (len / 4) + (len % 4)) by (nonlinear_arith);
                        assert(pixels@.len() == width as nat * height as nat * 4)
                            by (nonlinear_arith)
                            requires
                                pixels@.len() == len,
                                len == 4 * (len / 4),
                                (len / 4) as u64 == wh,
                                wh == (width as u64) * (height as u64),
                        ;
                    }
                    ImageTexture { pixels, width, height, channel_count: 4 }
                } else {
                    ImageTexture { pixels: Vec::new(), width: 0, height: 0, channel_count: 0 }
                }
            },
            None => ImageTexture { pixels: Vec::new(), width: 0, height: 0, channel_count: 0 },
        }
    }

    pub fn width(&self) -> (r: u32)
        ensures
            r == self.spec_width(),
    {
        self.width
    }

    pub fn height(&self) -> (r: u32)
        ensures
            r == self.spec_height(),
    {
        self.height
    }

    /// Whether there is image data; the fallback samples as a debug color.
    pub fn has_pixels(&self) -> (r: bool)
        ensures
            r == (self.spec_pixels().len() > 0),
    {
        self.pixels.len() > 0
    }

    /// The red, green and blue bytes of the pixel at `row`, `col`, laid
    /// out row after row, four bytes per pixel.
    pub fn get_pixel(&self, row: u32, col: u32) -> (rgb: (u8, u8, u8))
        requires
            self.wf(),
            self.channel_count == 4,
            row < self.spec_height(),
            col < self.spec_width(),
        ensures
            ({
                let base = row as int * (self.spec_width() as int * 4) + col as int * 4;
                rgb.0 == self.spec_pixels()[base] && rgb.1 == self.spec_pixels()[base + 1]
                    && rgb.2 == self.spec_pixels()[base + 2]
            }),
    {
        let len = self.pixels.len();
        proof {
            assert((self.channel_count as nat) * (self.width as nat) <= self.pixels@.len()
                && (row as nat) * ((self.channel_count as nat) * (self.width as nat)) + (
            col as nat) * (self.channel_count as nat) + 4 <= self.pixels@.len())
                by (nonlinear_arith)
                requires
                    self.pixels@.len() == (self.width as nat) * (self.height as nat) * 4,
                    self.channel_count == 4,
                    self.height >= 1,
                    (row as nat) < (self.height as nat),
                    (col as nat) < (self.width as nat),
            ;
        }
        let bytes_per_scanline: usize = (self.channel_count as usize) * (self.width as usize);
        let pixel_index: usize = (row as usize) * bytes_per_scanline + (col as usize) * (
        self.channel_count as usize);
        proof {
            assert(pixel_index == row as int * (self.spec_width() as int * 4) + col as int * 4)
                by (nonlinear_arith)
                requires
                    pixel_index == (row as nat) * ((self.channel_count as nat)
                        * (self.width as nat)) + (col as nat) * (self.channel_count as nat),
                    self.channel_count == 4,
            ;
        }
        (self.pixels[pixel_index], self.pixels[pixel_index + 1], self.pixels[pixel_index + 2])
    }
}

/// The data of one cached texture instance.
pub enum TextureResource {
    /// A single color, kept as the 8-bit color it was configured with.
    Solid(Color),
    /// The shared instances of the two nested textures.
    Checker(ResourceHandle, ResourceHandle),
    /// A decoded image, or the debug fallback.
    Image(ImageTexture),
    /// Perlin lattice tables and the configured scale.
    Noise(Perlin, usize),
}

impl Resource for TextureResource {

}

/// The construction rule of the cache: what a freshly built instance for
/// `config` holds. A checker's fields are handles to slots registered
/// under its nested configurations; a file-backed image is whatever image
/// is registered, the debug fallback if none was pre-installed.
pub open spec fn resource_matches(
    m: ResourceManager<TextureConfig>,
    config: TextureConfig,
    r: TextureResource,
) -> bool {
    match config.kind {
        TextureKind::Constant(c) => r == TextureResource::Solid(c),
        TextureKind::Checker(odd, even) => match r {
            TextureResource::Checker(h1, h2) => {
                &&& h1.slot < m.entries().len()
                &&& h2.slot < m.entries().len()
                &&& config_eqv(m.entries()[h1.slot as int].key, *odd)
                &&& config_eqv(m.entries()[h2.slot as int].key, *even)
            },
            _ => false,
        },
        TextureKind::FromFile(_p) => r matches TextureResource::Image(_),
        TextureKind::Perlin(n, s) => match r {
            TextureResource::Noise(tables, scale) => tables.wf() && tables.point_count == n
                && scale == s,
            _ => false,
        },
    }
}

/// The construction rule only reads slots by their keys, which later cache
/// operations never change, so it is stable under them.
pub proof fn lemma_resource_matches_stable(
    pre: ResourceManager<TextureConfig>,
    post: ResourceManager<TextureConfig>,
    config: TextureConfig,
    r: TextureResource,
)
    requires
        ResourceManager::preserves_entries(pre, post),
        resource_matches(pre, config, r),
    ensures
        resource_matches(post, config, r),
{
}

impl TextureConfig {
    /// Build the texture this configuration describes, resolving nested
    /// configurations to shared instances through the cache.
    pub fn create_resource(&self, res_mgr: &mut ResourceManager<TextureConfig>) -> (r:
        TextureResource)
        requires
            old(res_mgr).wf(),
            config_wf(*self),
        ensures
            final(res_mgr).wf(),
            ResourceManager::preserves_entries(*old(res_mgr), *final(res_mgr)),
            resource_matches(*final(res_mgr), *self, r),
        decreases config_size(*self), 0nat,
    {
        match &self.kind {
            TextureKind::Constant(c) => TextureResource::Solid(*c),
            TextureKind::Checker(odd, even) => {
                let odd_texture = res_mgr.get_resource(odd);
                let ghost mid = *res_mgr;
                let even_texture = res_mgr.get_resource(even);
                proof {
                    assert(res_mgr.entries()[odd_texture.slot as int].key == mid.entries()[
                    odd_texture.slot as int].key);
                }
                TextureResource::Checker(odd_texture, even_texture)
            },
            TextureKind::FromFile(_p) => TextureResource::Image(ImageTexture::new(None)),
            TextureKind::Perlin(n, s) => TextureResource::Noise(Perlin::new(*n), *s),
        }
    }
}

impl ResourceManager<TextureConfig> {
    /// Return a shared instance of the texture `config` describes: the
    /// identical live instance if one exists, a newly built one otherwise.
    pub fn get_resource(&mut self, config: &TextureConfig) -> (h: ResourceHandle)
        requires
            old(self).wf(),
            config_wf(*config),
        ensures
            final(self).wf(),
            Self::preserves_entries(*old(self), *final(self)),
            final(self).is_live(*config),
            h.slot == final(self).slot_of(*config),
            h.slot < final(self).entries().len(),
            config_eqv(final(self).entries()[h.slot as int].key, *config),
            // a live instance is handed out again: the identical slot, the
            // identical resource, one more owner, nothing else changed
            old(self).is_live(*config) ==> Self::hit_transition(
                *old(self),
                *final(self),
                *config,
                h,
            ),
            // otherwise an instance is built by the construction rule, in
            // a fresh slot no older handle can denote
            !old(self).is_live(*config) ==> h.slot >= old(self).entries().len()
                && final(self).entries()[h.slot as int].owners == 1 && resource_matches(
                *final(self),
                *config,
                final(self).entries()[h.slot as int].resource,
            ),
        decreases config_size(*config), 2nat,
    {
        let acquired = self.acquire(config);
        match acquired {
            Some(h) => {
                proof {
                    assert(final(self).matches_at(h.slot as int, *config));
                }
                h
            },
            None => self.load_from_config(config),
        }
    }

    /// Build the texture for `config` and register the new instance.
    fn load_from_config(&mut self, config: &TextureConfig) -> (h: ResourceHandle)
        requires
            old(self).wf(),
            config_wf(*config),
        ensures
            final(self).wf(),
            Self::preserves_entries(*old(self), *final(self)),
            final(self).is_live(*config),
            h.slot == final(self).slot_of(*config),
            h.slot >= old(self).entries().len(),
            h.slot < final(self).entries().len(),
            config_eqv(final(self).entries()[h.slot as int].key, *config),
            final(self).entries()[h.slot as int].owners == 1,
            resource_matches(
                *final(self),
                *config,
                final(self).entries()[h.slot as int].resource,
            ),
        decreases config_size(*config), 1nat,
    {
        let resource = config.create_resource(self);
        let ghost built = *self;
        let ghost r = resource;
        let h = self.install_resource(config, resource);
        proof {
            lemma_resource_matches_stable(built, *self, *config, r);
        }
        h
    }
}

} // verus!
