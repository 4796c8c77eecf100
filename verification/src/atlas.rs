//! Shelf packing of RGBA8 images into a growing square-limited texture.
//!
//! The atlas keeps only the placement state: the GPU texture that mirrors it
//! is created, grown and written by the caller, following the sizes and the
//! padded pixel data that the atlas hands back.
use vstd::prelude::*;

verus! {

/// Bytes of one RGBA8 pixel.
pub const BYTES_PER_PIXEL: usize = 4;

/// Pixels of filtering gutter on each side of a packed image.
pub const GUTTER: u32 = 1;

/// Edge length of a fresh atlas texture, unless the device limit is smaller.
pub const INITIAL_TEXTURE_SIZE: u32 = 256;

/// A pixel rectangle within the atlas texture.
#[derive(Debug, Clone, Copy, PartialEq, Eq, Structural)]
pub struct AtlasRegion {
    pub x: u32,
    pub y: u32,
    pub width: u32,
    pub height: u32,
}

/// One horizontal row of the shelf packer.
#[derive(Debug, Clone, Copy, PartialEq, Eq, Structural)]
pub struct Shelf {
    pub y: u32,
    pub height: u32,
    pub next_x: u32,
}

/// An error encountered while adding an image to an atlas.
#[derive(Debug, Clone, PartialEq, Eq, Structural)]
pub enum ImageAtlasError {
    EmptyImage { width: u32, height: u32 },
    InvalidDataLength { width: u32, height: u32, expected: usize, actual: usize },
    ImageTooLarge { width: u32, height: u32, limit: u32 },
    AtlasFull { limit: u32 },
}

/// The abstract packing state: the shelves and the texture size.
pub struct AtlasModel {
    pub shelves: Seq<Shelf>,
    pub width: int,
    pub height: int,
    pub limit: int,
}

/// Where an accepted image went, and the gutter-padded pixels to upload there.
pub struct AtlasPlacement {
    /// The image itself, inside its gutter.
    pub region: AtlasRegion,
    /// The image together with its gutter; `pixels` covers exactly this area.
    pub padded_region: AtlasRegion,
    /// Tightly packed RGBA8 rows of the padded region.
    pub pixels: Vec<u8>,
}

/// The image area inside a gutter-padded rectangle.
pub open spec fn inset(padded: AtlasRegion) -> AtlasRegion {
    AtlasRegion {
        x: (padded.x + 1) as u32,
        y: (padded.y + 1) as u32,
        width: (padded.width - 2) as u32,
        height: (padded.height - 2) as u32,
    }
}

/// Two rectangles share no pixel.
pub open spec fn regions_disjoint(a: AtlasRegion, b: AtlasRegion) -> bool {
    ||| a.x + a.width <= b.x
    ||| b.x + b.width <= a.x
    ||| a.y + a.height <= b.y
    ||| b.y + b.height <= a.y
}

/// A rectangle lies within a texture of the given size.
pub open spec fn region_within(r: AtlasRegion, width: int, height: int) -> bool {
    r.x + r.width <= width && r.y + r.height <= height
}

/// Largest image edge that still fits with its gutter under `limit`.
pub open spec fn max_image_dimension(limit: int) -> int {
    if limit >= 2 { limit - 2 } else { 0 }
}

/// Byte offset of pixel `(x, y)` in tightly packed RGBA8 rows of `width` pixels.
pub open spec fn pixel_offset_spec(x: int, y: int, width: int) -> int {
    (y * width + x) * 4
}

/// The source coordinate that a padded coordinate copies: the gutter repeats the edge.
pub open spec fn clamp_source(padded: int, extent: int) -> int {
    if padded < 1 {
        0
    } else if padded - 1 > extent - 1 {
        extent - 1
    } else {
        padded - 1
    }
}

/// Byte `c` of pixel `(x, y)` in tightly packed RGBA8 rows of `width` pixels.
pub open spec fn byte_at(bytes: Seq<u8>, x: int, y: int, c: int, width: int) -> u8 {
    bytes[pixel_offset_spec(x, y, width) + c]
}

/// `padded` is the `width` x `height` image `pixels` with each edge pixel
/// repeated once more into a one-pixel gutter around it.
pub open spec fn is_extrusion(width: int, height: int, pixels: Seq<u8>, padded: Seq<u8>) -> bool {
    let pw = width + 2;
    let ph = height + 2;
    &&& padded.len() == pw * ph * 4
    &&& forall|x: int, y: int, c: int|
        0 <= x < pw && 0 <= y < ph && 0 <= c < 4 ==> #[trigger] byte_at(padded, x, y, c, pw)
            == byte_at(pixels, clamp_source(x, width), clamp_source(y, height), c, width)
}

/// A shelf can take a `w` x `h` rectangle at its end within a texture `width` wide.
pub open spec fn shelf_fits(s: Shelf, w: int, h: int, width: int) -> bool {
    h <= s.height && s.next_x + w <= width
}

/// Index of the first shelf at or after `from` that fits, or the shelf count.
pub open spec fn first_fit(shelves: Seq<Shelf>, w: int, h: int, width: int, from: int) -> int
    decreases shelves.len() - from,
{
    if from < 0 || from >= shelves.len() {
        shelves.len() as int
    } else if shelf_fits(shelves[from], w, h, width) {
        from
    } else {
        first_fit(shelves, w, h, width, from + 1)
    }
}

/// Where a new shelf would start: directly below the last one.
pub open spec fn next_shelf_y(shelves: Seq<Shelf>) -> int {
    if shelves.len() == 0 {
        0
    } else {
        shelves.last().y + shelves.last().height
    }
}

/// First-fit shelf allocation of a `w` x `h` rectangle: the position and the new state.
pub open spec fn allocate_model(m: AtlasModel, w: int, h: int) -> (AtlasModel, Option<(int, int)>) {
    let i = first_fit(m.shelves, w, h, m.width, 0);
    if i < m.shelves.len() {
        let s = m.shelves[i];
        (
            AtlasModel {
                shelves: m.shelves.update(i, Shelf { y: s.y, height: s.height, next_x: (s.next_x + w) as u32 }),
                width: m.width,
                height: m.height,
                limit: m.limit,
            },
            Some((s.next_x as int, s.y as int)),
        )
    } else {
        let y = next_shelf_y(m.shelves);
        if y + h > m.height || w > m.width {
            (m, None)
        } else {
            (
                AtlasModel {
                    shelves: m.shelves.push(Shelf { y: y as u32, height: h as u32, next_x: w as u32 }),
                    width: m.width,
                    height: m.height,
                    limit: m.limit,
                },
                Some((0, y)),
            )
        }
    }
}

/// An edge doubled, but no longer than `limit`.
pub open spec fn grow_dimension_spec(current: int, limit: int) -> int {
    if 2 * current <= limit { 2 * current } else { limit }
}

/// The size after one growth step that must make room for `rw` x `rh`, or
/// `None` when the atlas already spans the whole limit.
pub open spec fn grow_model(m: AtlasModel, rw: int, rh: int) -> Option<AtlasModel> {
    let nw = if m.width >= rw { m.width } else { rw };
    let nh = if m.height >= rh { m.height } else { rh };
    if nw == m.width && nh == m.height {
        if m.width <= m.height && m.width < m.limit {
            Some(AtlasModel { shelves: m.shelves, width: grow_dimension_spec(m.width, m.limit), height: m.height, limit: m.limit })
        } else if m.height < m.limit {
            Some(AtlasModel { shelves: m.shelves, width: m.width, height: grow_dimension_spec(m.height, m.limit), limit: m.limit })
        } else if m.width < m.limit {
            Some(AtlasModel { shelves: m.shelves, width: grow_dimension_spec(m.width, m.limit), height: m.height, limit: m.limit })
        } else {
            None
        }
    } else {
        Some(AtlasModel { shelves: m.shelves, width: nw, height: nh, limit: m.limit })
    }
}

/// Allocate, growing the texture between attempts, until the rectangle fits
/// or the atlas cannot grow: the final state and the position, if any.
pub open spec fn place_model(m: AtlasModel, w: int, h: int) -> (AtlasModel, Option<(int, int)>)
    decreases 2 * m.limit - m.width - m.height,
{
    let (allocated, position) = allocate_model(m, w, h);
    if position is Some {
        (allocated, position)
    } else {
        match grow_model(m, w, h) {
            None => (m, None),
            Some(grown) => {
                if grown.limit == m.limit && grown.width + grown.height > m.width + m.height && grown.width
                    <= m.limit && grown.height <= m.limit && m.width + m.height <= 2 * m.limit {
                    place_model(grown, w, h)
                } else {
                    (grown, None)
                }
            },
        }
    }
}

/// A growing texture containing packed RGBA8 images.
///
/// Images are inserted incrementally on shelves. When the current texture has
/// no room the atlas grows geometrically, up to the device limit. Regions that
/// were handed out never move.
pub struct ImageAtlas {
    shelves: Vec<Shelf>,
    width: u32,
    height: u32,
    limit: u32,
    /// Every padded rectangle handed out so far, with the shelf it sits on.
    placed: Ghost<Seq<(AtlasRegion, int)>>,
}

impl ImageAtlas {
    pub closed spec fn model(&self) -> AtlasModel {
        AtlasModel {
            shelves: self.shelves@,
            width: self.width as int,
            height: self.height as int,
            limit: self.limit as int,
        }
    }

    /// The gutter-padded rectangles handed out so far, in insertion order.
    pub closed spec fn padded_regions(&self) -> Seq<AtlasRegion> {
        self.placed@.map_values(|p: (AtlasRegion, int)| p.0)
    }

    /// The image rectangles handed out so far, in insertion order.
    pub open spec fn regions(&self) -> Seq<AtlasRegion> {
        self.padded_regions().map_values(|p: AtlasRegion| inset(p))
    }

    pub open spec fn width_spec(&self) -> int {
        self.model().width
    }

    pub open spec fn height_spec(&self) -> int {
        self.model().height
    }

    pub open spec fn limit_spec(&self) -> int {
        self.model().limit
    }

    spec fn placed_on_shelf(&self, p: (AtlasRegion, int)) -> bool {
        &&& 0 <= p.1 < self.shelves@.len()
        &&& p.0.y == self.shelves@[p.1].y
        &&& p.0.height <= self.shelves@[p.1].height
        &&& p.0.x + p.0.width <= self.shelves@[p.1].next_x
    }

    /// The packing invariant: shelves are stacked without overlap inside the
    /// texture, and every handed-out rectangle sits on a shelf, left of its
    /// free end, after every earlier rectangle of the same shelf.
    pub closed spec fn wf(&self) -> bool {
        let s = self.shelves@;
        let p = self.placed@;
        &&& 1 <= self.width <= self.limit
        &&& 1 <= self.height <= self.limit
        &&& forall|k: int| 0 <= k < s.len() ==> #[trigger] s[k].next_x <= self.width
        &&& forall|k: int| 0 <= k < s.len() ==> #[trigger] s[k].y + s[k].height <= self.height
        &&& forall|k1: int, k2: int| 0 <= k1 < k2 < s.len() ==> #[trigger] s[k1].y + s[k1].height <= #[trigger] s[k2].y
        &&& forall|i: int| 0 <= i < p.len() ==> self.placed_on_shelf(#[trigger] p[i])
        &&& forall|i: int, j: int|
            0 <= i < j < p.len() && #[trigger] p[i].1 == #[trigger] p[j].1 ==> p[i].0.x + p[i].0.width <= p[j].0.x
    }

    /// Creates an empty atlas for a device whose largest 2D texture edge is
    /// `max_texture_dimension_2d`.
    pub fn new(max_texture_dimension_2d: u32) -> (atlas: Self)
        ensures
            atlas.wf(),
            atlas.limit_spec() == if max_texture_dimension_2d >= 1 { max_texture_dimension_2d as int } else { 1 },
            atlas.width_spec() == if INITIAL_TEXTURE_SIZE <= atlas.limit_spec() { INITIAL_TEXTURE_SIZE as int } else { atlas.limit_spec() },
            atlas.height_spec() == atlas.width_spec(),
            atlas.model().shelves.len() == 0,
            atlas.regions().len() == 0,
    {
        let limit = if max_texture_dimension_2d >= 1 { max_texture_dimension_2d } else { 1 };
        let initial = if INITIAL_TEXTURE_SIZE <= limit { INITIAL_TEXTURE_SIZE } else { limit };
        Self::with_initial_size(initial, limit)
    }

    /// Creates an empty `initial_size` x `initial_size` atlas that may grow up to `limit`.
    pub fn with_initial_size(initial_size: u32, limit: u32) -> (atlas: Self)
        requires
            1 <= initial_size <= limit,
        ensures
            atlas.wf(),
            atlas.limit_spec() == limit,
            atlas.width_spec() == initial_size,
            atlas.height_spec() == initial_size,
            atlas.model().shelves.len() == 0,
            atlas.regions().len() == 0,
    {
        let atlas = ImageAtlas {
            shelves: Vec::new(),
            width: initial_size,
            height: initial_size,
            limit,
            placed: Ghost(Seq::empty()),
        };
        proof {
            assert(atlas.regions() =~= Seq::empty());
        }
        atlas
    }

    /// Current texture width in pixels.
    pub fn width(&self) -> (r: u32)
        ensures
            r == self.width_spec(),
    {
        self.width
    }

    /// Current texture height in pixels.
    pub fn height(&self) -> (r: u32)
        ensures
            r == self.height_spec(),
    {
        self.height
    }

    /// The device limit this atlas grows toward.
    pub fn limit(&self) -> (r: u32)
        ensures
            r == self.limit_spec(),
    {
        self.limit
    }
}


impl ImageAtlas {
    proof fn lemma_first_fit_is(shelves: Seq<Shelf>, w: int, h: int, width: int, from: int, i: int)
        requires
            0 <= from <= i <= shelves.len(),
            forall|j: int| from <= j < i ==> !#[trigger] shelf_fits(shelves[j], w, h, width),
            i < shelves.len() ==> shelf_fits(shelves[i], w, h, width),
        ensures
            first_fit(shelves, w, h, width, from) == i,
        decreases i - from,
    {
        if from < i {
            Self::lemma_first_fit_is(shelves, w, h, width, from + 1, i);
        }
    }

    /// First-fit allocation of a padded `width` x `height` rectangle.
    fn allocate(&mut self, width: u32, height: u32) -> (r: Option<(u32, u32)>)
        requires
            old(self).wf(),
            1 <= width,
            1 <= height,
        ensures
            final(self).wf(),
            final(self).limit == old(self).limit,
            ({
                let (m, position) = allocate_model(old(self).model(), width as int, height as int);
                &&& final(self).model() == m
                &&& match r {
                    Some((x, y)) => position == Some((x as int, y as int)),
                    None => position is None,
                }
            }),
            match r {
                Some((x, y)) => final(self).padded_regions() == old(self).padded_regions().push(
                    AtlasRegion { x, y, width, height },
                ),
                None => final(self).padded_regions() == old(self).padded_regions(),
            },
    {
        let ghost m = self.model();
        let mut i: usize = 0;
        while i < self.shelves.len()
            invariant
                self.wf(),
                self.model() == m,
                self.limit == old(self).limit,
                self.placed == old(self).placed,
                m == old(self).model(),
                1 <= width,
                1 <= height,
                0 <= i <= self.shelves@.len(),
                forall|j: int| 0 <= j < i ==> !#[trigger] shelf_fits(self.shelves@[j], width as int, height as int, self.width as int),
            decreases self.shelves@.len() - i,
        {
            let shelf = self.shelves[i];
            let right: u64 = shelf.next_x as u64 + width as u64;
            if height <= shelf.height && right <= self.width as u64 {
                proof {
                    Self::lemma_first_fit_is(self.shelves@, width as int, height as int, self.width as int, 0, i as int);
                }
                let position = (shelf.next_x, shelf.y);
                let ghost old_placed = self.placed@;
                let ghost old_shelves = self.shelves@;
                self.shelves.set(i, Shelf { y: shelf.y, height: shelf.height, next_x: right as u32 });
                self.placed = Ghost(old_placed.push((AtlasRegion { x: shelf.next_x, y: shelf.y, width, height }, i as int)));
                proof {
                    let s = self.shelves@;
                    let p = self.placed@;
                    assert forall|k: int| 0 <= k < s.len() implies #[trigger] s[k].next_x <= self.width by {
                        if k != i { assert(s[k] == old_shelves[k]); }
                    }
                    assert forall|k: int| 0 <= k < s.len() implies #[trigger] s[k].y + s[k].height <= self.height by {
                        assert(s[k].y == old_shelves[k].y && s[k].height == old_shelves[k].height);
                    }
                    assert forall|k1: int, k2: int| 0 <= k1 < k2 < s.len() implies #[trigger] s[k1].y + s[k1].height <= #[trigger] s[k2].y by {
                        assert(s[k1].y == old_shelves[k1].y && s[k1].height == old_shelves[k1].height);
                        assert(s[k2].y == old_shelves[k2].y);
                    }
                    assert forall|a: int| 0 <= a < p.len() implies self.placed_on_shelf(#[trigger] p[a]) by {
                        if a < old_placed.len() {
                            assert(p[a] == old_placed[a]);
                            assert(old(self).placed_on_shelf(old_placed[a]));
                            if p[a].1 != i {
                                assert(s[p[a].1] == old_shelves[p[a].1]);
                            }
                        } else {
                            assert(s[i as int] == Shelf { y: shelf.y, height: shelf.height, next_x: right as u32 });
                        }
                    }
                    assert forall|a: int, b: int|
                        0 <= a < b < p.len() && #[trigger] p[a].1 == #[trigger] p[b].1 implies p[a].0.x + p[a].0.width <= p[b].0.x by {
                        if b < old_placed.len() {
                            assert(p[a] == old_placed[a] && p[b] == old_placed[b]);
                        } else {
                            assert(p[a] == old_placed[a]);
                            assert(old(self).placed_on_shelf(old_placed[a]));
                        }
                    }
                    assert(self.padded_regions() =~= old(self).padded_regions().push(AtlasRegion { x: shelf.next_x, y: shelf.y, width, height }));
                    assert(self.shelves@ =~= m.shelves.update(i as int, Shelf { y: shelf.y, height: shelf.height, next_x: (shelf.next_x + width) as u32 }));
                }
                return Some(position);
            }
            i += 1;
        }
        proof {
            Self::lemma_first_fit_is(self.shelves@, width as int, height as int, self.width as int, 0, i as int);
        }
        let len = self.shelves.len();
        let y: u32 = if len == 0 {
            0
        } else {
            let last = self.shelves[len - 1];
            last.y + last.height
        };
        if y as u64 + height as u64 > self.height as u64 || width > self.width {
            return None;
        }
        let ghost old_placed = self.placed@;
        let ghost old_shelves = self.shelves@;
        self.shelves.push(Shelf { y, height, next_x: width });
        self.placed = Ghost(old_placed.push((AtlasRegion { x: 0, y, width, height }, len as int)));
        proof {
            let s = self.shelves@;
            let p = self.placed@;
            assert forall|k: int| 0 <= k < s.len() implies #[trigger] s[k].next_x <= self.width by {
                if k < len { assert(s[k] == old_shelves[k]); }
            }
            assert forall|k: int| 0 <= k < s.len() implies #[trigger] s[k].y + s[k].height <= self.height by {
                if k < len { assert(s[k] == old_shelves[k]); }
            }
            assert forall|k1: int, k2: int| 0 <= k1 < k2 < s.len() implies #[trigger] s[k1].y + s[k1].height <= #[trigger] s[k2].y by {
                assert(s[k1] == old_shelves[k1]);
                if k2 < len {
                    assert(s[k2] == old_shelves[k2]);
                } else if k1 < len - 1 {
                    assert(old_shelves[k1].y + old_shelves[k1].height <= old_shelves[len - 1].y);
                }
            }
            assert forall|a: int| 0 <= a < p.len() implies self.placed_on_shelf(#[trigger] p[a]) by {
                if a < old_placed.len() {
                    assert(p[a] == old_placed[a]);
                    assert(old(self).placed_on_shelf(old_placed[a]));
                    assert(s[p[a].1] == old_shelves[p[a].1]);
                }
            }
            assert forall|a: int, b: int|
                0 <= a < b < p.len() && #[trigger] p[a].1 == #[trigger] p[b].1 implies p[a].0.x + p[a].0.width <= p[b].0.x by {
                if b < old_placed.len() {
                    assert(p[a] == old_placed[a] && p[b] == old_placed[b]);
                } else {
                    assert(p[a] == old_placed[a]);
                    assert(old(self).placed_on_shelf(old_placed[a]));
                }
            }
            assert(self.padded_regions() =~= old(self).padded_regions().push(AtlasRegion { x: 0, y, width, height }));
            assert(self.shelves@ =~= m.shelves.push(Shelf { y: y as u32, height: height as u32, next_x: width as u32 }));
        }
        Some((0, y))
    }
}

impl ImageAtlas {
    /// Grows the texture once so that a `required_width` x `required_height`
    /// rectangle can fit, or reports that the device limit is reached.
    fn grow(&mut self, required_width: u32, required_height: u32) -> (r: Result<(), ImageAtlasError>)
        requires
            old(self).wf(),
            required_width <= old(self).limit,
            required_height <= old(self).limit,
        ensures
            final(self).wf(),
            final(self).limit == old(self).limit,
            final(self).padded_regions() == old(self).padded_regions(),
            match grow_model(old(self).model(), required_width as int, required_height as int) {
                None => r == Err::<(), ImageAtlasError>(ImageAtlasError::AtlasFull { limit: old(self).limit })
                    && final(self).model() == old(self).model(),
                Some(m) => r is Ok && final(self).model() == m,
            },
    {
        let mut new_width = if self.width >= required_width { self.width } else { required_width };
        let mut new_height = if self.height >= required_height { self.height } else { required_height };

        if new_width == self.width && new_height == self.height {
            if self.width <= self.height && self.width < self.limit {
                new_width = grow_dimension(self.width, self.limit);
            } else if self.height < self.limit {
                new_height = grow_dimension(self.height, self.limit);
            } else if self.width < self.limit {
                new_width = grow_dimension(self.width, self.limit);
            } else {
                return Err(ImageAtlasError::AtlasFull { limit: self.limit });
            }
        }
        self.width = new_width;
        self.height = new_height;
        Ok(())
    }

    /// Allocates a padded rectangle, growing the texture until it fits or
    /// the atlas is full.
    fn place(&mut self, width: u32, height: u32) -> (r: Result<(u32, u32), ImageAtlasError>)
        requires
            old(self).wf(),
            1 <= width <= old(self).limit,
            1 <= height <= old(self).limit,
        ensures
            final(self).wf(),
            final(self).limit == old(self).limit,
            ({
                let (m, position) = place_model(old(self).model(), width as int, height as int);
                &&& final(self).model() == m
                &&& match r {
                    Ok((x, y)) => position == Some((x as int, y as int)) && final(self).padded_regions()
                        == old(self).padded_regions().push(AtlasRegion { x, y, width, height }),
                    Err(e) => position is None && e == ImageAtlasError::AtlasFull { limit: old(self).limit }
                        && final(self).padded_regions() == old(self).padded_regions(),
                }
            }),
    {
        loop
            invariant
                self.wf(),
                self.limit == old(self).limit,
                1 <= width <= self.limit,
                1 <= height <= self.limit,
                place_model(self.model(), width as int, height as int) == place_model(old(self).model(), width as int, height as int),
                self.padded_regions() == old(self).padded_regions(),
            decreases 2 * self.limit - self.width - self.height,
        {
            let ghost before = self.model();
            if let Some(position) = self.allocate(width, height) {
                return Ok(position);
            }
            match self.grow(width, height) {
                Ok(()) => {
                    assert(place_model(before, width as int, height as int) == place_model(self.model(), width as int, height as int));
                },
                Err(e) => {
                    return Err(e);
                },
            }
        }
    }

    /// Adds one image of tightly packed, straight-alpha RGBA8 pixels.
    ///
    /// Checks, in this order, that neither dimension is zero, that the image
    /// with its gutter fits under the device limit, and that `pixels` holds
    /// exactly `width * height` pixels. An accepted image is placed, growing
    /// the texture when needed; `AtlasFull` means the texture reached the
    /// limit in both directions without room for it. The atlas may have grown
    /// even then.
    pub fn add_rgba8(&mut self, width: u32, height: u32, pixels: &[u8]) -> (r: Result<AtlasPlacement, ImageAtlasError>)
        requires
            old(self).wf(),
            (width > 0 && height > 0 && width <= max_image_dimension(old(self).limit_spec())
                && height <= max_image_dimension(old(self).limit_spec())) ==> (width + 2) * (height + 2)
                * 4 <= usize::MAX,
        ensures
            final(self).wf(),
            keeps_regions(*old(self), *final(self)),
            final(self).limit_spec() == old(self).limit_spec(),
            old(self).width_spec() <= final(self).width_spec() <= final(self).limit_spec(),
            old(self).height_spec() <= final(self).height_spec() <= final(self).limit_spec(),
            if width == 0 || height == 0 {
                &&& r == Err::<AtlasPlacement, ImageAtlasError>(ImageAtlasError::EmptyImage { width, height })
                &&& final(self).model() == old(self).model()
                &&& final(self).padded_regions() == old(self).padded_regions()
            } else if width > max_image_dimension(old(self).limit_spec()) || height > max_image_dimension(old(self).limit_spec()) {
                &&& r == Err::<AtlasPlacement, ImageAtlasError>(
                    ImageAtlasError::ImageTooLarge { width, height, limit: old(self).limit_spec() as u32 },
                )
                &&& final(self).model() == old(self).model()
                &&& final(self).padded_regions() == old(self).padded_regions()
            } else if pixels@.len() != width * height * 4 {
                &&& r == Err::<AtlasPlacement, ImageAtlasError>(
                    ImageAtlasError::InvalidDataLength {
                        width,
                        height,
                        expected: (width * height * 4) as usize,
                        actual: pixels@.len() as usize,
                    },
                )
                &&& final(self).model() == old(self).model()
                &&& final(self).padded_regions() == old(self).padded_regions()
            } else {
                let (m, position) = place_model(old(self).model(), width + 2, height + 2);
                &&& final(self).model() == m
                &&& match position {
                    None => r == Err::<AtlasPlacement, ImageAtlasError>(
                        ImageAtlasError::AtlasFull { limit: old(self).limit_spec() as u32 },
                    ) && final(self).padded_regions() == old(self).padded_regions() && final(self).width_spec()
                        == old(self).limit_spec() && final(self).height_spec() == old(self).limit_spec(),
                    Some((x, y)) => r matches Ok(p) && {
                        &&& p.padded_region == AtlasRegion {
                            x: x as u32,
                            y: y as u32,
                            width: (width + 2) as u32,
                            height: (height + 2) as u32,
                        }
                        &&& p.region == AtlasRegion {
                            x: (x + 1) as u32,
                            y: (y + 1) as u32,
                            width,
                            height,
                        }
                        &&& p.region == inset(p.padded_region)
                        &&& is_extrusion(width as int, height as int, pixels@, p.pixels@)
                        &&& final(self).padded_regions() == old(self).padded_regions().push(p.padded_region)
                        &&& final(self).regions() == old(self).regions().push(p.region)
                    },
                }
            },
    {
        if width == 0 || height == 0 {
            return Err(ImageAtlasError::EmptyImage { width, height });
        }

        let maximum_image_dimension = if self.limit >= GUTTER * 2 { self.limit - GUTTER * 2 } else { 0 };
        if width > maximum_image_dimension || height > maximum_image_dimension {
            return Err(ImageAtlasError::ImageTooLarge { width, height, limit: self.limit });
        }

        proof {
            assert(width * height * 4 <= (width + 2) * (height + 2) * 4) by (nonlinear_arith)
                requires
                    0 <= width,
                    0 <= height,
            ;
        }
        let expected_len = image_byte_len(width, height);
        if pixels.len() != expected_len {
            return Err(
                ImageAtlasError::InvalidDataLength { width, height, expected: expected_len, actual: pixels.len() },
            );
        }

        let padded_width = width + GUTTER * 2;
        let padded_height = height + GUTTER * 2;
        proof {
            lemma_place_grows_to_limit(self.model(), padded_width as int, padded_height as int);
        }

        let (padded_x, padded_y) = match self.place(padded_width, padded_height) {
            Ok(position) => position,
            Err(error) => {
                return Err(error);
            },
        };
        proof {
            lemma_regions_packed(self);
            assert(self.padded_regions()[self.padded_regions().len() - 1] == AtlasRegion {
                x: padded_x,
                y: padded_y,
                width: padded_width,
                height: padded_height,
            });
        }
        let region = AtlasRegion { x: padded_x + GUTTER, y: padded_y + GUTTER, width, height };
        let padded_region = AtlasRegion { x: padded_x, y: padded_y, width: padded_width, height: padded_height };
        let padded_pixels = extrude_gutter(width, height, pixels);
        proof {
            assert(self.regions() =~= old(self).regions().push(region));
        }
        Ok(AtlasPlacement { region, padded_region, pixels: padded_pixels })
    }
}

/// Every rectangle an atlas has handed out lies inside its texture, and no
/// two of them share a pixel: images and their gutters never overlap.
pub proof fn lemma_regions_packed(atlas: &ImageAtlas)
    requires
        atlas.wf(),
    ensures
        forall|i: int|
            0 <= i < atlas.padded_regions().len() ==> region_within(
                #[trigger] atlas.padded_regions()[i],
                atlas.width_spec(),
                atlas.height_spec(),
            ),
        forall|i: int, j: int|
            0 <= i < j < atlas.padded_regions().len() ==> regions_disjoint(
                #[trigger] atlas.padded_regions()[i],
                #[trigger] atlas.padded_regions()[j],
            ),
{
    let s = atlas.shelves@;
    let p = atlas.placed@;
    assert forall|i: int| 0 <= i < atlas.padded_regions().len() implies region_within(
        #[trigger] atlas.padded_regions()[i],
        atlas.width_spec(),
        atlas.height_spec(),
    ) by {
        assert(atlas.placed_on_shelf(p[i]));
        assert(s[p[i].1].next_x <= atlas.width);
        assert(s[p[i].1].y + s[p[i].1].height <= atlas.height);
    }
    assert forall|i: int, j: int| 0 <= i < j < atlas.padded_regions().len() implies regions_disjoint(
        #[trigger] atlas.padded_regions()[i],
        #[trigger] atlas.padded_regions()[j],
    ) by {
        assert(atlas.placed_on_shelf(p[i]));
        assert(atlas.placed_on_shelf(p[j]));
        if p[i].1 == p[j].1 {
        } else if p[i].1 < p[j].1 {
            assert(s[p[i].1].y + s[p[i].1].height <= s[p[j].1].y);
        } else {
            assert(s[p[j].1].y + s[p[j].1].height <= s[p[i].1].y);
        }
    }
}

/// Whether `after` still holds every rectangle that `before` handed out, at
/// the same index and in the same place, and at most one rectangle more.
pub open spec fn keeps_regions(before: ImageAtlas, after: ImageAtlas) -> bool {
    &&& before.padded_regions().is_prefix_of(after.padded_regions())
    &&& after.padded_regions().len() <= before.padded_regions().len() + 1
}

proof fn lemma_regions_chain(states: Seq<ImageAtlas>, k: int, l: int)
    requires
        0 <= k <= l < states.len(),
        forall|m: int| 0 <= m < states.len() - 1 ==> #[trigger] keeps_regions(states[m], states[m + 1]),
    ensures
        states[k].padded_regions().is_prefix_of(states[l].padded_regions()),
    decreases l - k,
{
    if k < l {
        lemma_regions_chain(states, k, l - 1);
        let m = l - 1;
        assert(keeps_regions(states[m], states[m + 1]));
        assert(m + 1 == l);
        assert(states[k].padded_regions() =~= states[l].padded_regions().subrange(
            0,
            states[k].padded_regions().len() as int,
        ));
    }
}

/// Over any run of additions to an atlas (each keeping the rectangles
/// handed out before it), a rectangle once handed out stays at its index and
/// place, and at every point all handed-out rectangles, gutters included,
/// lie inside the texture and do not overlap.
pub proof fn lemma_additions_keep_regions(states: Seq<ImageAtlas>)
    requires
        forall|k: int| 0 <= k < states.len() ==> #[trigger] states[k].wf(),
        forall|k: int| 0 <= k < states.len() - 1 ==> #[trigger] keeps_regions(states[k], states[k + 1]),
    ensures
        forall|k: int, l: int|
            #![trigger states[k], states[l]]
            0 <= k <= l < states.len() ==> states[k].padded_regions().is_prefix_of(states[l].padded_regions()),
        forall|l: int, i: int|
            0 <= l < states.len() && 0 <= i < states[l].padded_regions().len() ==> region_within(
                #[trigger] states[l].padded_regions()[i],
                states[l].width_spec(),
                states[l].height_spec(),
            ),
        forall|l: int, i: int, j: int|
            0 <= l < states.len() && 0 <= i < j < states[l].padded_regions().len() ==> regions_disjoint(
                #[trigger] states[l].padded_regions()[i],
                #[trigger] states[l].padded_regions()[j],
            ),
{
    assert forall|k: int, l: int|
        #![trigger states[k], states[l]]
        0 <= k <= l < states.len() implies states[k].padded_regions().is_prefix_of(states[l].padded_regions()) by {
        lemma_regions_chain(states, k, l);
    }
    assert forall|l: int| #![trigger states[l]] 0 <= l < states.len() implies {
        &&& forall|i: int|
            0 <= i < states[l].padded_regions().len() ==> region_within(
                #[trigger] states[l].padded_regions()[i],
                states[l].width_spec(),
                states[l].height_spec(),
            )
        &&& forall|i: int, j: int|
            0 <= i < j < states[l].padded_regions().len() ==> regions_disjoint(
                #[trigger] states[l].padded_regions()[i],
                #[trigger] states[l].padded_regions()[j],
            )
    } by {
        lemma_regions_packed(&states[l]);
    }
}

/// One growth step. When the requested size does not force it, the shorter
/// edge (the width on a tie) is doubled, capped at the limit, and the other
/// edge is kept; an atlas that spans the limit in both directions cannot grow.
/// A requested size beyond the texture is grown to exactly, edge by edge.
/// The shelves and the limit never change.
pub proof fn lemma_growth_step(m: AtlasModel, rw: int, rh: int)
    requires
        1 <= m.width <= m.limit,
        1 <= m.height <= m.limit,
    ensures
        rw <= m.width && rh <= m.height && m.width == m.limit && m.height == m.limit ==> grow_model(m, rw, rh) is None,
        rw <= m.width && rh <= m.height && m.width <= m.height && m.width < m.limit ==> grow_model(m, rw, rh)
            == Some(AtlasModel {
                shelves: m.shelves,
                width: if 2 * m.width <= m.limit { 2 * m.width } else { m.limit },
                height: m.height,
                limit: m.limit,
            }),
        rw <= m.width && rh <= m.height && m.height < m.width ==> grow_model(m, rw, rh) == Some(AtlasModel {
            shelves: m.shelves,
            width: m.width,
            height: if 2 * m.height <= m.limit { 2 * m.height } else { m.limit },
            limit: m.limit,
        }),
        !(rw <= m.width && rh <= m.height) ==> grow_model(m, rw, rh) == Some(AtlasModel {
            shelves: m.shelves,
            width: if rw <= m.width { m.width } else { rw },
            height: if rh <= m.height { m.height } else { rh },
            limit: m.limit,
        }),
{
}

/// First-fit placement: the first shelf that is tall enough and whose free
/// end leaves room for the rectangle up to the texture's right edge (ending
/// exactly at the edge included) takes it at that free end, and the texture
/// is then neither grown nor reported full.
pub proof fn lemma_first_fitting_shelf_takes_it(m: AtlasModel, w: int, h: int, i: int)
    requires
        0 <= i < m.shelves.len(),
        h <= m.shelves[i].height,
        m.shelves[i].next_x + w <= m.width,
        forall|j: int| 0 <= j < i ==> !(h <= #[trigger] m.shelves[j].height && m.shelves[j].next_x + w <= m.width),
    ensures
        allocate_model(m, w, h).1 == Some((m.shelves[i].next_x as int, m.shelves[i].y as int)),
        allocate_model(m, w, h).0.width == m.width,
        allocate_model(m, w, h).0.height == m.height,
        place_model(m, w, h) == allocate_model(m, w, h),
{
    assert forall|j: int| 0 <= j < i implies !#[trigger] shelf_fits(m.shelves[j], w, h, m.width) by {
        assert(!(h <= m.shelves[j].height && m.shelves[j].next_x + w <= m.width));
    }
    ImageAtlas::lemma_first_fit_is(m.shelves, w, h, m.width, 0, i);
}

/// With no shelf that has room, a new shelf opens directly below the last
/// one (at the top of an empty atlas) exactly when the rectangle fits there.
pub proof fn lemma_new_shelf_when_none_fits(m: AtlasModel, w: int, h: int)
    requires
        forall|j: int| 0 <= j < m.shelves.len() ==> !(h <= #[trigger] m.shelves[j].height && m.shelves[j].next_x + w <= m.width),
    ensures
        ({
            let y = if m.shelves.len() == 0 { 0 } else { m.shelves.last().y + m.shelves.last().height };
            &&& (y + h <= m.height && w <= m.width) ==> allocate_model(m, w, h).1 == Some((0int, y))
            &&& !(y + h <= m.height && w <= m.width) ==> allocate_model(m, w, h) == (m, None::<(int, int)>)
        }),
{
    assert forall|j: int| 0 <= j < m.shelves.len() implies !#[trigger] shelf_fits(m.shelves[j], w, h, m.width) by {
        assert(!(h <= m.shelves[j].height && m.shelves[j].next_x + w <= m.width));
    }
    ImageAtlas::lemma_first_fit_is(m.shelves, w, h, m.width, 0, m.shelves.len() as int);
}

/// Placing a rectangle never shrinks the texture nor grows it past the
/// limit, and reports a full atlas only once the texture spans the limit in
/// both directions.
pub proof fn lemma_place_grows_to_limit(m: AtlasModel, w: int, h: int)
    requires
        1 <= m.width <= m.limit,
        1 <= m.height <= m.limit,
        w <= m.limit,
        h <= m.limit,
    ensures
        m.width <= place_model(m, w, h).0.width <= m.limit,
        m.height <= place_model(m, w, h).0.height <= m.limit,
        place_model(m, w, h).0.limit == m.limit,
        place_model(m, w, h).1 is None ==> place_model(m, w, h).0.width == m.limit && place_model(m, w, h).0.height
            == m.limit,
    decreases 2 * m.limit - m.width - m.height,
{
    let (allocated, position) = allocate_model(m, w, h);
    if position is None {
        match grow_model(m, w, h) {
            None => {},
            Some(grown) => {
                lemma_place_grows_to_limit(grown, w, h);
            },
        }
    }
}

/// Edge doubled, but no longer than `limit`.
pub fn grow_dimension(current: u32, limit: u32) -> (r: u32)
    ensures
        r == grow_dimension_spec(current as int, limit as int),
{
    let doubled: u64 = current as u64 * 2;
    if doubled <= limit as u64 {
        doubled as u32
    } else {
        limit
    }
}

/// Bytes of a tightly packed `width` x `height` RGBA8 image.
pub fn image_byte_len(width: u32, height: u32) -> (r: usize)
    requires
        width * height * 4 <= usize::MAX,
    ensures
        r == width * height * 4,
{
    assert(0 <= width * height) by (nonlinear_arith);
    width as usize * height as usize * BYTES_PER_PIXEL
}

/// Byte offset of pixel `(x, y)` in tightly packed RGBA8 rows of `width` pixels.
pub fn pixel_offset(x: u32, y: u32, width: u32) -> (r: usize)
    requires
        pixel_offset_spec(x as int, y as int, width as int) <= usize::MAX,
    ensures
        r == pixel_offset_spec(x as int, y as int, width as int),
{
    assert(0 <= y * width) by (nonlinear_arith);
    (y as usize * width as usize + x as usize) * BYTES_PER_PIXEL
}

proof fn lemma_offset_bound(x: int, y: int, c: int, w: int, h: int)
    requires
        0 <= x < w,
        0 <= y < h,
        0 <= c < 4,
    ensures
        0 <= pixel_offset_spec(x, y, w),
        pixel_offset_spec(x, y, w) + c < w * h * 4,
{
    assert(y * w + x < w * h && 0 <= y * w) by (nonlinear_arith)
        requires
            0 <= x < w,
            0 <= y < h,
    {
        assert(y * w <= (h - 1) * w) by (nonlinear_arith)
            requires
                y <= h - 1,
                0 <= w,
        ;
        assert((h - 1) * w + w == h * w) by (nonlinear_arith);
    }
}

proof fn lemma_offset_decompose(x: int, y: int, c: int, w: int)
    requires
        0 <= x < w,
        0 <= y,
        0 <= c < 4,
    ensures
        (pixel_offset_spec(x, y, w) + c) % 4 == c,
        (pixel_offset_spec(x, y, w) + c) / 4 == y * w + x,
        (y * w + x) % w == x,
        (y * w + x) / w == y,
{
    vstd::arithmetic::div_mod::lemma_fundamental_div_mod_converse(pixel_offset_spec(x, y, w) + c, 4, y * w + x, c);
    vstd::arithmetic::div_mod::lemma_fundamental_div_mod_converse(y * w + x, w, y, x);
}

proof fn lemma_offset_injective(x1: int, y1: int, c1: int, x2: int, y2: int, c2: int, w: int)
    requires
        0 <= x1 < w,
        0 <= y1,
        0 <= c1 < 4,
        0 <= x2 < w,
        0 <= y2,
        0 <= c2 < 4,
        pixel_offset_spec(x1, y1, w) + c1 == pixel_offset_spec(x2, y2, w) + c2,
    ensures
        x1 == x2 && y1 == y2 && c1 == c2,
{
    lemma_offset_decompose(x1, y1, c1, w);
    lemma_offset_decompose(x2, y2, c2, w);
}

/// The padded coordinate `padded` of an image `extent` pixels long, mapped to the source pixel it repeats.
fn source_coordinate(padded: u32, extent: u32) -> (r: u32)
    requires
        1 <= extent,
    ensures
        r == clamp_source(padded as int, extent as int),
{
    let shifted = if padded >= GUTTER { padded - GUTTER } else { 0 };
    if shifted <= extent - 1 {
        shifted
    } else {
        extent - 1
    }
}

/// Copies an image into a buffer one pixel larger on each side, repeating the
/// edge pixels into that gutter so that filtering at the image edge never
/// samples a neighbouring image.
#[verifier::spinoff_prover]
#[verifier::rlimit(60)]
pub fn extrude_gutter(width: u32, height: u32, pixels: &[u8]) -> (padded: Vec<u8>)
    requires
        1 <= width <= u32::MAX - 2,
        1 <= height <= u32::MAX - 2,
        pixels@.len() == width * height * 4,
        (width + 2) * (height + 2) * 4 <= usize::MAX,
    ensures
        is_extrusion(width as int, height as int, pixels@, padded@),
{
    let padded_width = width + GUTTER * 2;
    let padded_height = height + GUTTER * 2;
    let total = image_byte_len(padded_width, padded_height);
    let mut padded: Vec<u8> = vec![0u8; total];
    let ghost pw = padded_width as int;
    let ghost ph = padded_height as int;
    let ghost w = width as int;
    let ghost h = height as int;
    assert(w * h * 4 <= pw * ph * 4) by (nonlinear_arith)
        requires
            1 <= w < pw,
            1 <= h < ph,
    ;
    let mut destination_y: u32 = 0;
    while destination_y < padded_height
        invariant
            padded_width == width + 2,
            padded_height == height + 2,
            1 <= width,
            1 <= height,
            pw == padded_width,
            ph == padded_height,
            w == width,
            h == height,
            pixels@.len() == w * h * 4,
            pixels@.len() <= total,
            total == pw * ph * 4,
            padded@.len() == total,
            total <= usize::MAX,
            0 <= destination_y <= padded_height,
            forall|x: int, y: int, c: int|
                0 <= x < pw && 0 <= y < destination_y && 0 <= c < 4 ==> #[trigger] byte_at(padded@, x, y, c, pw)
                    == byte_at(pixels@, clamp_source(x, w), clamp_source(y, h), c, w),
        decreases padded_height - destination_y,
    {
        let source_y = source_coordinate(destination_y, height);
        let mut destination_x: u32 = 0;
        while destination_x < padded_width
            invariant
                padded_width == width + 2,
                padded_height == height + 2,
                1 <= width,
                1 <= height,
                pw == padded_width,
                ph == padded_height,
                w == width,
                h == height,
                pixels@.len() == w * h * 4,
                pixels@.len() <= total,
                total == pw * ph * 4,
                padded@.len() == total,
                total <= usize::MAX,
                0 <= destination_y < padded_height,
                source_y == clamp_source(destination_y as int, h),
                0 <= destination_x <= padded_width,
                forall|x: int, y: int, c: int|
                    0 <= x < pw && 0 <= y < ph && 0 <= c < 4 && (y < destination_y || (y == destination_y && x < destination_x))
                        ==> #[trigger] byte_at(padded@, x, y, c, pw) == byte_at(pixels@, clamp_source(x, w), clamp_source(y, h), c, w),
            decreases padded_width - destination_x,
        {
            let source_x = source_coordinate(destination_x, width);
            proof {
                lemma_offset_bound(source_x as int, source_y as int, 3, w, h);
                lemma_offset_bound(destination_x as int, destination_y as int, 3, pw, ph);
            }
            let source_offset = pixel_offset(source_x, source_y, width);
            let destination_offset = pixel_offset(destination_x, destination_y, padded_width);
            let mut c: usize = 0;
            while c < BYTES_PER_PIXEL
                invariant
                    padded_width == width + 2,
                    pw == padded_width,
                    ph == padded_height,
                    w == width,
                    h == height,
                    1 <= width,
                    1 <= height,
                    pixels@.len() == w * h * 4,
                    padded@.len() == total,
                    total == pw * ph * 4,
                    0 <= destination_y < padded_height,
                    0 <= destination_x < padded_width,
                    source_y == clamp_source(destination_y as int, h),
                    source_x == clamp_source(destination_x as int, w),
                    0 <= source_x < w,
                    0 <= source_y < h,
                    source_offset == pixel_offset_spec(source_x as int, source_y as int, w),
                    destination_offset == pixel_offset_spec(destination_x as int, destination_y as int, pw),
                    source_offset + 3 < pixels@.len(),
                    destination_offset + 3 < padded@.len(),
                    0 <= c <= 4,
                    forall|x: int, y: int, cc: int|
                        0 <= x < pw && 0 <= y < ph && 0 <= cc < 4 && (y < destination_y || (y == destination_y && x < destination_x) || (
                        y == destination_y && x == destination_x && cc < c)) ==> #[trigger] byte_at(padded@, x, y, cc, pw) == byte_at(
                            pixels@,
                            clamp_source(x, w),
                            clamp_source(y, h),
                            cc,
                            w,
                        ),
                decreases 4 - c,
            {
                let ghost before = padded@;
                padded.set(destination_offset + c, pixels[source_offset + c]);
                proof {
                    assert forall|x: int, y: int, cc: int|
                        0 <= x < pw && 0 <= y < ph && 0 <= cc < 4 && (y < destination_y || (y == destination_y && x < destination_x)
                            || (y == destination_y && x == destination_x && cc < c + 1)) implies #[trigger] byte_at(padded@, x, y, cc, pw)
                        == byte_at(pixels@, clamp_source(x, w), clamp_source(y, h), cc, w) by {
                        lemma_offset_bound(x, y, cc, pw, ph);
                        if x == destination_x && y == destination_y && cc == c {
                        } else {
                            if pixel_offset_spec(x, y, pw) + cc == destination_offset + c {
                                lemma_offset_injective(x, y, cc, destination_x as int, destination_y as int, c as int, pw);
                            }
                            assert(byte_at(padded@, x, y, cc, pw) == byte_at(before, x, y, cc, pw));
                        }
                    }
                }
                c += 1;
            }
            destination_x += 1;
        }
        destination_y += 1;
    }
    padded
}

} // verus!
