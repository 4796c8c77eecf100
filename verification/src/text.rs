//! Text style selections and the batch bookkeeping of the text renderer.
use vstd::prelude::*;

verus! {

/// A font family used to select faces for text shaping.
#[derive(Debug, Default, Clone, PartialEq, Eq, Hash)]
pub enum FontFamily {
    Name(String),
    Serif,
    #[default]
    SansSerif,
    Cursive,
    Fantasy,
    Monospace,
}

/// The numeric weight of a font face.
#[derive(Debug, Clone, Copy, PartialEq, Eq, PartialOrd, Ord, Hash, Structural)]
pub struct FontWeight(pub u16);

impl FontWeight {
    pub fn thin() -> (w: FontWeight)
        ensures
            w == FontWeight(100),
    {
        FontWeight(100)
    }

    pub fn extra_light() -> (w: FontWeight)
        ensures
            w == FontWeight(200),
    {
        FontWeight(200)
    }

    pub fn light() -> (w: FontWeight)
        ensures
            w == FontWeight(300),
    {
        FontWeight(300)
    }

    pub fn normal() -> (w: FontWeight)
        ensures
            w == FontWeight(400),
    {
        FontWeight(400)
    }

    pub fn medium() -> (w: FontWeight)
        ensures
            w == FontWeight(500),
    {
        FontWeight(500)
    }

    pub fn semibold() -> (w: FontWeight)
        ensures
            w == FontWeight(600),
    {
        FontWeight(600)
    }

    pub fn bold() -> (w: FontWeight)
        ensures
            w == FontWeight(700),
    {
        FontWeight(700)
    }

    pub fn extra_bold() -> (w: FontWeight)
        ensures
            w == FontWeight(800),
    {
        FontWeight(800)
    }

    pub fn black() -> (w: FontWeight)
        ensures
            w == FontWeight(900),
    {
        FontWeight(900)
    }
}

impl Default for FontWeight {
    fn default() -> (r: Self)
        ensures
            r == FontWeight(400),
    {
        FontWeight::normal()
    }
}

/// The width class of a font face.
#[derive(Debug, Default, Clone, Copy, PartialEq, Eq, PartialOrd, Ord, Hash, Structural)]
pub enum FontStretch {
    UltraCondensed,
    ExtraCondensed,
    Condensed,
    SemiCondensed,
    #[default]
    Normal,
    SemiExpanded,
    Expanded,
    ExtraExpanded,
    UltraExpanded,
}

/// The slant style of a font face.
#[derive(Debug, Default, Clone, Copy, PartialEq, Eq, Hash, Structural)]
pub enum FontStyle {
    #[default]
    Normal,
    Italic,
    Oblique,
}

/// The wrapping behavior of a text buffer.
#[derive(Debug, Default, Clone, Copy, PartialEq, Eq, Hash, Structural)]
pub enum TextWrap {
    /// No wrapping.
    NoWrap,
    Glyph,
    Word,
    #[default]
    WordOrGlyph,
}

/// The shaping strategy used for a text buffer.
#[derive(Debug, Default, Clone, Copy, PartialEq, Eq, Hash, Structural)]
pub enum Shaping {
    Basic,
    #[default]
    Advanced,
}

/// Which text batch the text renderer prepares and draws next.
///
/// Each prepared batch gets the next slot, creating one when all existing
/// slots are used this frame; draws then visit the slots in the same order.
pub struct BatchSlots {
    prepared: usize,
    rendered: usize,
    slots: usize,
}

impl BatchSlots {
    /// The slots used by this frame's preparation so far.
    pub closed spec fn prepared_spec(&self) -> nat {
        self.prepared as nat
    }

    /// The slots drawn this frame so far.
    pub closed spec fn rendered_spec(&self) -> nat {
        self.rendered as nat
    }

    /// The slots that exist.
    pub closed spec fn slots_spec(&self) -> nat {
        self.slots as nat
    }

    pub open spec fn wf(&self) -> bool {
        self.prepared_spec() <= self.slots_spec()
    }

    pub fn new() -> (s: Self)
        ensures
            s.prepared_spec() == 0,
            s.rendered_spec() == 0,
            s.slots_spec() == 0,
    {
        BatchSlots { prepared: 0, rendered: 0, slots: 0 }
    }

    /// Starts a frame: preparation and drawing begin again at the first slot.
    pub fn start(&mut self)
        ensures
            final(self).prepared_spec() == 0,
            final(self).rendered_spec() == 0,
            final(self).slots_spec() == old(self).slots_spec(),
    {
        self.prepared = 0;
        self.rendered = 0;
    }

    /// The slot for the next prepared batch, and whether it must be created.
    pub fn next_prepare(&mut self) -> (r: (usize, bool))
        requires
            old(self).wf(),
            old(self).slots_spec() < usize::MAX,
        ensures
            final(self).wf(),
            r.0 == old(self).prepared_spec(),
            r.1 == (old(self).prepared_spec() == old(self).slots_spec()),
            final(self).prepared_spec() == old(self).prepared_spec() + 1,
            final(self).slots_spec() == if r.1 { old(self).slots_spec() + 1 } else { old(self).slots_spec() },
            final(self).rendered_spec() == old(self).rendered_spec(),
    {
        let index = self.prepared;
        self.prepared = self.prepared + 1;
        let create = index == self.slots;
        if create {
            self.slots = self.slots + 1;
        }
        (index, create)
    }

    /// The slot for the next drawn batch, if one exists.
    pub fn next_render(&mut self) -> (r: Option<usize>)
        requires
            old(self).rendered_spec() < usize::MAX,
        ensures
            final(self).rendered_spec() == old(self).rendered_spec() + 1,
            final(self).prepared_spec() == old(self).prepared_spec(),
            final(self).slots_spec() == old(self).slots_spec(),
            old(self).rendered_spec() < old(self).slots_spec() ==> r == Some(old(self).rendered_spec() as usize),
            old(self).rendered_spec() >= old(self).slots_spec() ==> r is None,
    {
        let index = self.rendered;
        self.rendered = self.rendered + 1;
        if index < self.slots {
            Some(index)
        } else {
            None
        }
    }
}

} // verus!
