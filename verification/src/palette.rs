use vstd::prelude::*;
use vstd::std_specs::cmp::PartialEqSpecImpl;

verus! {

/// An RGBA color, one byte per channel.
#[derive(Copy, Clone, Debug, Eq, Hash)]
pub struct Color(pub [u8; 4]);

impl PartialEq for Color {
    fn eq(&self, other: &Self) -> (r: bool) {
        let r = self.0[0] == other.0[0] && self.0[1] == other.0[1] && self.0[2] == other.0[2]
            && self.0[3] == other.0[3];
        proof {
            broadcast use vstd::array::group_array_axioms;
            if r {
                assert(self.0 =~= other.0);
            }
        }
        r
    }
}

impl PartialEqSpecImpl for Color {
    open spec fn obeys_eq_spec() -> bool {
        true
    }

    open spec fn eq_spec(&self, other: &Self) -> bool {
        *self == *other
    }
}

/// The color with the given channels.
pub open spec fn rgba(r: u8, g: u8, b: u8, a: u8) -> Color {
    Color([r, g, b, a])
}

impl Color {
    /// An opaque color.
    pub fn rgb(r: u8, g: u8, b: u8) -> (c: Color)
        ensures
            c == rgba(r, g, b, 255),
    {
        Color([r, g, b, 255])
    }

    /// Opaque black.
    pub fn black() -> (c: Color)
        ensures
            c == rgba(0, 0, 0, 255),
    {
        Color([0, 0, 0, 255])
    }

    /// Opaque white.
    pub fn white() -> (c: Color)
        ensures
            c == rgba(255, 255, 255, 255),
    {
        Color([255, 255, 255, 255])
    }
}

/// A named list of colors.
#[derive(Clone, Debug)]
pub struct Palette {
    pub name: String,
    pub colors: Vec<Color>,
}

/// The classic DOS 16-color palette, in its usual order.
pub open spec fn dos_colors() -> Seq<Color> {
    seq![
        rgba(0, 0, 0, 255),
        rgba(0, 0, 170, 255),
        rgba(0, 170, 0, 255),
        rgba(0, 170, 170, 255),
        rgba(170, 0, 0, 255),
        rgba(170, 0, 170, 255),
        rgba(170, 85, 0, 255),
        rgba(170, 170, 170, 255),
        rgba(85, 85, 85, 255),
        rgba(85, 85, 255, 255),
        rgba(85, 255, 85, 255),
        rgba(85, 255, 255, 255),
        rgba(255, 85, 85, 255),
        rgba(255, 85, 255, 255),
        rgba(255, 255, 85, 255),
        rgba(255, 255, 255, 255),
    ]
}

impl Palette {
    /// The DOS palette under another name.
    pub fn default_dos_variant(name: String) -> (p: Palette)
        ensures
            p.name@ == name@,
            p.colors@ == dos_colors(),
    {
        let mut p = Self::default_dos();
        p.name = name;
        p
    }

    /// The DOS palette, named "DOS 16".
    pub fn default_dos() -> (p: Palette)
        ensures
            p.name@ == "DOS 16"@,
            p.colors@ == dos_colors(),
    {
        let mut colors: Vec<Color> = Vec::new();
        colors.push(Color::rgb(0, 0, 0));
        colors.push(Color::rgb(0, 0, 170));
        colors.push(Color::rgb(0, 170, 0));
        colors.push(Color::rgb(0, 170, 170));
        colors.push(Color::rgb(170, 0, 0));
        colors.push(Color::rgb(170, 0, 170));
        colors.push(Color::rgb(170, 85, 0));
        colors.push(Color::rgb(170, 170, 170));
        colors.push(Color::rgb(85, 85, 85));
        colors.push(Color::rgb(85, 85, 255));
        colors.push(Color::rgb(85, 255, 85));
        colors.push(Color::rgb(85, 255, 255));
        colors.push(Color::rgb(255, 85, 85));
        colors.push(Color::rgb(255, 85, 255));
        colors.push(Color::rgb(255, 255, 85));
        colors.push(Color::rgb(255, 255, 255));
        assert(colors@ =~= dos_colors());
        Palette { name: String::from_str("DOS 16"), colors }
    }
}

} // verus!
