//! Glyph families of the shape tools.
//!
//! `RectFamily` is the six-glyph set of a rectangle outline. A
//! `ConnectionPattern` records which line style a cell presents on each of its
//! four sides; a table maps patterns to CP437 box-drawing glyphs and back, so
//! mixed single/double junctions resolve to the right glyph.
use vstd::prelude::*;

verus! {

/// The glyphs of one rectangle family: corners, horizontal and vertical edges.
#[derive(Copy, Clone, Debug)]
pub struct RectFamily {
    pub tl: u8,
    pub tr: u8,
    pub bl: u8,
    pub br: u8,
    pub h: u8,
    pub v: u8,
}

impl RectFamily {
    /// Is `glyph` one of this family's glyphs?
    pub open spec fn has(&self, glyph: u8) -> bool {
        glyph == self.tl || glyph == self.tr || glyph == self.bl || glyph == self.br || glyph
            == self.h || glyph == self.v
    }

    /// Is `glyph` one of this family's glyphs?
    pub fn contains(&self, glyph: u8) -> (b: bool)
        ensures
            b == self.has(glyph),
    {
        glyph == self.tl || glyph == self.tr || glyph == self.bl || glyph == self.br || glyph
            == self.h || glyph == self.v
    }
}

/// The single-line rectangle family.
pub open spec fn single_rect_family() -> RectFamily {
    RectFamily { tl: 218, tr: 191, bl: 192, br: 217, h: 196, v: 179 }
}

/// The double-line rectangle family.
pub open spec fn double_rect_family() -> RectFamily {
    RectFamily { tl: 201, tr: 187, bl: 200, br: 188, h: 205, v: 186 }
}

/// The rectangle families, single-line first.
pub open spec fn rect_families() -> Seq<RectFamily> {
    seq![single_rect_family(), double_rect_family()]
}

/// The first family that holds `glyph`.
pub open spec fn rect_family_for_spec(glyph: u8) -> Option<RectFamily> {
    if single_rect_family().has(glyph) {
        Some(single_rect_family())
    } else if double_rect_family().has(glyph) {
        Some(double_rect_family())
    } else {
        None
    }
}

/// The first rectangle family (single-line, then double-line) that holds `glyph`.
pub fn rect_family_for(glyph: u8) -> (f: Option<RectFamily>)
    ensures
        f == rect_family_for_spec(glyph),
{
    let single = RectFamily { tl: 218, tr: 191, bl: 192, br: 217, h: 196, v: 179 };
    let double = RectFamily { tl: 201, tr: 187, bl: 200, br: 188, h: 205, v: 186 };
    if single.contains(glyph) {
        Some(single)
    } else if double.contains(glyph) {
        Some(double)
    } else {
        None
    }
}

/// The line style a cell presents on one side.
#[derive(Copy, Clone, Debug, PartialEq, Eq, Structural, Default)]
pub enum LineStyle {
    #[default]
    NoLine,
    Single,
    Double,
}

/// A cardinal direction.
#[derive(Copy, Clone, Debug, PartialEq, Eq, Structural)]
pub enum Side {
    Top,
    Right,
    Bottom,
    Left,
}

pub open spec fn opposite_spec(s: Side) -> Side {
    match s {
        Side::Top => Side::Bottom,
        Side::Right => Side::Left,
        Side::Bottom => Side::Top,
        Side::Left => Side::Right,
    }
}

impl Side {
    /// The four sides, clockwise from the top.
    pub fn all() -> (a: [Side; 4])
        ensures
            a@ == seq![Side::Top, Side::Right, Side::Bottom, Side::Left],
    {
        [Side::Top, Side::Right, Side::Bottom, Side::Left]
    }

    /// The side facing this one.
    pub fn opposite(self) -> (o: Side)
        ensures
            o == opposite_spec(self),
    {
        match self {
            Side::Top => Side::Bottom,
            Side::Right => Side::Left,
            Side::Bottom => Side::Top,
            Side::Left => Side::Right,
        }
    }

    /// `(x, y)` moved one cell towards this side, as signed coordinates (the
    /// coordinates are reinterpreted as `i32` first); stepping off the top or
    /// left edge gives a negative coordinate.
    pub fn step(self, x: u32, y: u32) -> (p: (i32, i32))
        requires
            self == Side::Top ==> (y as i32) > i32::MIN,
            self == Side::Bottom ==> (y as i32) < i32::MAX,
            self == Side::Right ==> (x as i32) < i32::MAX,
            self == Side::Left ==> (x as i32) > i32::MIN,
        ensures
            p == match self {
                Side::Top => (x as i32, ((y as i32) - 1) as i32),
                Side::Right => (((x as i32) + 1) as i32, y as i32),
                Side::Bottom => (x as i32, ((y as i32) + 1) as i32),
                Side::Left => (((x as i32) - 1) as i32, y as i32),
            },
    {
        let xi = x as i32;
        let yi = y as i32;
        match self {
            Side::Top => (xi, yi - 1),
            Side::Right => (xi + 1, yi),
            Side::Bottom => (xi, yi + 1),
            Side::Left => (xi - 1, yi),
        }
    }
}

/// The line style a cell presents on each of its four sides.
#[derive(Copy, Clone, Debug, PartialEq, Eq, Structural, Default)]
pub struct ConnectionPattern {
    pub top: LineStyle,
    pub right: LineStyle,
    pub bottom: LineStyle,
    pub left: LineStyle,
}

/// The pattern with the given sides: top, right, bottom, left.
pub open spec fn pat_spec(t: LineStyle, r: LineStyle, b: LineStyle, l: LineStyle) -> ConnectionPattern {
    ConnectionPattern { top: t, right: r, bottom: b, left: l }
}

pub open spec fn side_of(p: ConnectionPattern, side: Side) -> LineStyle {
    match side {
        Side::Top => p.top,
        Side::Right => p.right,
        Side::Bottom => p.bottom,
        Side::Left => p.left,
    }
}

pub open spec fn with_side(p: ConnectionPattern, side: Side, style: LineStyle) -> ConnectionPattern {
    match side {
        Side::Top => ConnectionPattern { top: style, ..p },
        Side::Right => ConnectionPattern { right: style, ..p },
        Side::Bottom => ConnectionPattern { bottom: style, ..p },
        Side::Left => ConnectionPattern { left: style, ..p },
    }
}

impl ConnectionPattern {
    /// The pattern with no connection on any side.
    pub fn empty() -> (p: ConnectionPattern)
        ensures
            p == pat_spec(LineStyle::NoLine, LineStyle::NoLine, LineStyle::NoLine, LineStyle::NoLine),
    {
        pat(LineStyle::NoLine, LineStyle::NoLine, LineStyle::NoLine, LineStyle::NoLine)
    }

    /// The style on `side`.
    pub fn get(self, side: Side) -> (s: LineStyle)
        ensures
            s == side_of(self, side),
    {
        match side {
            Side::Top => self.top,
            Side::Right => self.right,
            Side::Bottom => self.bottom,
            Side::Left => self.left,
        }
    }

    /// This pattern with `side` set to `style`.
    pub fn with(self, side: Side, style: LineStyle) -> (p: ConnectionPattern)
        ensures
            p == with_side(self, side, style),
    {
        let mut p = self;
        match side {
            Side::Top => p.top = style,
            Side::Right => p.right = style,
            Side::Bottom => p.bottom = style,
            Side::Left => p.left = style,
        }
        p
    }
}

/// The pattern with the given sides: top, right, bottom, left.
fn pat(t: LineStyle, r: LineStyle, b: LineStyle, l: LineStyle) -> (p: ConnectionPattern)
    ensures
        p == pat_spec(t, r, b, l),
{
    ConnectionPattern { top: t, right: r, bottom: b, left: l }
}

/// The pattern/glyph table. Each glyph's full pattern comes before any other
/// entry with that glyph, so a glyph looks up its full pattern; the
/// single-side stubs at the end serve only the pattern-to-glyph direction.
pub open spec fn pattern_table() -> Seq<(ConnectionPattern, u8)> {
    let n = LineStyle::NoLine;
    let s = LineStyle::Single;
    let d = LineStyle::Double;
    seq![
        (pat_spec(n, s, n, s), 196u8),
        (pat_spec(n, d, n, d), 205u8),
        (pat_spec(s, n, s, n), 179u8),
        (pat_spec(d, n, d, n), 186u8),
        (pat_spec(n, s, s, n), 218u8),
        (pat_spec(n, n, s, s), 191u8),
        (pat_spec(s, s, n, n), 192u8),
        (pat_spec(s, n, n, s), 217u8),
        (pat_spec(n, d, d, n), 201u8),
        (pat_spec(n, n, d, d), 187u8),
        (pat_spec(d, d, n, n), 200u8),
        (pat_spec(d, n, n, d), 188u8),
        (pat_spec(n, d, s, n), 213u8),
        (pat_spec(n, s, d, n), 214u8),
        (pat_spec(n, n, s, d), 184u8),
        (pat_spec(n, n, d, s), 183u8),
        (pat_spec(s, d, n, n), 212u8),
        (pat_spec(d, s, n, n), 211u8),
        (pat_spec(s, n, n, d), 190u8),
        (pat_spec(d, n, n, s), 189u8),
        (pat_spec(s, s, n, s), 193u8),
        (pat_spec(d, d, n, d), 202u8),
        (pat_spec(n, s, s, s), 194u8),
        (pat_spec(n, d, d, d), 203u8),
        (pat_spec(s, n, s, s), 180u8),
        (pat_spec(d, n, d, d), 185u8),
        (pat_spec(s, s, s, n), 195u8),
        (pat_spec(d, d, d, n), 204u8),
        (pat_spec(d, s, n, s), 208u8),
        (pat_spec(s, d, n, d), 207u8),
        (pat_spec(n, s, d, s), 210u8),
        (pat_spec(n, d, s, d), 209u8),
        (pat_spec(s, n, s, d), 181u8),
        (pat_spec(d, n, d, s), 182u8),
        (pat_spec(s, d, s, n), 198u8),
        (pat_spec(d, s, d, n), 199u8),
        (pat_spec(s, s, s, s), 197u8),
        (pat_spec(d, d, d, d), 206u8),
        (pat_spec(d, s, d, s), 215u8),
        (pat_spec(s, d, s, d), 216u8),
        (pat_spec(s, n, n, n), 179u8),
        (pat_spec(d, n, n, n), 186u8),
        (pat_spec(n, n, s, n), 179u8),
        (pat_spec(n, n, d, n), 186u8),
        (pat_spec(n, s, n, n), 196u8),
        (pat_spec(n, d, n, n), 205u8),
        (pat_spec(n, n, n, s), 196u8),
        (pat_spec(n, n, n, d), 205u8),
    ]
}

/// The table, built.
fn build_pattern_table() -> (t: Vec<(ConnectionPattern, u8)>)
    ensures
        t@ == pattern_table(),
{
    let n = LineStyle::NoLine;
    let s = LineStyle::Single;
    let d = LineStyle::Double;
    let mut t: Vec<(ConnectionPattern, u8)> = Vec::new();
    t.push((pat(n, s, n, s), 196));
    t.push((pat(n, d, n, d), 205));
    t.push((pat(s, n, s, n), 179));
    t.push((pat(d, n, d, n), 186));
    t.push((pat(n, s, s, n), 218));
    t.push((pat(n, n, s, s), 191));
    t.push((pat(s, s, n, n), 192));
    t.push((pat(s, n, n, s), 217));
    t.push((pat(n, d, d, n), 201));
    t.push((pat(n, n, d, d), 187));
    t.push((pat(d, d, n, n), 200));
    t.push((pat(d, n, n, d), 188));
    t.push((pat(n, d, s, n), 213));
    t.push((pat(n, s, d, n), 214));
    t.push((pat(n, n, s, d), 184));
    t.push((pat(n, n, d, s), 183));
    t.push((pat(s, d, n, n), 212));
    t.push((pat(d, s, n, n), 211));
    t.push((pat(s, n, n, d), 190));
    t.push((pat(d, n, n, s), 189));
    t.push((pat(s, s, n, s), 193));
    t.push((pat(d, d, n, d), 202));
    t.push((pat(n, s, s, s), 194));
    t.push((pat(n, d, d, d), 203));
    t.push((pat(s, n, s, s), 180));
    t.push((pat(d, n, d, d), 185));
    t.push((pat(s, s, s, n), 195));
    t.push((pat(d, d, d, n), 204));
    t.push((pat(d, s, n, s), 208));
    t.push((pat(s, d, n, d), 207));
    t.push((pat(n, s, d, s), 210));
    t.push((pat(n, d, s, d), 209));
    t.push((pat(s, n, s, d), 181));
    t.push((pat(d, n, d, s), 182));
    t.push((pat(s, d, s, n), 198));
    t.push((pat(d, s, d, n), 199));
    t.push((pat(s, s, s, s), 197));
    t.push((pat(d, d, d, d), 206));
    t.push((pat(d, s, d, s), 215));
    t.push((pat(s, d, s, d), 216));
    t.push((pat(s, n, n, n), 179));
    t.push((pat(d, n, n, n), 186));
    t.push((pat(n, n, s, n), 179));
    t.push((pat(n, n, d, n), 186));
    t.push((pat(n, s, n, n), 196));
    t.push((pat(n, d, n, n), 205));
    t.push((pat(n, n, n, s), 196));
    t.push((pat(n, n, n, d), 205));
    assert(t@ =~= pattern_table());
    t
}

/// The pattern of the first table entry at or after `i` whose glyph is `glyph`.
pub open spec fn find_by_glyph(t: Seq<(ConnectionPattern, u8)>, glyph: u8, i: nat) -> Option<ConnectionPattern>
    decreases t.len() - i,
{
    if i >= t.len() {
        None
    } else if t[i as int].1 == glyph {
        Some(t[i as int].0)
    } else {
        find_by_glyph(t, glyph, i + 1)
    }
}

/// The glyph of the first table entry at or after `i` whose pattern is `p`.
pub open spec fn find_by_pattern(t: Seq<(ConnectionPattern, u8)>, p: ConnectionPattern, i: nat) -> Option<u8>
    decreases t.len() - i,
{
    if i >= t.len() {
        None
    } else if t[i as int].0 == p {
        Some(t[i as int].1)
    } else {
        find_by_pattern(t, p, i + 1)
    }
}

/// The full pattern of a box-drawing glyph.
pub open spec fn glyph_to_pattern_spec(glyph: u8) -> Option<ConnectionPattern> {
    find_by_glyph(pattern_table(), glyph, 0)
}

/// The glyph that draws a pattern.
pub open spec fn pattern_to_glyph_spec(p: ConnectionPattern) -> Option<u8> {
    find_by_pattern(pattern_table(), p, 0)
}

/// The full pattern of `glyph`, or `None` when it is not a box-drawing glyph.
pub fn glyph_to_pattern(glyph: u8) -> (p: Option<ConnectionPattern>)
    ensures
        p == glyph_to_pattern_spec(glyph),
{
    let t = build_pattern_table();
    let mut i: usize = 0;
    while i < t.len()
        invariant
            i <= t@.len(),
            t@ == pattern_table(),
            find_by_glyph(t@, glyph, 0) == find_by_glyph(t@, glyph, i as nat),
        decreases t@.len() - i,
    {
        if t[i].1 == glyph {
            return Some(t[i].0);
        }
        i = i + 1;
    }
    None
}

/// The glyph that draws `pattern`, or `None` when CP437 has none.
pub fn pattern_to_glyph(pattern: ConnectionPattern) -> (g: Option<u8>)
    ensures
        g == pattern_to_glyph_spec(pattern),
{
    let t = build_pattern_table();
    let mut i: usize = 0;
    while i < t.len()
        invariant
            i <= t@.len(),
            t@ == pattern_table(),
            find_by_pattern(t@, pattern, 0) == find_by_pattern(t@, pattern, i as nat),
        decreases t@.len() - i,
    {
        if t[i].0 == pattern {
            return Some(t[i].1);
        }
        i = i + 1;
    }
    None
}

/// Is `glyph` a box-drawing glyph of the table?
pub fn is_connected_glyph(glyph: u8) -> (b: bool)
    ensures
        b == glyph_to_pattern_spec(glyph).is_some(),
{
    glyph_to_pattern(glyph).is_some()
}

pub open spec fn count_style(p: ConnectionPattern, style: LineStyle) -> int {
    (if p.top == style { 1int } else { 0int }) + (if p.right == style { 1int } else { 0int }) + (if p.bottom
        == style { 1int } else { 0int }) + (if p.left == style { 1int } else { 0int })
}

/// The family a box-drawing glyph mostly draws with: double when it has more
/// double sides than single ones, otherwise single when it has a single side,
/// otherwise (and for glyphs that are not box drawing) `None`.
pub open spec fn stroke_family_spec(glyph: u8) -> LineStyle {
    match glyph_to_pattern_spec(glyph) {
        None => LineStyle::NoLine,
        Some(p) => if count_style(p, LineStyle::Double) > count_style(p, LineStyle::Single) {
            LineStyle::Double
        } else if count_style(p, LineStyle::Single) > 0 {
            LineStyle::Single
        } else {
            LineStyle::NoLine
        },
    }
}

/// The dominant family of a box-drawing glyph; see [`stroke_family_spec`].
pub fn stroke_family(glyph: u8) -> (f: LineStyle)
    ensures
        f == stroke_family_spec(glyph),
{
    let p = match glyph_to_pattern(glyph) {
        Some(p) => p,
        None => return LineStyle::NoLine,
    };
    let mut s: u32 = 0;
    let mut d: u32 = 0;
    let slots = [p.top, p.right, p.bottom, p.left];
    let mut i: usize = 0;
    while i < 4
        invariant
            i <= 4,
            slots@ == seq![p.top, p.right, p.bottom, p.left],
            s == count_style_prefix(slots@, LineStyle::Single, i as int),
            d == count_style_prefix(slots@, LineStyle::Double, i as int),
            s <= i,
            d <= i,
        decreases 4 - i,
    {
        match slots[i] {
            LineStyle::Single => s += 1,
            LineStyle::Double => d += 1,
            LineStyle::NoLine => {},
        }
        i = i + 1;
    }
    proof {
        reveal_with_fuel(count_style_prefix, 5);
        assert(s == count_style(p, LineStyle::Single));
        assert(d == count_style(p, LineStyle::Double));
    }
    if d > s {
        LineStyle::Double
    } else if s > 0 {
        LineStyle::Single
    } else {
        LineStyle::NoLine
    }
}

/// How many of the first `n` slots have `style`.
pub open spec fn count_style_prefix(slots: Seq<LineStyle>, style: LineStyle, n: int) -> int
    decreases n,
{
    if n <= 0 {
        0
    } else {
        count_style_prefix(slots, style, n - 1) + if slots[n - 1] == style {
            1int
        } else {
            0int
        }
    }
}

/// `glyph` mirrored: left/right swapped for `flip_h`, top/bottom for `flip_v`.
/// Glyphs that are not box drawing, and box drawings whose mirror image CP437
/// lacks, are returned unchanged.
pub open spec fn flip_glyph_spec(glyph: u8, flip_h: bool, flip_v: bool) -> u8 {
    if !flip_h && !flip_v {
        glyph
    } else {
        match glyph_to_pattern_spec(glyph) {
            None => glyph,
            Some(p) => {
                let ph = if flip_h {
                    ConnectionPattern { left: p.right, right: p.left, ..p }
                } else {
                    p
                };
                let pv = if flip_v {
                    ConnectionPattern { top: ph.bottom, bottom: ph.top, ..ph }
                } else {
                    ph
                };
                match pattern_to_glyph_spec(pv) {
                    Some(g) => g,
                    None => glyph,
                }
            },
        }
    }
}

/// Mirrors a glyph; see [`flip_glyph_spec`].
pub fn flip_glyph(glyph: u8, flip_h: bool, flip_v: bool) -> (g: u8)
    ensures
        g == flip_glyph_spec(glyph, flip_h, flip_v),
{
    if !flip_h && !flip_v {
        return glyph;
    }
    let mut pattern = match glyph_to_pattern(glyph) {
        Some(p) => p,
        None => return glyph,
    };
    if flip_h {
        let l = pattern.left;
        pattern.left = pattern.right;
        pattern.right = l;
    }
    if flip_v {
        let t = pattern.top;
        pattern.top = pattern.bottom;
        pattern.bottom = t;
    }
    match pattern_to_glyph(pattern) {
        Some(g) => g,
        None => glyph,
    }
}

/// `pattern` with each axis whose two sides are both connected but in
/// different styles forced to `family`; unchanged when `family` is `None`.
pub open spec fn coerce_to_family_spec(pattern: ConnectionPattern, family: LineStyle) -> ConnectionPattern {
    if family == LineStyle::NoLine {
        pattern
    } else {
        let vert = pattern.top != LineStyle::NoLine && pattern.bottom != LineStyle::NoLine
            && pattern.top != pattern.bottom;
        let horiz = pattern.left != LineStyle::NoLine && pattern.right != LineStyle::NoLine
            && pattern.left != pattern.right;
        ConnectionPattern {
            top: if vert { family } else { pattern.top },
            bottom: if vert { family } else { pattern.bottom },
            left: if horiz { family } else { pattern.left },
            right: if horiz { family } else { pattern.right },
        }
    }
}

/// Resolves mismatched opposite sides to `family`; see [`coerce_to_family_spec`].
pub fn coerce_to_family(pattern: ConnectionPattern, family: LineStyle) -> (p: ConnectionPattern)
    ensures
        p == coerce_to_family_spec(pattern, family),
{
    let mut pattern = pattern;
    if family == LineStyle::NoLine {
        return pattern;
    }
    let mismatched_vert = pattern.top != LineStyle::NoLine && pattern.bottom != LineStyle::NoLine
        && pattern.top != pattern.bottom;
    if mismatched_vert {
        pattern.top = family;
        pattern.bottom = family;
    }
    let mismatched_horiz = pattern.left != LineStyle::NoLine && pattern.right != LineStyle::NoLine
        && pattern.left != pattern.right;
    if mismatched_horiz {
        pattern.left = family;
        pattern.right = family;
    }
    pattern
}

/// A box-drawing glyph is drawn back from its own pattern: looking a glyph's
/// pattern up in the table gives the glyph again.
pub proof fn lemma_glyph_pattern_roundtrip(glyph: u8)
    ensures
        glyph_to_pattern_spec(glyph) matches Some(p) ==> pattern_to_glyph_spec(p) == Some(glyph),
{
    reveal_with_fuel(find_by_glyph, 49);
    reveal_with_fuel(find_by_pattern, 49);
}

/// Number of connected sides of a pattern.
pub open spec fn arms(p: ConnectionPattern) -> int {
    4 - count_style(p, LineStyle::NoLine)
}

/// A pattern with two or more connected sides that draws with some glyph is
/// that glyph's full pattern.
pub proof fn lemma_full_pattern_roundtrip(p: ConnectionPattern)
    ensures
        arms(p) >= 2 ==> (pattern_to_glyph_spec(p) matches Some(g) ==> glyph_to_pattern_spec(g)
            == Some(p)),
{
    reveal_with_fuel(find_by_glyph, 49);
    reveal_with_fuel(find_by_pattern, 49);
}

/// The full pattern of a glyph connects at least two sides.
pub proof fn lemma_full_pattern_arms(glyph: u8)
    ensures
        glyph_to_pattern_spec(glyph) matches Some(p) ==> arms(p) >= 2,
{
    reveal_with_fuel(find_by_glyph, 49);
}

/// Mirroring twice the same way gives the glyph back.
pub proof fn lemma_flip_involution(glyph: u8, flip_h: bool, flip_v: bool)
    ensures
        flip_glyph_spec(flip_glyph_spec(glyph, flip_h, flip_v), flip_h, flip_v) == glyph,
{
    if flip_h || flip_v {
        lemma_full_pattern_arms(glyph);
        lemma_glyph_pattern_roundtrip(glyph);
        if let Some(p) = glyph_to_pattern_spec(glyph) {
            let ph = if flip_h {
                ConnectionPattern { left: p.right, right: p.left, ..p }
            } else {
                p
            };
            let pv = if flip_v {
                ConnectionPattern { top: ph.bottom, bottom: ph.top, ..ph }
            } else {
                ph
            };
            lemma_full_pattern_roundtrip(pv);
        }
    }
}

/// The side facing the side facing `s` is `s`.
pub proof fn lemma_opposite_involution(s: Side)
    ensures
        opposite_spec(opposite_spec(s)) == s,
        opposite_spec(s) != s,
{
}

/// Setting one side of a pattern changes that side and no other.
pub proof fn lemma_with_then_get(p: ConnectionPattern, side: Side, style: LineStyle, other: Side)
    ensures
        side_of(with_side(p, side, style), side) == style,
        other != side ==> side_of(with_side(p, side, style), other) == side_of(p, other),
{
}

/// After coercion to a family, no axis has both sides connected in different
/// styles, and connected sides stay connected.
pub proof fn lemma_coerce_resolves_mismatch(pattern: ConnectionPattern, family: LineStyle)
    requires
        family != LineStyle::NoLine,
    ensures
        ({
            let c = coerce_to_family_spec(pattern, family);
            &&& (c.top != LineStyle::NoLine && c.bottom != LineStyle::NoLine) ==> c.top == c.bottom
            &&& (c.left != LineStyle::NoLine && c.right != LineStyle::NoLine) ==> c.left == c.right
            &&& (c.top == LineStyle::NoLine) == (pattern.top == LineStyle::NoLine)
            &&& (c.right == LineStyle::NoLine) == (pattern.right == LineStyle::NoLine)
            &&& (c.bottom == LineStyle::NoLine) == (pattern.bottom == LineStyle::NoLine)
            &&& (c.left == LineStyle::NoLine) == (pattern.left == LineStyle::NoLine)
        }),
{
}

} // verus!
