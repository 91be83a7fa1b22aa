//! Plain data types of the grid: indents, paddings, margins, alignments,
//! per-cell styles, style targets (entities), border descriptions and the
//! sparse settings diff applied by `Grid::set`.

use vstd::prelude::*;

verus! {

/// The fill character used by default for indents and split lines.
pub const DEFAULT_FILL_CHAR: char = ' ';

/// A run of a single fill character of a given length.
#[derive(Debug, Clone, Copy, PartialEq, Eq, Structural)]
pub struct Indent {
    pub fill: char,
    pub size: usize,
}

impl Indent {
    /// An indent of the given size filled with the given character.
    pub fn new(size: usize, fill: char) -> (r: Self)
        ensures
            r == (Indent { size, fill }),
    {
        Self { size, fill }
    }

    /// An indent of the given size filled with spaces.
    pub fn spaced(size: usize) -> (r: Self)
        ensures
            r == (Indent { size, fill: ' ' }),
    {
        Self { size, fill: DEFAULT_FILL_CHAR }
    }
}

impl Default for Indent {
    /// An empty indent filled with spaces.
    fn default() -> (r: Self)
        ensures
            r == (Indent { size: 0, fill: ' ' }),
    {
        Self { fill: DEFAULT_FILL_CHAR, size: 0 }
    }
}

/// Inner indents of a cell, one per side.
#[derive(Debug, Clone, Copy, PartialEq, Eq, Structural)]
pub struct Padding {
    pub top: Indent,
    pub bottom: Indent,
    pub left: Indent,
    pub right: Indent,
}

impl Default for Padding {
    /// Empty indents on every side.
    fn default() -> (r: Self)
        ensures
            r == (Padding {
                top: Indent { size: 0, fill: ' ' },
                bottom: Indent { size: 0, fill: ' ' },
                left: Indent { size: 0, fill: ' ' },
                right: Indent { size: 0, fill: ' ' },
            }),
    {
        Padding {
            top: Indent::default(),
            bottom: Indent::default(),
            left: Indent::default(),
            right: Indent::default(),
        }
    }
}

/// The margin every grid starts from: no outer indent on any side.
pub open spec fn default_margin() -> Margin {
    Margin {
        top: Indent { size: 0, fill: ' ' },
        bottom: Indent { size: 0, fill: ' ' },
        left: Indent { size: 0, fill: ' ' },
        right: Indent { size: 0, fill: ' ' },
    }
}

/// Outer indents of the whole grid, one per side.
#[derive(Debug, Clone, Copy, PartialEq, Eq, Structural)]
pub struct Margin {
    pub top: Indent,
    pub bottom: Indent,
    pub left: Indent,
    pub right: Indent,
}

impl Default for Margin {
    /// Empty indents on every side.
    fn default() -> (r: Self)
        ensures
            r == (Margin {
                top: Indent { size: 0, fill: ' ' },
                bottom: Indent { size: 0, fill: ' ' },
                left: Indent { size: 0, fill: ' ' },
                right: Indent { size: 0, fill: ' ' },
            }),
    {
        Margin {
            top: Indent::default(),
            bottom: Indent::default(),
            left: Indent::default(),
            right: Indent::default(),
        }
    }
}

/// Horizontal alignment of a cell's content within its width.
#[derive(Debug, Clone, Copy, PartialEq, Eq, Structural)]
pub enum AlignmentHorizontal {
    Center,
    Left,
    Right,
}

/// Vertical alignment of a cell's content within its height.
#[derive(Debug, Clone, Copy, PartialEq, Eq, Structural)]
pub enum AlignmentVertical {
    Center,
    Top,
    Bottom,
}

impl AlignmentVertical {
    /// The number of lines above the content for this alignment, given the
    /// cell height and the content height.
    pub fn top_ident(&self, height: usize, real_height: usize) -> (r: usize)
        requires
            real_height <= height,
        ensures
            r == spec_top_ident(*self, height as int, real_height as int),
    {
        match self {
            AlignmentVertical::Top => 0,
            AlignmentVertical::Bottom => height - real_height,
            AlignmentVertical::Center => (height - real_height) / 2,
        }
    }
}

/// The vertical indent an alignment leaves above content of height
/// `real_height` in a box of height `height`.
pub open spec fn spec_top_ident(a: AlignmentVertical, height: int, real_height: int) -> int {
    match a {
        AlignmentVertical::Top => 0,
        AlignmentVertical::Bottom => height - real_height,
        AlignmentVertical::Center => (height - real_height) / 2,
    }
}

/// Formatting switches of a cell.
#[derive(Debug, Clone, Copy, PartialEq, Eq, Structural)]
pub struct Formatting {
    pub horizontal_trim: bool,
    pub vertical_trim: bool,
    pub allow_lines_alignement: bool,
    pub tab_width: usize,
}

impl Default for Formatting {
    /// No trimming, per-cell alignment, tabs replaced by 0 spaces.
    fn default() -> (r: Self)
        ensures
            r == (Formatting {
                horizontal_trim: false,
                vertical_trim: false,
                allow_lines_alignement: false,
                tab_width: 0,
            }),
    {
        Formatting {
            horizontal_trim: false,
            vertical_trim: false,
            allow_lines_alignement: false,
            tab_width: 0,
        }
    }
}

/// The full set of formatting attributes of one cell.
#[derive(Debug, Clone, Copy, PartialEq, Eq, Structural)]
pub struct Style {
    pub span: usize,
    pub padding: Padding,
    pub alignment_h: AlignmentHorizontal,
    pub alignment_v: AlignmentVertical,
    pub formatting: Formatting,
}

/// The style every grid starts from: span 1, no padding, left/top alignment,
/// no trimming and a tab width of 4.
pub open spec fn default_style() -> Style {
    Style {
        span: 1,
        padding: Padding {
            top: Indent { size: 0, fill: ' ' },
            bottom: Indent { size: 0, fill: ' ' },
            left: Indent { size: 0, fill: ' ' },
            right: Indent { size: 0, fill: ' ' },
        },
        alignment_h: AlignmentHorizontal::Left,
        alignment_v: AlignmentVertical::Top,
        formatting: Formatting {
            horizontal_trim: false,
            vertical_trim: false,
            allow_lines_alignement: false,
            tab_width: 4,
        },
    }
}

impl Default for Style {
    fn default() -> (r: Self)
        ensures
            r == default_style(),
    {
        Self {
            span: 1,
            padding: Padding::default(),
            alignment_h: AlignmentHorizontal::Left,
            alignment_v: AlignmentVertical::Top,
            formatting: Formatting {
                horizontal_trim: false,
                vertical_trim: false,
                allow_lines_alignement: false,
                tab_width: 4,
            },
        }
    }
}

/// A set of cells a setting applies to.
#[derive(Debug, Clone, Copy, PartialEq, Eq, Structural)]
pub enum Entity {
    /// All cells on the grid.
    Global,
    /// All cells in a column on the grid.
    Column(usize),
    /// All cells in a row on the grid.
    Row(usize),
    /// A particular cell (row, column) on the grid.
    Cell(usize, usize),
}

impl Entity {
    /// Whether the entity addresses only cells of a `rows x cols` grid.
    pub open spec fn in_bounds(self, rows: int, cols: int) -> bool {
        match self {
            Entity::Global => true,
            Entity::Column(c) => c < cols,
            Entity::Row(r) => r < rows,
            Entity::Cell(r, c) => r < rows && c < cols,
        }
    }
}

/// The characters of the four sides and four corners of one cell, each
/// present only where drawn.
#[derive(Debug, Clone, Copy, PartialEq, Eq, Structural)]
pub struct Border {
    pub top: Option<char>,
    pub bottom: Option<char>,
    pub left: Option<char>,
    pub right: Option<char>,
    pub left_top_corner: Option<char>,
    pub right_top_corner: Option<char>,
    pub left_bottom_corner: Option<char>,
    pub right_bottom_corner: Option<char>,
}

impl Border {
    /// A border with all eight characters set.
    pub fn new(
        top: char,
        bottom: char,
        left: char,
        right: char,
        top_left: char,
        top_right: char,
        bottom_left: char,
        bottom_right: char,
    ) -> (r: Self)
        ensures
            r == (Border {
                top: Some(top),
                bottom: Some(bottom),
                left: Some(left),
                right: Some(right),
                left_top_corner: Some(top_left),
                right_top_corner: Some(top_right),
                left_bottom_corner: Some(bottom_left),
                right_bottom_corner: Some(bottom_right),
            }),
    {
        Self {
            top: Some(top),
            bottom: Some(bottom),
            right: Some(right),
            right_top_corner: Some(top_right),
            right_bottom_corner: Some(bottom_right),
            left: Some(left),
            left_bottom_corner: Some(bottom_left),
            left_top_corner: Some(top_left),
        }
    }

    /// A border with every side and corner set to the same character.
    pub fn filled(c: char) -> (r: Self)
        ensures
            r == (Border {
                top: Some(c),
                bottom: Some(c),
                left: Some(c),
                right: Some(c),
                left_top_corner: Some(c),
                right_top_corner: Some(c),
                left_bottom_corner: Some(c),
                right_bottom_corner: Some(c),
            }),
    {
        Self::new(c, c, c, c, c, c, c, c)
    }

    /// Set a top border character.
    pub fn top(self, c: char) -> (r: Self)
        ensures
            r == (Border { top: Some(c), ..self }),
    {
        Self { top: Some(c), ..self }
    }

    /// Set a bottom border character.
    pub fn bottom(self, c: char) -> (r: Self)
        ensures
            r == (Border { bottom: Some(c), ..self }),
    {
        Self { bottom: Some(c), ..self }
    }

    /// Set a left border character.
    pub fn left(self, c: char) -> (r: Self)
        ensures
            r == (Border { left: Some(c), ..self }),
    {
        Self { left: Some(c), ..self }
    }

    /// Set a right border character.
    pub fn right(self, c: char) -> (r: Self)
        ensures
            r == (Border { right: Some(c), ..self }),
    {
        Self { right: Some(c), ..self }
    }

    /// Set a top left intersection character.
    pub fn top_left_corner(self, c: char) -> (r: Self)
        ensures
            r == (Border { left_top_corner: Some(c), ..self }),
    {
        Self { left_top_corner: Some(c), ..self }
    }

    /// Set a top right intersection character.
    pub fn top_right_corner(self, c: char) -> (r: Self)
        ensures
            r == (Border { right_top_corner: Some(c), ..self }),
    {
        Self { right_top_corner: Some(c), ..self }
    }

    /// Set a bottom left intersection character.
    pub fn bottom_left_corner(self, c: char) -> (r: Self)
        ensures
            r == (Border { left_bottom_corner: Some(c), ..self }),
    {
        Self { left_bottom_corner: Some(c), ..self }
    }

    /// Set a bottom right intersection character.
    pub fn bottom_right_corner(self, c: char) -> (r: Self)
        ensures
            r == (Border { right_bottom_corner: Some(c), ..self }),
    {
        Self { right_bottom_corner: Some(c), ..self }
    }
}

impl Default for Border {
    /// A border with no character set on any side.
    fn default() -> (r: Self)
        ensures
            r == (Border {
                top: None,
                bottom: None,
                left: None,
                right: None,
                left_top_corner: None,
                right_top_corner: None,
                left_bottom_corner: None,
                right_bottom_corner: None,
            }),
    {
        Border {
            top: None,
            bottom: None,
            left: None,
            right: None,
            left_top_corner: None,
            right_top_corner: None,
            left_bottom_corner: None,
            right_bottom_corner: None,
        }
    }
}

/// The characters of one split line to install: one border character per
/// crossed cell and one character per crossing intersection.
#[derive(Debug, Clone)]
pub struct SplitLine {
    pub borders: Vec<char>,
    pub intersections: Vec<char>,
}

impl SplitLine {
    /// A split line from its border characters and intersection characters.
    pub fn new(borders: Vec<char>, intersections: Vec<char>) -> (r: Self)
        ensures
            r.borders == borders,
            r.intersections == intersections,
    {
        Self { borders, intersections }
    }

    /// Append one border character.
    pub fn border(self, c: char) -> (r: Self)
        ensures
            r.borders@ == self.borders@.push(c),
            r.intersections == self.intersections,
    {
        let mut s = self;
        s.borders.push(c);
        s
    }

    /// Append one intersection character.
    pub fn intersection(self, c: char) -> (r: Self)
        ensures
            r.intersections@ == self.intersections@.push(c),
            r.borders == self.borders,
    {
        let mut s = self;
        s.intersections.push(c);
        s
    }
}

impl Default for SplitLine {
    /// A split line with no characters yet.
    fn default() -> (r: Self)
        ensures
            r.borders@ == Seq::<char>::empty(),
            r.intersections@ == Seq::<char>::empty(),
    {
        SplitLine { borders: Vec::new(), intersections: Vec::new() }
    }
}

/// A sparse update of one entity's settings: only the present fields are
/// applied.
#[derive(Debug, Clone)]
pub struct Settings {
    pub text: Option<String>,
    pub padding: Option<Padding>,
    pub border: Option<Border>,
    pub border_split_check: bool,
    pub span: Option<usize>,
    pub alignment_h: Option<AlignmentHorizontal>,
    pub alignment_v: Option<AlignmentVertical>,
    pub formatting: Option<Formatting>,
}

/// The style that results from applying the style fields of a settings diff
/// on top of a base style. The text and border fields are handled apart.
pub open spec fn apply_diff(base: Style, s: Settings) -> Style {
    Style {
        span: if s.span is Some { s.span->0 } else { base.span },
        padding: if s.padding is Some { s.padding->0 } else { base.padding },
        alignment_h: if s.alignment_h is Some { s.alignment_h->0 } else { base.alignment_h },
        alignment_v: if s.alignment_v is Some { s.alignment_v->0 } else { base.alignment_v },
        formatting: if s.formatting is Some { s.formatting->0 } else { base.formatting },
    }
}

/// Whether the diff touches any style field at all (text and border apart).
pub open spec fn diff_touches_style(s: Settings) -> bool {
    s.span is Some || s.padding is Some || s.alignment_h is Some || s.alignment_v is Some
        || s.formatting is Some
}

impl Settings {
    /// An empty diff: applying it changes nothing.
    pub fn new() -> (r: Self)
        ensures
            r.text is None,
            r.padding is None,
            r.border is None,
            r.border_split_check == false,
            r.span is None,
            r.alignment_h is None,
            r.alignment_v is None,
            r.formatting is None,
    {
        Self::default()
    }

    /// Set content for a cell.
    pub fn text(self, text: &str) -> (r: Self)
        ensures
            r.text is Some && r.text->0@ == text@,
            r.padding == self.padding,
            r.border == self.border,
            r.border_split_check == self.border_split_check,
            r.span == self.span,
            r.alignment_h == self.alignment_h,
            r.alignment_v == self.alignment_v,
            r.formatting == self.formatting,
    {
        Settings { text: Some(text.to_owned()), ..self }
    }

    /// Set padding for a cell.
    pub fn padding(self, left: Indent, right: Indent, top: Indent, bottom: Indent) -> (r: Self)
        ensures
            r == (Settings { padding: Some(Padding { top, bottom, left, right }), ..self }),
    {
        Settings { padding: Some(Padding { top, bottom, left, right }), ..self }
    }

    /// Set horizontal alignment for a cell.
    pub fn alignment(self, alignment: AlignmentHorizontal) -> (r: Self)
        ensures
            r == (Settings { alignment_h: Some(alignment), ..self }),
    {
        Settings { alignment_h: Some(alignment), ..self }
    }

    /// Set vertical alignment for a cell.
    pub fn vertical_alignment(self, alignment: AlignmentVertical) -> (r: Self)
        ensures
            r == (Settings { alignment_v: Some(alignment), ..self }),
    {
        Settings { alignment_v: Some(alignment), ..self }
    }

    /// Set the cell's span.
    pub fn span(self, span: usize) -> (r: Self)
        ensures
            r == (Settings { span: Some(span), ..self }),
    {
        Settings { span: Some(span), ..self }
    }

    /// Set the cell's border. Unless split lines for every affected boundary
    /// already exist, enable their creation with [`Self::border_restriction`].
    pub fn border(self, border: Border) -> (r: Self)
        ensures
            r == (Settings { border: Some(border), ..self }),
    {
        Settings { border: Some(border), ..self }
    }

    /// With `strict` false, missing split lines are created before a border
    /// from this diff is applied; with `strict` true they must already exist.
    pub fn border_restriction(self, strict: bool) -> (r: Self)
        ensures
            r == (Settings { border_split_check: !strict, ..self }),
    {
        Settings { border_split_check: !strict, ..self }
    }

    /// Set the formatting switches, replacing all of them.
    pub fn formatting(self, formatting: Formatting) -> (r: Self)
        ensures
            r == (Settings { formatting: Some(formatting), ..self }),
    {
        Settings { formatting: Some(formatting), ..self }
    }
}

impl Default for Settings {
    /// An empty diff: applying it changes nothing.
    fn default() -> (r: Self)
        ensures
            r.text is None,
            r.padding is None,
            r.border is None,
            r.border_split_check == false,
            r.span is None,
            r.alignment_h is None,
            r.alignment_v is None,
            r.formatting is None,
    {
        Settings {
            text: None,
            padding: None,
            border: None,
            border_split_check: false,
            span: None,
            alignment_h: None,
            alignment_v: None,
            formatting: None,
        }
    }
}

} // verus!

verus! {

/// The classic single-line cell border: dashes, pipes and plus corners.
pub fn default_cell_style() -> (r: Border)
    ensures
        r == (Border {
            top: Some('-'),
            bottom: Some('-'),
            left: Some('|'),
            right: Some('|'),
            left_top_corner: Some('+'),
            right_top_corner: Some('+'),
            left_bottom_corner: Some('+'),
            right_bottom_corner: Some('+'),
        }),
{
    Border {
        top: Some('-'),
        bottom: Some('-'),
        left: Some('|'),
        right: Some('|'),
        right_top_corner: Some('+'),
        left_bottom_corner: Some('+'),
        left_top_corner: Some('+'),
        right_bottom_corner: Some('+'),
    }
}

} // verus!
