//! The style definition model: the intent of a style (which transformations,
//! which colors) and its resolution into a fixed set of rendering attributes.

use vstd::prelude::*;

verus! {

/// Transformations that can be applied to texts.
#[derive(Debug, Clone, Copy)]
pub enum StyleTransformation {
    Blink,
    Bold,
    Italic,
    Underlined,
}

/// Colors that can be used for texts and/or their backgrounds.
///
/// `DefaultColor` is an explicit choice of the terminal's default color: it
/// applies no visible change, but is a valid, intentional selection.
#[derive(Debug, Clone, Copy)]
pub enum StyleColor {
    DefaultColor,
    Black,
    White,
    Red,
    Green,
    Blue,
    Cyan,
    Magenta,
    Yellow,
}

/// All properties that form a style: the input to registration.
#[derive(Debug, Clone)]
pub struct StyleProperties {
    /// The transformations to apply to texts.  The order of the entries does
    /// not affect the resolved style, and duplicates are idempotent.
    pub transformation: Vec<StyleTransformation>,

    /// The color to apply to the text.  `None` means the terminal default.
    pub color: Option<StyleColor>,

    /// The color to apply to the text background.  `None` means the terminal
    /// default.
    pub background: Option<StyleColor>,
}

/// A fully resolved style: one flag per transformation and the effective
/// color choices.  Resolved styles are produced by the registry when a
/// definition is registered and are never mutated afterwards.
#[derive(Debug, Clone, Copy)]
pub struct ResolvedStyle {
    pub(crate) blink: bool,
    pub(crate) bold: bool,
    pub(crate) italic: bool,
    pub(crate) underlined: bool,
    pub(crate) foreground: Option<StyleColor>,
    pub(crate) background: Option<StyleColor>,
}

/// Whether the transformation sequence of a definition mentions `t`.
pub open spec fn has_transformation(s: Seq<StyleTransformation>, t: StyleTransformation) -> bool {
    exists|i: int| 0 <= i < s.len() && s[i] == t
}

/// The color that an optional color choice actually applies: an explicit
/// `DefaultColor` applies no color change, exactly like an absent choice.
pub open spec fn effective_color(c: Option<StyleColor>) -> Option<StyleColor> {
    match c {
        Some(StyleColor::DefaultColor) => None,
        _ => c,
    }
}

/// The resolved style of a definition: each transformation flag is set iff
/// the definition mentions it, and each color is the effective choice.
/// Resolution depends only on which transformations occur, never on their
/// order or multiplicity.
pub closed spec fn resolve_spec(
    transformation: Seq<StyleTransformation>,
    color: Option<StyleColor>,
    background: Option<StyleColor>,
) -> ResolvedStyle {
    ResolvedStyle {
        blink: has_transformation(transformation, StyleTransformation::Blink),
        bold: has_transformation(transformation, StyleTransformation::Bold),
        italic: has_transformation(transformation, StyleTransformation::Italic),
        underlined: has_transformation(transformation, StyleTransformation::Underlined),
        foreground: effective_color(color),
        background: effective_color(background),
    }
}

/// The resolved style of a definition with no transformations and no colors:
/// the default style.
pub open spec fn default_resolved() -> ResolvedStyle {
    resolve_spec(Seq::empty(), None, None)
}

/// The default style has every transformation flag clear and no colors.
pub(crate) proof fn lemma_default_resolved_attributes()
    ensures
        default_resolved() == (ResolvedStyle {
            blink: false,
            bold: false,
            italic: false,
            underlined: false,
            foreground: None,
            background: None,
        }),
{
    assert(forall|t: StyleTransformation| !has_transformation(Seq::empty(), t));
}

/// Resolve a definition into its rendering attributes.
pub(crate) fn resolve(definition: &StyleProperties) -> (r: ResolvedStyle)
    ensures
        r == resolve_spec(definition.transformation@, definition.color, definition.background),
{
    let transformation = &definition.transformation;
    let ghost full = transformation@;
    let mut blink = false;
    let mut bold = false;
    let mut italic = false;
    let mut underlined = false;
    let mut i: usize = 0;
    while i < transformation.len()
        invariant
            i <= full.len(),
            full == transformation@,
            blink == has_transformation(full.take(i as int), StyleTransformation::Blink),
            bold == has_transformation(full.take(i as int), StyleTransformation::Bold),
            italic == has_transformation(full.take(i as int), StyleTransformation::Italic),
            underlined == has_transformation(full.take(i as int), StyleTransformation::Underlined),
        decreases full.len() - i,
    {
        match transformation[i] {
            StyleTransformation::Blink => blink = true,
            StyleTransformation::Bold => bold = true,
            StyleTransformation::Italic => italic = true,
            StyleTransformation::Underlined => underlined = true,
        }
        proof {
            lemma_has_transformation_step(full, i as int, StyleTransformation::Blink);
            lemma_has_transformation_step(full, i as int, StyleTransformation::Bold);
            lemma_has_transformation_step(full, i as int, StyleTransformation::Italic);
            lemma_has_transformation_step(full, i as int, StyleTransformation::Underlined);
        }
        i += 1;
    }
    proof {
        assert(full.take(full.len() as int) =~= full);
    }
    let foreground = effective(&definition.color);
    let background = effective(&definition.background);
    ResolvedStyle { blink, bold, italic, underlined, foreground, background }
}

/// Extending the inspected prefix of a transformation sequence by one entry
/// adds exactly that entry's transformation to the ones it mentions.
proof fn lemma_has_transformation_step(s: Seq<StyleTransformation>, i: int, t: StyleTransformation)
    requires
        0 <= i < s.len(),
    ensures
        has_transformation(s.take(i + 1), t) <==> (has_transformation(s.take(i), t) || s[i] == t),
{
    if has_transformation(s.take(i + 1), t) {
        let j = choose|j: int| 0 <= j < s.take(i + 1).len() && #[trigger] s.take(i + 1)[j] == t;
        if j < i {
            assert(s.take(i)[j] == t);
        }
    }
    if has_transformation(s.take(i), t) {
        let j = choose|j: int| 0 <= j < s.take(i).len() && #[trigger] s.take(i)[j] == t;
        assert(s.take(i + 1)[j] == t);
    }
    if s[i] == t {
        assert(s.take(i + 1)[i] == t);
    }
}

/// The executable counterpart of [`effective_color`].
fn effective(c: &Option<StyleColor>) -> (r: Option<StyleColor>)
    ensures
        r == effective_color(*c),
{
    match c {
        Some(StyleColor::DefaultColor) => None,
        Some(chosen) => Some(*chosen),
        None => None,
    }
}

/// Resolution is order-independent: two definitions that mention the same
/// transformations (in any order, with any multiplicity) and choose the same
/// colors resolve to the same style.
pub proof fn lemma_resolution_order_independent(
    t1: Seq<StyleTransformation>,
    t2: Seq<StyleTransformation>,
    color: Option<StyleColor>,
    background: Option<StyleColor>,
)
    requires
        forall|t: StyleTransformation| has_transformation(t1, t) <==> has_transformation(t2, t),
    ensures
        resolve_spec(t1, color, background) == resolve_spec(t2, color, background),
{
}

} // verus!
