//! Rendering of a message under a resolved style.
//!
//! A resolved style is encoded as a dot-separated attribute description (the
//! format that `console`'s `Style::from_dotted_str` accepts, for example
//! `.red.on_white.bold`), and the `console` crate turns that description and
//! a message into the final escape-coded text.  The encoding is canonical:
//! equal resolved styles always yield the same description, so equal resolved
//! styles always render identically.

use vstd::prelude::*;
use vstd::string::StringExecFns;

use crate::style::ResolvedStyle;
use crate::style::StyleColor;

verus! {

/// The escape-coded text that the terminal-styling backend produces for a
/// dot-separated attribute description, an italic flag, and a message.  The
/// result depends on those three values alone.  (The italic flag stands
/// beside the description because the description grammar has no token for
/// it; see [`dotted_of`].)
pub uninterp spec fn ansi_styled(desc: Seq<char>, italic: bool, message: Seq<char>) -> Seq<char>;

/// The escape-coded rendering of `message` under the resolved style `r`.
pub closed spec fn styled_spec(r: ResolvedStyle, message: Seq<char>) -> Seq<char> {
    ansi_styled(dotted_of(r), r.italic, message)
}

/// The name that the attribute description uses for a color.  The explicit
/// default color has no name: it applies no color change.
pub(crate) closed spec fn color_token(c: StyleColor) -> Seq<char> {
    match c {
        StyleColor::DefaultColor => Seq::empty(),
        StyleColor::Black => "black"@,
        StyleColor::White => "white"@,
        StyleColor::Red => "red"@,
        StyleColor::Green => "green"@,
        StyleColor::Blue => "blue"@,
        StyleColor::Cyan => "cyan"@,
        StyleColor::Magenta => "magenta"@,
        StyleColor::Yellow => "yellow"@,
    }
}

/// The foreground part of the description: `.<color>`, or nothing.
pub(crate) closed spec fn foreground_part(c: Option<StyleColor>) -> Seq<char> {
    match c {
        Some(chosen) => "."@ + color_token(chosen),
        None => Seq::empty(),
    }
}

/// The background part of the description: `.on_<color>`, or nothing.
pub(crate) closed spec fn background_part(c: Option<StyleColor>) -> Seq<char> {
    match c {
        Some(chosen) => ".on_"@ + color_token(chosen),
        None => Seq::empty(),
    }
}

/// The part of the description that an enabled transformation contributes:
/// its dotted token, or nothing.
pub(crate) closed spec fn flag_part(enabled: bool, dotted_token: Seq<char>) -> Seq<char> {
    if enabled {
        dotted_token
    } else {
        Seq::empty()
    }
}

/// The canonical dot-separated description of a resolved style: foreground,
/// background, then the enabled transformations in a fixed order.  The
/// default style's description is empty.  The italic transformation is not
/// part of the description — the description grammar has no token for it —
/// and is carried as a separate flag instead.
pub closed spec fn dotted_of(r: ResolvedStyle) -> Seq<char> {
    foreground_part(r.foreground) + background_part(r.background) + flag_part(r.blink, ".blink"@)
        + flag_part(r.bold, ".bold"@) + flag_part(r.underlined, ".underlined"@)
}

/// The name that the attribute description uses for a color.
fn color_name(c: &StyleColor) -> (res: &'static str)
    ensures
        res@ == color_token(*c),
{
    proof {
        reveal_strlit("");
        assert(""@ =~= Seq::<char>::empty());
    }
    match c {
        StyleColor::DefaultColor => "",
        StyleColor::Black => "black",
        StyleColor::White => "white",
        StyleColor::Red => "red",
        StyleColor::Green => "green",
        StyleColor::Blue => "blue",
        StyleColor::Cyan => "cyan",
        StyleColor::Magenta => "magenta",
        StyleColor::Yellow => "yellow",
    }
}

/// Build the canonical dot-separated description of a resolved style.
pub(crate) fn dotted_string(r: &ResolvedStyle) -> (res: String)
    ensures
        res@ == dotted_of(*r),
{
    let mut s = String::new();
    match &r.foreground {
        Some(chosen) => {
            s.append(".");
            s.append(color_name(chosen));
        },
        None => {},
    }
    proof {
        assert(s@ =~= foreground_part(r.foreground));
    }
    let ghost fg_done = s@;
    match &r.background {
        Some(chosen) => {
            s.append(".on_");
            s.append(color_name(chosen));
        },
        None => {},
    }
    proof {
        assert(s@ =~= fg_done + background_part(r.background));
    }
    let ghost bg_done = s@;
    if r.blink {
        s.append(".blink");
    }
    proof {
        assert(s@ =~= bg_done + flag_part(r.blink, ".blink"@));
    }
    let ghost blink_done = s@;
    if r.bold {
        s.append(".bold");
    }
    proof {
        assert(s@ =~= blink_done + flag_part(r.bold, ".bold"@));
    }
    let ghost bold_done = s@;
    if r.underlined {
        s.append(".underlined");
    }
    proof {
        assert(s@ =~= bold_done + flag_part(r.underlined, ".underlined"@));
        assert(s@ =~= dotted_of(*r));
    }
    s
}

/// Render a message under a resolved style.  The default style decorates
/// nothing: it hands the message back unchanged.
pub(crate) fn styled(r: &ResolvedStyle, message: &str) -> (res: String)
    ensures
        res@ == styled_spec(*r, message@),
        *r == crate::style::default_resolved() ==> res@ == message@,
{
    let desc = dotted_string(r);
    proof {
        if *r == crate::style::default_resolved() {
            crate::style::lemma_default_resolved_attributes();
            assert(dotted_of(*r) =~= Seq::<char>::empty());
        }
    }
    if r.italic {
        apply_dotted_italic(desc.as_str(), message)
    } else {
        apply_dotted(desc.as_str(), message)
    }
}

/// Relies on the `console` crate: `Style::from_dotted_str` builds a style
/// from a dot-separated attribute description (unknown and empty parts are
/// ignored), `force_styling(true)` pins the decision to emit escape codes so
/// that no terminal detection is consulted, and `apply_to` decorates the
/// message, writing the codes of the description's attributes around it.
/// The result therefore depends on the description and the message alone,
/// and a description that names no attribute leaves the message unchanged.
#[verifier::external_body]
fn apply_dotted(desc: &str, message: &str) -> (res: String)
    ensures
        res@ == ansi_styled(desc@, false, message@),
        desc@.len() == 0 ==> res@ == message@,
{
    format!("{}", console::Style::from_dotted_str(desc).force_styling(true).apply_to(message))
}

/// Relies on the `console` crate exactly as [`apply_dotted`] does, with
/// `Style::italic` setting the one attribute that the dot-separated
/// description grammar has no token for.  The result again depends on the
/// description and the message alone.
#[verifier::external_body]
fn apply_dotted_italic(desc: &str, message: &str) -> (res: String)
    ensures
        res@ == ansi_styled(desc@, true, message@),
{
    format!(
        "{}",
        console::Style::from_dotted_str(desc).italic().force_styling(true).apply_to(message),
    )
}

} // verus!
