//! The stylesheet registry: a mapping from style names to resolved styles,
//! with incremental registration, one-way freezing, and fallback-safe
//! rendering.

use vstd::prelude::*;
use vstd::string::StringExecFns;

use crate::render;
use crate::render::styled_spec;
use crate::style;
use crate::style::ResolvedStyle;
use crate::style::StyleColor;
use crate::style::StyleProperties;
use crate::style::StyleTransformation;
use crate::style::resolve_spec;

verus! {

/// The reserved name of the always-present default style.  It is used
/// implicitly whenever a style name that was never registered is rendered,
/// and it can also be used explicitly.
pub open spec fn default_key() -> Seq<char> {
    "_default"@
}

/// The reserved name of the always-present default style.
pub fn default_style_name() -> (res: &'static str)
    ensures
        res@ == default_key(),
{
    "_default"
}

/// The misuse failures of the registry: they signal a defect in the calling
/// code's sequencing, not a recoverable runtime condition.
#[derive(Debug, Clone, Copy, PartialEq, Eq, Structural)]
pub enum StylesheetMisuse {
    /// A style was added to a frozen stylesheet.
    MutateAfterFreeze,
}

/// The abstract state of a stylesheet: the name-to-style mapping and the
/// frozen flag.
pub ghost struct StylesheetView {
    /// The registered styles, keyed by name.
    pub styles: Map<Seq<char>, ResolvedStyle>,
    /// Whether the configuration is sealed.
    pub frozen: bool,
}

/// A library of named styles that can be applied to texts.  A stylesheet
/// style plays in code the role that a named CSS style plays in an HTML
/// document: it is registered once under a name and then applied to any
/// number of messages.
///
/// A stylesheet always contains the default style under the reserved name
/// `"_default"`; rendering an unknown name falls back to it.  After
/// [`Stylesheet::freeze`], adding styles is a misuse.
pub struct Stylesheet {
    entries: Vec<(String, ResolvedStyle)>,
    is_frozen: bool,
}

/// The mapping that a sequence of name/style entries holds, later entries
/// overriding earlier ones.
pub closed spec fn entries_map(s: Seq<(String, ResolvedStyle)>) -> Map<Seq<char>, ResolvedStyle>
    decreases s.len(),
{
    if s.len() == 0 {
        Map::empty()
    } else {
        entries_map(s.drop_last()).insert(s.last().0@, s.last().1)
    }
}

/// Whether a sequence of entries holds a given name.
pub(crate) open spec fn has_key(s: Seq<(String, ResolvedStyle)>, k: Seq<char>) -> bool {
    exists|i: int| 0 <= i < s.len() && s[i].0@ == k
}

/// Whether the names of a sequence of entries are pairwise distinct.
pub(crate) open spec fn distinct_keys(s: Seq<(String, ResolvedStyle)>) -> bool {
    forall|i: int, j: int| 0 <= i < j < s.len() ==> s[i].0@ != s[j].0@
}

impl View for Stylesheet {
    type V = StylesheetView;

    closed spec fn view(&self) -> StylesheetView {
        StylesheetView { styles: entries_map(self.entries@), frozen: self.is_frozen }
    }
}

/// A name is in the mapping of a sequence of entries exactly when some entry
/// holds it, and the mapping's domain is finite.
proof fn lemma_entries_map_dom(s: Seq<(String, ResolvedStyle)>)
    ensures
        forall|k: Seq<char>| #[trigger] entries_map(s).dom().contains(k) <==> has_key(s, k),
        entries_map(s).dom().finite(),
    decreases s.len(),
{
    if s.len() > 0 {
        lemma_entries_map_dom(s.drop_last());
        assert forall|k: Seq<char>| #[trigger] entries_map(s).dom().contains(k) <==> has_key(s, k) by {
            if entries_map(s).dom().contains(k) {
                if k == s.last().0@ {
                    assert(s[s.len() - 1].0@ == k);
                } else {
                    let i = choose|i: int| 0 <= i < s.drop_last().len() && #[trigger] s.drop_last()[i].0@ == k;
                    assert(s[i].0@ == k);
                }
            }
            if has_key(s, k) {
                let i = choose|i: int| 0 <= i < s.len() && #[trigger] s[i].0@ == k;
                if i < s.len() - 1 {
                    assert(s.drop_last()[i].0@ == k);
                }
            }
        }
    }
}

/// With pairwise distinct names, the mapping of a sequence of entries has
/// exactly one domain element per entry.
proof fn lemma_entries_map_len(s: Seq<(String, ResolvedStyle)>)
    requires
        distinct_keys(s),
    ensures
        entries_map(s).dom().finite(),
        entries_map(s).dom().len() == s.len(),
    decreases s.len(),
{
    lemma_entries_map_dom(s);
    if s.len() > 0 {
        let rest = s.drop_last();
        assert(distinct_keys(rest)) by {
            assert(forall|i: int, j: int|
                0 <= i < j < rest.len() ==> rest[i].0@ == s[i].0@ && rest[j].0@ == s[j].0@);
        }
        lemma_entries_map_len(rest);
        lemma_entries_map_dom(rest);
        assert(!entries_map(rest).dom().contains(s.last().0@)) by {
            assert(forall|i: int| 0 <= i < rest.len() ==> rest[i].0@ == s[i].0@ && s[i].0@ != s[s.len() - 1].0@);
        }
        assert(entries_map(s).dom() =~= entries_map(rest).dom().insert(s.last().0@));
        vstd::set::axiom_set_insert_len(entries_map(rest).dom(), s.last().0@);
    }
}

/// With pairwise distinct names, the entry that holds a name determines the
/// mapping's value at that name.
proof fn lemma_entries_map_at(s: Seq<(String, ResolvedStyle)>, i: int)
    requires
        distinct_keys(s),
        0 <= i < s.len(),
    ensures
        entries_map(s).dom().contains(s[i].0@),
        entries_map(s)[s[i].0@] == s[i].1,
    decreases s.len(),
{
    lemma_entries_map_dom(s);
    if i == s.len() - 1 {
        assert(entries_map(s) == entries_map(s.drop_last()).insert(s.last().0@, s.last().1));
    } else {
        let rest = s.drop_last();
        assert(distinct_keys(rest)) by {
            assert(forall|p: int, q: int|
                0 <= p < q < rest.len() ==> rest[p].0@ == s[p].0@ && rest[q].0@ == s[q].0@);
        }
        assert(rest[i] == s[i]);
        lemma_entries_map_at(rest, i);
        assert(s[i].0@ != s.last().0@);
    }
}

/// Replacing the entry that holds a name updates the mapping at that name
/// and keeps the names pairwise distinct.
proof fn lemma_entries_map_update(s: Seq<(String, ResolvedStyle)>, i: int, entry: (String, ResolvedStyle))
    requires
        distinct_keys(s),
        0 <= i < s.len(),
        entry.0@ == s[i].0@,
    ensures
        entries_map(s.update(i, entry)) == entries_map(s).insert(entry.0@, entry.1),
        distinct_keys(s.update(i, entry)),
    decreases s.len(),
{
    let t = s.update(i, entry);
    if i == s.len() - 1 {
        assert(t.drop_last() =~= s.drop_last());
        assert(entries_map(t) =~= entries_map(s).insert(entry.0@, entry.1));
    } else {
        let rest = s.drop_last();
        assert(distinct_keys(rest)) by {
            assert(forall|p: int, q: int|
                0 <= p < q < rest.len() ==> rest[p].0@ == s[p].0@ && rest[q].0@ == s[q].0@);
        }
        assert(rest[i] == s[i]);
        lemma_entries_map_update(rest, i, entry);
        assert(t.drop_last() =~= rest.update(i, entry));
        assert(s.last().0@ != entry.0@);
        assert(entries_map(t) =~= entries_map(s).insert(entry.0@, entry.1));
    }
    assert forall|p: int, q: int| 0 <= p < q < t.len() implies t[p].0@ != t[q].0@ by {
        assert(t[p].0@ == s[p].0@ && t[q].0@ == s[q].0@);
    }
}

/// Appending an entry with a fresh name inserts it into the mapping and
/// keeps the names pairwise distinct.
proof fn lemma_entries_map_push(s: Seq<(String, ResolvedStyle)>, entry: (String, ResolvedStyle))
    requires
        distinct_keys(s),
        !has_key(s, entry.0@),
    ensures
        entries_map(s.push(entry)) == entries_map(s).insert(entry.0@, entry.1),
        distinct_keys(s.push(entry)),
{
    let t = s.push(entry);
    assert(t.drop_last() =~= s);
    assert(entries_map(t) =~= entries_map(s).insert(entry.0@, entry.1));
    assert forall|p: int, q: int| 0 <= p < q < t.len() implies t[p].0@ != t[q].0@ by {
        if q == s.len() {
            assert(t[p].0@ == s[p].0@);
            assert(s[p].0@ != entry.0@);
        } else {
            assert(t[p].0@ == s[p].0@ && t[q].0@ == s[q].0@);
        }
    }
}

/// The style that a stylesheet state resolves a name to: the style
/// registered under it, or the default style where the name is unknown.
pub open spec fn resolved_for(v: StylesheetView, name: Seq<char>) -> ResolvedStyle {
    if v.styles.dom().contains(name) {
        v.styles[name]
    } else {
        v.styles[default_key()]
    }
}

/// The escape-coded text that rendering a message under a name produces in a
/// stylesheet state.
pub open spec fn rendered(v: StylesheetView, name: Seq<char>, message: Seq<char>) -> Seq<char> {
    styled_spec(resolved_for(v, name), message)
}

impl Stylesheet {
    /// The stylesheet's structural invariant: entry names are pairwise
    /// distinct, and a style is registered under the reserved default name.
    pub closed spec fn wf(&self) -> bool {
        &&& distinct_keys(self.entries@)
        &&& self@.styles.dom().contains(default_key())
    }

    /// Return a new stylesheet.  It only contains the default style, which
    /// can be used explicitly and is used implicitly when a non-existing
    /// style is requested.
    pub fn new() -> (sheet: Stylesheet)
        ensures
            sheet.wf(),
            !sheet@.frozen,
            sheet@.styles == Map::<Seq<char>, ResolvedStyle>::empty().insert(
                default_key(),
                style::default_resolved(),
            ),
            sheet@.styles.dom().len() == 1,
    {
        let default_definition = StyleProperties {
            transformation: Vec::new(),
            color: None,
            background: None,
        };
        let resolved = style::resolve(&default_definition);
        let mut entries: Vec<(String, ResolvedStyle)> = Vec::new();
        entries.push((default_style_name().to_owned(), resolved));
        let sheet = Stylesheet { entries, is_frozen: false };
        proof {
            let s = sheet.entries@;
            assert(s[0].0@ == default_key());
            lemma_entries_map_dom(s);
            lemma_entries_map_at(s, 0);
            lemma_entries_map_len(s);
            assert forall|k: Seq<char>| #[trigger] entries_map(s).dom().contains(k) implies k
                == default_key() by {
                let i = choose|i: int| 0 <= i < s.len() && #[trigger] s[i].0@ == k;
            }
            assert(sheet@.styles =~= Map::<Seq<char>, ResolvedStyle>::empty().insert(
                default_key(),
                style::default_resolved(),
            ));
        }
        sheet
    }

    /// The number of registered styles, the default style included.
    pub fn len(&self) -> (n: usize)
        requires
            self.wf(),
        ensures
            n == self@.styles.dom().len(),
    {
        proof {
            lemma_entries_map_len(self.entries@);
        }
        self.entries.len()
    }

    /// Whether a style is registered under the given name.
    pub fn contains(&self, style_name: &str) -> (res: bool)
        ensures
            res == self@.styles.dom().contains(style_name@),
    {
        proof {
            lemma_entries_map_dom(self.entries@);
        }
        self.find(style_name).is_some()
    }

    /// Look for the entry registered under the given name.
    fn find(&self, style_name: &str) -> (res: Option<usize>)
        ensures
            match res {
                Some(i) => i < self.entries@.len() && self.entries@[i as int].0@ == style_name@,
                None => !has_key(self.entries@, style_name@),
            },
    {
        let n = self.entries.len();
        let mut i: usize = 0;
        while i < n
            invariant
                i <= n,
                n == self.entries@.len(),
                forall|j: int| 0 <= j < i ==> self.entries@[j].0@ != style_name@,
            decreases n - i,
        {
            if str_eq(self.entries[i].0.as_str(), style_name) {
                return Some(i);
            }
            i += 1;
        }
        None
    }

    /// Add a style to the stylesheet, resolving the definition into its
    /// rendering attributes.  Re-adding a name that is already registered
    /// replaces its style.  The stylesheet must not be frozen: adding a
    /// style to a frozen stylesheet is a misuse (see
    /// [`Stylesheet::try_add_style`]).
    pub fn add_style(&mut self, style_name: &str, style_definition: StyleProperties)
        requires
            old(self).wf(),
            !old(self)@.frozen,
        ensures
            final(self).wf(),
            final(self)@.frozen == old(self)@.frozen,
            final(self)@.styles == old(self)@.styles.insert(
                style_name@,
                resolve_spec(
                    style_definition.transformation@,
                    style_definition.color,
                    style_definition.background,
                ),
            ),
    {
        let resolved = style::resolve(&style_definition);
        match self.find(style_name) {
            Some(i) => {
                self.entries[i] = (style_name.to_owned(), resolved);
                proof {
                    lemma_entries_map_update(
                        old(self).entries@,
                        i as int,
                        self.entries@[i as int],
                    );
                }
            },
            None => {
                self.entries.push((style_name.to_owned(), resolved));
                proof {
                    lemma_entries_map_push(old(self).entries@, self.entries@.last());
                }
            },
        }
    }

    /// Add a style unless the stylesheet is frozen.  Adding a style to a
    /// frozen stylesheet is a fatal misuse — a defect in the calling code's
    /// sequencing — and is reported as the misuse value without touching the
    /// registered styles.
    pub fn try_add_style(&mut self, style_name: &str, style_definition: StyleProperties) -> (res:
        Result<(), StylesheetMisuse>)
        requires
            old(self).wf(),
        ensures
            final(self).wf(),
            old(self)@.frozen ==> res == Result::<(), StylesheetMisuse>::Err(
                StylesheetMisuse::MutateAfterFreeze,
            ) && final(self)@ == old(self)@,
            !old(self)@.frozen ==> res == Result::<(), StylesheetMisuse>::Ok(())
                && final(self)@.frozen == old(self)@.frozen && final(self)@.styles == old(self)@.styles.insert(
                style_name@,
                resolve_spec(
                    style_definition.transformation@,
                    style_definition.color,
                    style_definition.background,
                ),
            ),
    {
        if self.is_frozen {
            Err(StylesheetMisuse::MutateAfterFreeze)
        } else {
            self.add_style(style_name, style_definition);
            Ok(())
        }
    }

    /// Freeze the stylesheet: no style can be added afterwards.  Freezing is
    /// idempotent — freezing an already frozen stylesheet is a no-op, not an
    /// error — and the registered styles are untouched.
    pub fn freeze(&mut self)
        ensures
            final(self)@ == frozen_view(old(self)@),
            final(self).wf() == old(self).wf(),
    {
        self.is_frozen = true;
    }

    /// Render a message under the named style, without a trailing line
    /// terminator.  Rendering never fails: a name that is not registered
    /// falls back to the default style, and a message rendered under the
    /// default (attribute-free) style comes back unchanged.
    pub fn render(&self, style_name: &str, message: &str) -> (res: String)
        requires
            self.wf(),
        ensures
            res@ == rendered(self@, style_name@, message@),
            resolved_for(self@, style_name@) == style::default_resolved() ==> res@ == message@,
    {
        proof {
            lemma_entries_map_dom(self.entries@);
        }
        let entry_index: usize = match self.find(style_name) {
            Some(i) => i,
            None => match self.find(default_style_name()) {
                Some(i) => i,
                None => vstd::pervasive::unreached(),
            },
        };
        proof {
            lemma_entries_map_at(self.entries@, entry_index as int);
        }
        render::styled(&self.entries[entry_index].1, message)
    }

    /// Render a message under the named style, with a trailing line
    /// terminator appended after the styled content.  The style resolution
    /// is exactly that of [`Stylesheet::render`].
    pub fn render_line(&self, style_name: &str, message: &str) -> (res: String)
        requires
            self.wf(),
        ensures
            res@ == rendered(self@, style_name@, message@) + "\n"@,
    {
        let mut res = self.render(style_name, message);
        res.append("\n");
        res
    }
}

/// Whether two string slices hold the same characters.
fn str_eq(a: &str, b: &str) -> (res: bool)
    ensures
        res == (a@ == b@),
{
    let owned_a: String = a.to_owned();
    let owned_b: String = b.to_owned();
    owned_a == owned_b
}

/// The state that freezing moves a stylesheet state to: the same styles,
/// sealed.
pub open spec fn frozen_view(v: StylesheetView) -> StylesheetView {
    StylesheetView { frozen: true, ..v }
}

/// Registering a definition and then rendering under its name styles the
/// message with exactly the attributes resolved from that definition,
/// whatever the stylesheet held before.
pub proof fn lemma_added_style_governs_render(
    v: StylesheetView,
    name: Seq<char>,
    transformation: Seq<StyleTransformation>,
    color: Option<StyleColor>,
    background: Option<StyleColor>,
    message: Seq<char>,
)
    ensures
        rendered(
            StylesheetView {
                styles: v.styles.insert(name, resolve_spec(transformation, color, background)),
                ..v
            },
            name,
            message,
        ) == styled_spec(resolve_spec(transformation, color, background), message),
{
}

/// A name that is not registered renders exactly as the reserved default
/// name does, for any message.
pub proof fn lemma_unknown_name_falls_back(v: StylesheetView, name: Seq<char>, message: Seq<char>)
    requires
        !v.styles.dom().contains(name),
        v.styles.dom().contains(default_key()),
    ensures
        rendered(v, name, message) == rendered(v, default_key(), message),
{
}

/// Freezing is idempotent: a second freeze leaves the state exactly where
/// the first left it.  Freezing never changes what any name renders to.
pub proof fn lemma_freeze_idempotent(v: StylesheetView)
    ensures
        frozen_view(frozen_view(v)) == frozen_view(v),
        forall|name: Seq<char>, message: Seq<char>|
            rendered(frozen_view(v), name, message) == rendered(v, name, message),
{
}

/// Re-adding a name replaces the prior style: registering two styles under
/// one name leaves the mapping exactly as registering the second alone.
pub proof fn lemma_readd_replaces(
    styles: Map<Seq<char>, ResolvedStyle>,
    name: Seq<char>,
    first: ResolvedStyle,
    second: ResolvedStyle,
)
    ensures
        styles.insert(name, first).insert(name, second) == styles.insert(name, second),
{
    assert(styles.insert(name, first).insert(name, second) =~= styles.insert(name, second));
}

} // verus!
