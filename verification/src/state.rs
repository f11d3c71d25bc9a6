//! Per-document state: an arena of document contexts keyed by opaque
//! handles, the spaces' presentation configuration, and the injected prelude
//! built from it.
//!
//! Each open document holds the identities of its user-source and
//! synthesized-source slots in the external compiler's file table, its
//! current inflection mapper, and its rendering parameters. All mutation
//! goes through the owning store.

use vstd::prelude::*;
use vstd::string::{StrSliceExecFns, StringExecFns};

use crate::index_mapper::{IndexMapper, translate_aux_to_main, translate_main_to_aux};

verus! {

/// The decimal digit character of `d`.
pub open spec fn digit_char(d: int) -> char {
    if d == 0 {
        '0'
    } else if d == 1 {
        '1'
    } else if d == 2 {
        '2'
    } else if d == 3 {
        '3'
    } else if d == 4 {
        '4'
    } else if d == 5 {
        '5'
    } else if d == 6 {
        '6'
    } else if d == 7 {
        '7'
    } else if d == 8 {
        '8'
    } else {
        '9'
    }
}

/// The decimal digits of a nonnegative number, most significant first, with
/// no padding.
pub open spec fn dec_chars(v: int) -> Seq<char>
    decreases v,
    when v >= 0
{
    if v < 10 {
        seq![digit_char(v)]
    } else {
        dec_chars(v / 10) + seq![digit_char(v % 10)]
    }
}

/// Relies on `usize`'s `Display` implementation: the decimal digits of the
/// value, most significant first, without padding or sign.
#[verifier::external_body]
pub(crate) fn usize_to_string(v: usize) -> (r: String)
    ensures
        r@ == dec_chars(v as int),
{
    v.to_string()
}

/// A color, as red, green and blue channels.
#[derive(Clone, Copy, Debug, PartialEq, Eq, Structural)]
pub struct Rgb(pub u8, pub u8, pub u8);

/// The markup text of a color: `rgb(<r>,<g>,<b>)`.
pub open spec fn rgb_chars(c: Rgb) -> Seq<char> {
    "rgb("@ + dec_chars(c.0 as int) + ","@ + dec_chars(c.1 as int) + ","@ + dec_chars(c.2 as int)
        + ")"@
}

impl Rgb {
    pub fn new(r: u8, g: u8, b: u8) -> (c: Rgb)
        ensures
            c == Rgb(r, g, b),
    {
        Rgb(r, g, b)
    }

    /// The color as markup text.
    pub fn to_string(&self) -> (r: String)
        ensures
            r@ == rgb_chars(*self),
    {
        let mut s = String::from_str("rgb(");
        s.append(usize_to_string(self.0 as usize).as_str());
        s.append(",");
        s.append(usize_to_string(self.1 as usize).as_str());
        s.append(",");
        s.append(usize_to_string(self.2 as usize).as_str());
        s.append(")");
        s
    }
}

/// The color roles a theme assigns.
#[derive(Clone, Copy, Debug, PartialEq, Eq, Structural)]
pub struct ThemeColors {
    pub background: Rgb,
    pub on_background: Rgb,
    pub outline: Rgb,
    pub outline_variant: Rgb,
    pub primary: Rgb,
    pub on_primary: Rgb,
    pub primary_container: Rgb,
    pub on_primary_container: Rgb,
    pub secondary: Rgb,
    pub on_secondary: Rgb,
    pub secondary_container: Rgb,
    pub on_secondary_container: Rgb,
    pub tertiary: Rgb,
    pub on_tertiary: Rgb,
    pub tertiary_container: Rgb,
    pub on_tertiary_container: Rgb,
    pub error: Rgb,
    pub on_error: Rgb,
    pub error_container: Rgb,
    pub on_error_container: Rgb,
}

/// The markup text of a theme: a dictionary binding each color role.
pub open spec fn theme_chars(t: ThemeColors) -> Seq<char> {
    "(background:"@ + rgb_chars(t.background) + ",on-background:"@ + rgb_chars(t.on_background)
        + ",outline:"@ + rgb_chars(t.outline) + ",outline-variant:"@ + rgb_chars(t.outline_variant)
        + ",primary:"@ + rgb_chars(t.primary) + ",on-primary:"@ + rgb_chars(t.on_primary)
        + ",primary-container:"@ + rgb_chars(t.primary_container) + ",on-primary-container:"@
        + rgb_chars(t.on_primary_container) + ",secondary:"@ + rgb_chars(t.secondary)
        + ",on-secondary:"@ + rgb_chars(t.on_secondary) + ",secondary-container:"@ + rgb_chars(
        t.secondary_container,
    ) + ",on-secondary-container:"@ + rgb_chars(t.on_secondary_container) + ",tertiary:"@
        + rgb_chars(t.tertiary) + ",on-tertiary:"@ + rgb_chars(t.on_tertiary)
        + ",tertiary-container:"@ + rgb_chars(t.tertiary_container) + ",on-tertiary-container:"@
        + rgb_chars(t.on_tertiary_container) + ",error:"@ + rgb_chars(t.error) + ",on-error:"@
        + rgb_chars(t.on_error) + ",error-container:"@ + rgb_chars(t.error_container)
        + ",on-error-container:"@ + rgb_chars(t.on_error_container) + ")"@
}

impl ThemeColors {
    /// A theme from its twenty color roles, in declaration order.
    pub fn new(
        background: Rgb,
        on_background: Rgb,
        outline: Rgb,
        outline_variant: Rgb,
        primary: Rgb,
        on_primary: Rgb,
        primary_container: Rgb,
        on_primary_container: Rgb,
        secondary: Rgb,
        on_secondary: Rgb,
        secondary_container: Rgb,
        on_secondary_container: Rgb,
        tertiary: Rgb,
        on_tertiary: Rgb,
        tertiary_container: Rgb,
        on_tertiary_container: Rgb,
        error: Rgb,
        on_error: Rgb,
        error_container: Rgb,
        on_error_container: Rgb,
    ) -> (t: ThemeColors)
        ensures
            t == (ThemeColors {
                background,
                on_background,
                outline,
                outline_variant,
                primary,
                on_primary,
                primary_container,
                on_primary_container,
                secondary,
                on_secondary,
                secondary_container,
                on_secondary_container,
                tertiary,
                on_tertiary,
                tertiary_container,
                on_tertiary_container,
                error,
                on_error,
                error_container,
                on_error_container,
            }),
    {
        ThemeColors {
            background,
            on_background,
            outline,
            outline_variant,
            primary,
            on_primary,
            primary_container,
            on_primary_container,
            secondary,
            on_secondary,
            secondary_container,
            on_secondary_container,
            tertiary,
            on_tertiary,
            tertiary_container,
            on_tertiary_container,
            error,
            on_error,
            error_container,
            on_error_container,
        }
    }

    /// The theme as markup text.
    pub fn to_string(&self) -> (r: String)
        ensures
            r@ == theme_chars(*self),
    {
        let mut s = String::from_str("(background:");
        s.append(self.background.to_string().as_str());
        s.append(",on-background:");
        s.append(self.on_background.to_string().as_str());
        s.append(",outline:");
        s.append(self.outline.to_string().as_str());
        s.append(",outline-variant:");
        s.append(self.outline_variant.to_string().as_str());
        s.append(",primary:");
        s.append(self.primary.to_string().as_str());
        s.append(",on-primary:");
        s.append(self.on_primary.to_string().as_str());
        s.append(",primary-container:");
        s.append(self.primary_container.to_string().as_str());
        s.append(",on-primary-container:");
        s.append(self.on_primary_container.to_string().as_str());
        s.append(",secondary:");
        s.append(self.secondary.to_string().as_str());
        s.append(",on-secondary:");
        s.append(self.on_secondary.to_string().as_str());
        s.append(",secondary-container:");
        s.append(self.secondary_container.to_string().as_str());
        s.append(",on-secondary-container:");
        s.append(self.on_secondary_container.to_string().as_str());
        s.append(",tertiary:");
        s.append(self.tertiary.to_string().as_str());
        s.append(",on-tertiary:");
        s.append(self.on_tertiary.to_string().as_str());
        s.append(",tertiary-container:");
        s.append(self.tertiary_container.to_string().as_str());
        s.append(",on-tertiary-container:");
        s.append(self.on_tertiary_container.to_string().as_str());
        s.append(",error:");
        s.append(self.error.to_string().as_str());
        s.append(",on-error:");
        s.append(self.on_error.to_string().as_str());
        s.append(",error-container:");
        s.append(self.error_container.to_string().as_str());
        s.append(",on-error-container:");
        s.append(self.on_error_container.to_string().as_str());
        s.append(")");
        s
    }
}

/// The stock theme: black on white, with black accents.
pub open spec fn spec_default_theme() -> ThemeColors {
    ThemeColors {
        background: Rgb(255, 255, 255),
        on_background: Rgb(0, 0, 0),
        outline: Rgb(0, 0, 0),
        outline_variant: Rgb(0, 0, 0),
        primary: Rgb(0, 0, 0),
        on_primary: Rgb(255, 255, 255),
        primary_container: Rgb(0, 0, 0),
        on_primary_container: Rgb(255, 255, 255),
        secondary: Rgb(0, 0, 0),
        on_secondary: Rgb(255, 255, 255),
        secondary_container: Rgb(0, 0, 0),
        on_secondary_container: Rgb(255, 255, 255),
        tertiary: Rgb(0, 0, 0),
        on_tertiary: Rgb(255, 255, 255),
        tertiary_container: Rgb(0, 0, 0),
        on_tertiary_container: Rgb(255, 255, 255),
        error: Rgb(0, 0, 0),
        on_error: Rgb(255, 255, 255),
        error_container: Rgb(0, 0, 0),
        on_error_container: Rgb(255, 255, 255),
    }
}

impl Default for ThemeColors {
    /// Black on white, with black accents.
    fn default() -> (t: ThemeColors)
        ensures
            t == spec_default_theme(),
    {
        ThemeColors {
            background: Rgb(255, 255, 255),
            on_background: Rgb(0, 0, 0),
            outline: Rgb(0, 0, 0),
            outline_variant: Rgb(0, 0, 0),
            primary: Rgb(0, 0, 0),
            on_primary: Rgb(255, 255, 255),
            primary_container: Rgb(0, 0, 0),
            on_primary_container: Rgb(255, 255, 255),
            secondary: Rgb(0, 0, 0),
            on_secondary: Rgb(255, 255, 255),
            secondary_container: Rgb(0, 0, 0),
            on_secondary_container: Rgb(255, 255, 255),
            tertiary: Rgb(0, 0, 0),
            on_tertiary: Rgb(255, 255, 255),
            tertiary_container: Rgb(0, 0, 0),
            on_tertiary_container: Rgb(255, 255, 255),
            error: Rgb(0, 0, 0),
            on_error: Rgb(255, 255, 255),
            error_container: Rgb(0, 0, 0),
            on_error_container: Rgb(255, 255, 255),
        }
    }
}

/// One space's presentation configuration: theme bindings and typographic
/// defaults shared by the documents in the space.
pub struct SpaceContext {
    pub theme: ThemeColors,
    pub locale: String,
    pub font: String,
    pub math_font: Option<String>,
}

/// The markup text of the injected prelude for one space: the theme binding,
/// the text defaults, the heading, link and stroke styles, and the math font
/// setup.
pub open spec fn prelude_chars(
    theme: ThemeColors,
    locale: Seq<char>,
    font: Seq<char>,
    math_font: Seq<char>,
) -> Seq<char> {
    "#let theme="@ + theme_chars(theme)
        + "\n#set text(fill:theme.on-background,size:16pt,lang:\""@ + locale + "\",font:\""@ + font
        + "\")\n#show heading.where(level:1):set text(fill:theme.primary,size:32pt,weight:400)\n#show heading.where(level:2):set text(fill:theme.secondary,size:28pt,weight:400)\n#show heading.where(level:3):set text(fill:theme.tertiary,size:24pt,weight:400)\n#show heading.where(level:4):set text(fill:theme.primary,size:22pt,weight:400)\n#show heading.where(level:5):set text(fill:theme.secondary,size:16pt,weight:500)\n#show heading.where(level:6):set text(fill:theme.tertiary,size:14pt,weight:500)\n#show link:set text(fill:theme.primary)\n#show link:underline\n#set line(stroke:theme.outline)\n#set table(stroke:theme.outline)\n#set circle(stroke:theme.outline)\n#set ellipse(stroke:theme.outline)\n#set curve(stroke:theme.outline)\n#set polygon(stroke:theme.outline)\n#set rect(stroke:theme.outline)\n#set square(stroke:theme.outline)\n#show math.equation:set text(font:\""@
        + math_font
        + "\")\n#show math.equation.where(block:true):set text(size:18pt)\n#show math.equation.where(block:true):set par(leading:9pt)\n#context {show math.equation:set text(size:text.size*2)}"@
}

impl SpaceContext {
    /// A fresh space: default theme, English locale and stock fonts.
    pub fn new() -> (r: SpaceContext)
        ensures
            r.theme == spec_default_theme(),
            r.locale@ == "en"@,
            r.font@ == "Maple Mono"@,
            r.math_font matches Some(f) && f@ == "New Computer Modern Math"@,
    {
        SpaceContext {
            theme: ThemeColors::default(),
            locale: String::from_str("en"),
            font: String::from_str("Maple Mono"),
            math_font: Some(String::from_str("New Computer Modern Math")),
        }
    }

    /// The injected prelude for this space; the math font falls back to the
    /// text font when none is set.
    pub fn prelude(&self) -> (r: String)
        ensures
            r@ == prelude_chars(
                self.theme,
                self.locale@,
                self.font@,
                match self.math_font {
                    Some(f) => f@,
                    None => self.font@,
                },
            ),
    {
        let mut s = String::from_str("#let theme=");
        s.append(self.theme.to_string().as_str());
        s.append("\n#set text(fill:theme.on-background,size:16pt,lang:\"");
        s.append(self.locale.as_str());
        s.append("\",font:\"");
        s.append(self.font.as_str());
        s.append(
            "\")\n#show heading.where(level:1):set text(fill:theme.primary,size:32pt,weight:400)\n#show heading.where(level:2):set text(fill:theme.secondary,size:28pt,weight:400)\n#show heading.where(level:3):set text(fill:theme.tertiary,size:24pt,weight:400)\n#show heading.where(level:4):set text(fill:theme.primary,size:22pt,weight:400)\n#show heading.where(level:5):set text(fill:theme.secondary,size:16pt,weight:500)\n#show heading.where(level:6):set text(fill:theme.tertiary,size:14pt,weight:500)\n#show link:set text(fill:theme.primary)\n#show link:underline\n#set line(stroke:theme.outline)\n#set table(stroke:theme.outline)\n#set circle(stroke:theme.outline)\n#set ellipse(stroke:theme.outline)\n#set curve(stroke:theme.outline)\n#set polygon(stroke:theme.outline)\n#set rect(stroke:theme.outline)\n#set square(stroke:theme.outline)\n#show math.equation:set text(font:\"",
        );
        match &self.math_font {
            Some(f) => s.append(f.as_str()),
            None => s.append(self.font.as_str()),
        }
        s.append(
            "\")\n#show math.equation.where(block:true):set text(size:18pt)\n#show math.equation.where(block:true):set par(leading:9pt)\n#context {show math.equation:set text(size:text.size*2)}",
        );
        s
    }
}

/// Identity of a source or file slot in the external compiler's file table,
/// as an opaque handle the host passes back.
#[derive(Clone, Copy, Debug, PartialEq, Eq, Structural)]
pub struct TypstFileId(pub u64);

impl TypstFileId {
    pub fn new(id: u64) -> (r: TypstFileId)
        ensures
            r == TypstFileId(id),
    {
        TypstFileId(id)
    }

    pub fn inner(&self) -> (r: u64)
        ensures
            r == self.0,
    {
        self.0
    }
}

/// One open document: its user-source and synthesized-source slots, the space
/// it belongs to, its current inflection mapper and its rendering parameters.
/// The cached compiled document lives with the caller, which owns the
/// compiler.
pub struct SourceContext {
    pub main_id: TypstFileId,
    pub aux_id: TypstFileId,
    pub path: String,
    pub space_id: String,
    pub index_mapper: IndexMapper,
    pub width: String,
    pub height: Option<u64>,
}

impl SourceContext {
    /// A fresh context: an empty mapper, automatic width, no height cutoff.
    pub fn new(main_id: TypstFileId, aux_id: TypstFileId, path: String, space_id: String) -> (r:
        SourceContext)
        ensures
            r.main_id == main_id,
            r.aux_id == aux_id,
            r.path == path,
            r.space_id == space_id,
            r.index_mapper@ == Seq::<(usize, usize)>::empty(),
            r.width@ == "auto"@,
            r.height is None,
    {
        SourceContext {
            main_id,
            aux_id,
            path,
            space_id,
            index_mapper: IndexMapper::new(),
            width: String::from_str("auto"),
            height: None,
        }
    }

    /// Translates a synthesized-document offset to a user-document offset.
    pub fn map_main_to_aux(&self, main_idx: usize) -> (r: usize)
        requires
            translate_main_to_aux(self.index_mapper@, main_idx as int) <= usize::MAX,
        ensures
            r == translate_main_to_aux(self.index_mapper@, main_idx as int),
    {
        self.index_mapper.main_to_aux(main_idx)
    }

    /// Translates a user-document offset to a synthesized-document offset.
    pub fn map_aux_to_main(&self, aux_idx: usize) -> (r: usize)
        requires
            translate_aux_to_main(self.index_mapper@, aux_idx as int) <= usize::MAX,
        ensures
            r == translate_aux_to_main(self.index_mapper@, aux_idx as int),
    {
        self.index_mapper.aux_to_main(aux_idx)
    }
}

/// Index of the context owning the handle.
pub open spec fn find_context(s: Seq<SourceContext>, id: TypstFileId) -> Option<int>
    decreases s.len(),
{
    if s.len() == 0 {
        None
    } else if s[0].main_id == id {
        Some(0int)
    } else {
        match find_context(s.subrange(1, s.len() as int), id) {
            Some(i) => Some(i + 1),
            None => None,
        }
    }
}

/// Index of the space with the given identifier.
pub open spec fn find_space(s: Seq<(String, SpaceContext)>, id: Seq<char>) -> Option<int>
    decreases s.len(),
{
    if s.len() == 0 {
        None
    } else if s[0].0@ == id {
        Some(0int)
    } else {
        match find_space(s.subrange(1, s.len() as int), id) {
            Some(i) => Some(i + 1),
            None => None,
        }
    }
}

/// A found context index is in range and owns the handle.
pub proof fn lemma_find_context_bounds(s: Seq<SourceContext>, id: TypstFileId)
    ensures
        match find_context(s, id) {
            Some(i) => 0 <= i < s.len() && s[i].main_id == id,
            None => true,
        },
    decreases s.len(),
{
    if s.len() > 0 && !(s[0].main_id == id) {
        lemma_find_context_bounds(s.subrange(1, s.len() as int), id);
    }
}

/// A found space index is in range and carries the identifier.
pub proof fn lemma_find_space_bounds(s: Seq<(String, SpaceContext)>, id: Seq<char>)
    ensures
        match find_space(s, id) {
            Some(i) => 0 <= i < s.len() && s[i].0@ == id,
            None => true,
        },
    decreases s.len(),
{
    if s.len() > 0 && !(s[0].0@ == id) {
        lemma_find_space_bounds(s.subrange(1, s.len() as int), id);
    }
}

/// The engine's document store: all open documents and their spaces, plus the
/// counter that hands out fresh slot identities.
pub struct TypstState {
    pub contexts: Vec<SourceContext>,
    pub spaces: Vec<(String, SpaceContext)>,
    pub next_id: u64,
}

impl TypstState {
    /// An empty store.
    pub fn new() -> (r: TypstState)
        ensures
            r.contexts@ == Seq::<SourceContext>::empty(),
            r.spaces@ == Seq::<(String, SpaceContext)>::empty(),
            r.next_id == 0,
    {
        TypstState { contexts: Vec::new(), spaces: Vec::new(), next_id: 0 }
    }

    /// Index of the context owning the handle, if the document is open.
    pub fn find(&self, id: TypstFileId) -> (r: Option<usize>)
        ensures
            (r is None) == (find_context(self.contexts@, id) is None),
            r matches Some(i) ==> find_context(self.contexts@, id) == Some(i as int),
    {
        let n: usize = self.contexts.len();
        let mut i: usize = 0;
        proof {
            assert(self.contexts@.subrange(0, n as int) =~= self.contexts@);
        }
        while i < n
            invariant
                i <= n,
                n == self.contexts@.len(),
                find_context(self.contexts@, id) == match find_context(
                    self.contexts@.subrange(i as int, n as int),
                    id,
                ) {
                    Some(k) => Some(k + i),
                    None => None::<int>,
                },
            decreases n - i,
        {
            proof {
                let tail = self.contexts@.subrange(i as int, n as int);
                assert(tail[0] == self.contexts@[i as int]);
                assert(tail.subrange(1, tail.len() as int) =~= self.contexts@.subrange(
                    i + 1,
                    n as int,
                ));
            }
            if self.contexts[i].main_id == id {
                return Some(i);
            }
            i = i + 1;
        }
        proof {
            assert(self.contexts@.subrange(n as int, n as int) =~= Seq::<SourceContext>::empty());
        }
        None
    }

    /// Index of the space with the given identifier.
    pub fn find_space_index(&self, space_id: &String) -> (r: Option<usize>)
        ensures
            (r is None) == (find_space(self.spaces@, space_id@) is None),
            r matches Some(i) ==> find_space(self.spaces@, space_id@) == Some(i as int),
    {
        let n: usize = self.spaces.len();
        let mut i: usize = 0;
        proof {
            assert(self.spaces@.subrange(0, n as int) =~= self.spaces@);
        }
        while i < n
            invariant
                i <= n,
                n == self.spaces@.len(),
                find_space(self.spaces@, space_id@) == match find_space(
                    self.spaces@.subrange(i as int, n as int),
                    space_id@,
                ) {
                    Some(k) => Some(k + i),
                    None => None::<int>,
                },
            decreases n - i,
        {
            proof {
                let tail = self.spaces@.subrange(i as int, n as int);
                assert(tail[0] == self.spaces@[i as int]);
                assert(tail.subrange(1, tail.len() as int) =~= self.spaces@.subrange(
                    i + 1,
                    n as int,
                ));
            }
            if self.spaces[i].0 == *space_id {
                return Some(i);
            }
            i = i + 1;
        }
        proof {
            assert(self.spaces@.subrange(n as int, n as int) =~= Seq::<
                (String, SpaceContext),
            >::empty());
        }
        None
    }

    /// Opens a document: assigns a fresh user slot and a fresh synthesized
    /// slot, records the context, creates its space with stock configuration
    /// when the space is new, and hands back the document's handle.
    pub fn create_source_id(&mut self, path: String, space_id: String) -> (r: TypstFileId)
        requires
            old(self).next_id + 2 <= u64::MAX,
        ensures
            r == TypstFileId(old(self).next_id),
            final(self).next_id == old(self).next_id + 2,
            final(self).contexts@.len() == old(self).contexts@.len() + 1,
            final(self).contexts@.drop_last() == old(self).contexts@,
            final(self).contexts@.last().main_id == r,
            final(self).contexts@.last().aux_id == TypstFileId((old(self).next_id + 1) as u64),
            final(self).contexts@.last().path == path,
            final(self).contexts@.last().space_id == space_id,
            final(self).contexts@.last().index_mapper@ == Seq::<(usize, usize)>::empty(),
            final(self).contexts@.last().width@ == "auto"@,
            final(self).contexts@.last().height is None,
            find_space(old(self).spaces@, space_id@) is Some ==> final(self).spaces@ == old(
                self,
            ).spaces@,
            find_space(old(self).spaces@, space_id@) is None ==> {
                &&& final(self).spaces@.len() == old(self).spaces@.len() + 1
                &&& final(self).spaces@.drop_last() == old(self).spaces@
                &&& final(self).spaces@.last().0@ == space_id@
                &&& final(self).spaces@.last().1.theme == spec_default_theme()
                &&& final(self).spaces@.last().1.locale@ == "en"@
                &&& final(self).spaces@.last().1.font@ == "Maple Mono"@
                &&& final(self).spaces@.last().1.math_font matches Some(f) && f@
                    == "New Computer Modern Math"@
            },
    {
        let main_id = TypstFileId(self.next_id);
        let aux_id = TypstFileId(self.next_id + 1);
        self.next_id = self.next_id + 2;
        let has_space = match self.find_space_index(&space_id) {
            Some(_) => true,
            None => false,
        };
        if !has_space {
            let key = clone_string(&space_id);
            self.spaces.push((key, SpaceContext::new()));
        }
        let ctx = SourceContext::new(main_id, aux_id, path, space_id);
        self.contexts.push(ctx);
        proof {
            assert(self.contexts@.drop_last() =~= old(self).contexts@);
        }
        main_id
    }

    /// Hands back a fresh slot handle for a plain file, without opening a
    /// document around it.
    pub fn create_file_id(&mut self, path: String) -> (r: TypstFileId)
        requires
            old(self).next_id + 1 <= u64::MAX,
        ensures
            r == TypstFileId(old(self).next_id),
            final(self).next_id == old(self).next_id + 1,
            final(self).contexts@ == old(self).contexts@,
            final(self).spaces@ == old(self).spaces@,
    {
        let id = TypstFileId(self.next_id);
        self.next_id = self.next_id + 1;
        let _ = path;
        id
    }

    /// Closes a document: removes its context. A handle of no open document
    /// changes nothing.
    pub fn remove_file(&mut self, id: &TypstFileId) -> (r: bool)
        ensures
            final(self).spaces@ == old(self).spaces@,
            final(self).next_id == old(self).next_id,
            match find_context(old(self).contexts@, *id) {
                Some(i) => r && final(self).contexts@ == old(self).contexts@.remove(i),
                None => !r && final(self).contexts@ == old(self).contexts@,
            },
    {
        match self.find(*id) {
            Some(i) => {
                proof {
                    lemma_find_context_bounds(self.contexts@, *id);
                }
                self.contexts.remove(i);
                true
            },
            None => false,
        }
    }

    /// Replaces a document's inflection mapper after a synthesis pass.
    pub fn set_index_mapper(&mut self, id: &TypstFileId, mapper: IndexMapper) -> (r: bool)
        ensures
            final(self).spaces@ == old(self).spaces@,
            final(self).next_id == old(self).next_id,
            match find_context(old(self).contexts@, *id) {
                Some(i) => {
                    &&& r
                    &&& final(self).contexts@.len() == old(self).contexts@.len()
                    &&& forall|j: int|
                        0 <= j < old(self).contexts@.len() && j != i
                            ==> final(self).contexts@[j] == old(self).contexts@[j]
                    &&& final(self).contexts@[i].index_mapper == mapper
                    &&& final(self).contexts@[i].main_id == old(self).contexts@[i].main_id
                    &&& final(self).contexts@[i].aux_id == old(self).contexts@[i].aux_id
                    &&& final(self).contexts@[i].path == old(self).contexts@[i].path
                    &&& final(self).contexts@[i].space_id == old(self).contexts@[i].space_id
                    &&& final(self).contexts@[i].width == old(self).contexts@[i].width
                    &&& final(self).contexts@[i].height == old(self).contexts@[i].height
                },
                None => !r && final(self).contexts@ == old(self).contexts@,
            },
    {
        match self.find(*id) {
            Some(i) => {
                proof {
                    lemma_find_context_bounds(self.contexts@, *id);
                }
                let ctx = self.contexts.remove(i);
                let SourceContext { main_id, aux_id, path, space_id, index_mapper: _, width, height } =
                    ctx;
                self.contexts.insert(
                    i,
                    SourceContext { main_id, aux_id, path, space_id, index_mapper: mapper, width, height },
                );
                proof {
                    assert(self.contexts@ =~= old(self).contexts@.update(
                        i as int,
                        self.contexts@[i as int],
                    ));
                }
                true
            },
            None => false,
        }
    }

    /// Reconfigures a document's viewport: its width (formatted by the host,
    /// absent for automatic width) and its optional height cutoff. Reports
    /// whether the width changed, which requires a reflow.
    pub fn resize(&mut self, id: &TypstFileId, width: Option<String>, height: Option<u64>) -> (r:
        bool)
        ensures
            final(self).spaces@ == old(self).spaces@,
            final(self).next_id == old(self).next_id,
            match find_context(old(self).contexts@, *id) {
                Some(i) => {
                    let new_width = match width {
                        Some(w) => w@,
                        None => "auto"@,
                    };
                    &&& r == (old(self).contexts@[i].width@ != new_width)
                    &&& final(self).contexts@.len() == old(self).contexts@.len()
                    &&& forall|j: int|
                        0 <= j < old(self).contexts@.len() && j != i
                            ==> final(self).contexts@[j] == old(self).contexts@[j]
                    &&& final(self).contexts@[i].width@ == new_width
                    &&& final(self).contexts@[i].height == height
                    &&& final(self).contexts@[i].main_id == old(self).contexts@[i].main_id
                    &&& final(self).contexts@[i].aux_id == old(self).contexts@[i].aux_id
                    &&& final(self).contexts@[i].path == old(self).contexts@[i].path
                    &&& final(self).contexts@[i].space_id == old(self).contexts@[i].space_id
                    &&& final(self).contexts@[i].index_mapper == old(self).contexts@[i].index_mapper
                },
                None => !r && final(self).contexts@ == old(self).contexts@,
            },
    {
        match self.find(*id) {
            Some(i) => {
                proof {
                    lemma_find_context_bounds(self.contexts@, *id);
                }
                let new_width = match width {
                    Some(w) => w,
                    None => String::from_str("auto"),
                };
                let ctx = self.contexts.remove(i);
                let changed = !(ctx.width == new_width);
                let SourceContext { main_id, aux_id, path, space_id, index_mapper, width: _, height: _ } =
                    ctx;
                self.contexts.insert(
                    i,
                    SourceContext {
                        main_id,
                        aux_id,
                        path,
                        space_id,
                        index_mapper,
                        width: new_width,
                        height,
                    },
                );
                proof {
                    assert(self.contexts@ =~= old(self).contexts@.update(
                        i as int,
                        self.contexts@[i as int],
                    ));
                }
                changed
            },
            None => false,
        }
    }

    /// Index of the space a document belongs to.
    pub open spec fn spec_space_of(&self, id: TypstFileId) -> Option<int> {
        match find_context(self.contexts@, id) {
            Some(i) => find_space(self.spaces@, self.contexts@[i].space_id@),
            None => None,
        }
    }

    /// The injected prelude of the document's space; nothing for a handle of
    /// no open document or a document of no known space.
    #[verifier::rlimit(100)]
    pub fn prelude(&self, id: &TypstFileId) -> (r: Option<String>)
        ensures
            match self.spec_space_of(*id) {
                Some(si) => r matches Some(p) && p@ == prelude_chars(
                    self.spaces@[si].1.theme,
                    self.spaces@[si].1.locale@,
                    self.spaces@[si].1.font@,
                    match self.spaces@[si].1.math_font {
                        Some(f) => f@,
                        None => self.spaces@[si].1.font@,
                    },
                ),
                None => r is None,
            },
    {
        match self.find(*id) {
            Some(i) => {
                proof {
                    lemma_find_context_bounds(self.contexts@, *id);
                }
                match self.find_space_index(&self.contexts[i].space_id) {
                    Some(si) => {
                        proof {
                            lemma_find_space_bounds(
                                self.spaces@,
                                self.contexts@[i as int].space_id@,
                            );
                        }
                        Some(self.spaces[si].1.prelude())
                    },
                    None => None,
                }
            },
            None => None,
        }
    }

    /// Sets the theme of the document's space. A handle of no open document,
    /// or of no known space, changes nothing.
    pub fn set_theme(&mut self, id: &TypstFileId, theme: ThemeColors) -> (r: bool)
        ensures
            final(self).contexts@ == old(self).contexts@,
            final(self).next_id == old(self).next_id,
            match old(self).spec_space_of(*id) {
                Some(si) => r && final(self).spaces@ == old(self).spaces@.update(
                    si,
                    (
                        old(self).spaces@[si].0,
                        SpaceContext {
                            theme,
                            locale: old(self).spaces@[si].1.locale,
                            font: old(self).spaces@[si].1.font,
                            math_font: old(self).spaces@[si].1.math_font,
                        },
                    ),
                ),
                None => !r && final(self).spaces@ == old(self).spaces@,
            },
    {
        match self.find(*id) {
            Some(i) => {
                proof {
                    lemma_find_context_bounds(self.contexts@, *id);
                }
                match self.find_space_index(&self.contexts[i].space_id) {
                    Some(si) => {
                        proof {
                            lemma_find_space_bounds(
                                self.spaces@,
                                self.contexts@[i as int].space_id@,
                            );
                        }
                        let (key, sc) = self.spaces.remove(si);
                        let SpaceContext { theme: _, locale, font, math_font } = sc;
                        self.spaces.insert(si, (key, SpaceContext { theme, locale, font, math_font }));
                        proof {
                            assert(self.spaces@ =~= old(self).spaces@.update(
                                si as int,
                                self.spaces@[si as int],
                            ));
                        }
                        true
                    },
                    None => false,
                }
            },
            None => false,
        }
    }

    /// Sets the text font of the document's space.
    pub fn set_font(&mut self, id: &TypstFileId, font: String) -> (r: bool)
        ensures
            final(self).contexts@ == old(self).contexts@,
            final(self).next_id == old(self).next_id,
            match old(self).spec_space_of(*id) {
                Some(si) => r && final(self).spaces@ == old(self).spaces@.update(
                    si,
                    (
                        old(self).spaces@[si].0,
                        SpaceContext {
                            theme: old(self).spaces@[si].1.theme,
                            locale: old(self).spaces@[si].1.locale,
                            font,
                            math_font: old(self).spaces@[si].1.math_font,
                        },
                    ),
                ),
                None => !r && final(self).spaces@ == old(self).spaces@,
            },
    {
        match self.find(*id) {
            Some(i) => {
                proof {
                    lemma_find_context_bounds(self.contexts@, *id);
                }
                match self.find_space_index(&self.contexts[i].space_id) {
                    Some(si) => {
                        proof {
                            lemma_find_space_bounds(
                                self.spaces@,
                                self.contexts@[i as int].space_id@,
                            );
                        }
                        let (key, sc) = self.spaces.remove(si);
                        let SpaceContext { theme, locale, font: _, math_font } = sc;
                        self.spaces.insert(si, (key, SpaceContext { theme, locale, font, math_font }));
                        proof {
                            assert(self.spaces@ =~= old(self).spaces@.update(
                                si as int,
                                self.spaces@[si as int],
                            ));
                        }
                        true
                    },
                    None => false,
                }
            },
            None => false,
        }
    }

    /// Sets the math font of the document's space; clearing it falls back to
    /// the text font.
    pub fn set_math_font(&mut self, id: &TypstFileId, math_font: Option<String>) -> (r: bool)
        ensures
            final(self).contexts@ == old(self).contexts@,
            final(self).next_id == old(self).next_id,
            match old(self).spec_space_of(*id) {
                Some(si) => r && final(self).spaces@ == old(self).spaces@.update(
                    si,
                    (
                        old(self).spaces@[si].0,
                        SpaceContext {
                            theme: old(self).spaces@[si].1.theme,
                            locale: old(self).spaces@[si].1.locale,
                            font: old(self).spaces@[si].1.font,
                            math_font,
                        },
                    ),
                ),
                None => !r && final(self).spaces@ == old(self).spaces@,
            },
    {
        match self.find(*id) {
            Some(i) => {
                proof {
                    lemma_find_context_bounds(self.contexts@, *id);
                }
                match self.find_space_index(&self.contexts[i].space_id) {
                    Some(si) => {
                        proof {
                            lemma_find_space_bounds(
                                self.spaces@,
                                self.contexts@[i as int].space_id@,
                            );
                        }
                        let (key, sc) = self.spaces.remove(si);
                        let SpaceContext { theme, locale, font, math_font: _ } = sc;
                        self.spaces.insert(si, (key, SpaceContext { theme, locale, font, math_font }));
                        proof {
                            assert(self.spaces@ =~= old(self).spaces@.update(
                                si as int,
                                self.spaces@[si as int],
                            ));
                        }
                        true
                    },
                    None => false,
                }
            },
            None => false,
        }
    }

    /// Sets the locale of the document's space.
    pub fn set_locale(&mut self, id: &TypstFileId, locale: String) -> (r: bool)
        ensures
            final(self).contexts@ == old(self).contexts@,
            final(self).next_id == old(self).next_id,
            match old(self).spec_space_of(*id) {
                Some(si) => r && final(self).spaces@ == old(self).spaces@.update(
                    si,
                    (
                        old(self).spaces@[si].0,
                        SpaceContext {
                            theme: old(self).spaces@[si].1.theme,
                            locale,
                            font: old(self).spaces@[si].1.font,
                            math_font: old(self).spaces@[si].1.math_font,
                        },
                    ),
                ),
                None => !r && final(self).spaces@ == old(self).spaces@,
            },
    {
        match self.find(*id) {
            Some(i) => {
                proof {
                    lemma_find_context_bounds(self.contexts@, *id);
                }
                match self.find_space_index(&self.contexts[i].space_id) {
                    Some(si) => {
                        proof {
                            lemma_find_space_bounds(
                                self.spaces@,
                                self.contexts@[i as int].space_id@,
                            );
                        }
                        let (key, sc) = self.spaces.remove(si);
                        let SpaceContext { theme, locale: _, font, math_font } = sc;
                        self.spaces.insert(si, (key, SpaceContext { theme, locale, font, math_font }));
                        proof {
                            assert(self.spaces@ =~= old(self).spaces@.update(
                                si as int,
                                self.spaces@[si as int],
                            ));
                        }
                        true
                    },
                    None => false,
                }
            },
            None => false,
        }
    }
}

/// A copy of a string, character for character.
pub(crate) fn clone_string(s: &String) -> (r: String)
    ensures
        r@ == s@,
{
    String::from_str(s.as_str())
}

} // verus!
