//! Fonts registered for Hebrew and Russian text, and the choice of a font
//! for a piece of text. Locating and reading system font files is left to the
//! caller, which registers what it found.

use vstd::prelude::*;
use crate::strings::is_code;

verus! {

#[derive(Debug, Clone, Copy, PartialEq, Eq, Structural)]
pub struct FontProperties {
    pub is_bold: bool,
    pub is_italic: bool,
    pub supports_hebrew: bool,
    pub supports_russian: bool,
}

pub struct FontData {
    pub name: String,
    pub data: Vec<u8>,
    pub properties: FontProperties,
}

/// A character of the Hebrew block (U+0590 to U+05FF).
pub open spec fn hebrew_char(c: char) -> bool {
    0x590 <= (c as u32) <= 0x5FF
}

/// A character of the Cyrillic block (U+0400 to U+04FF).
pub open spec fn russian_char(c: char) -> bool {
    0x400 <= (c as u32) <= 0x4FF
}

pub open spec fn has_hebrew(s: Seq<char>) -> bool {
    exists|i: int| 0 <= i < s.len() && hebrew_char(#[trigger] s[i])
}

pub open spec fn has_russian(s: Seq<char>) -> bool {
    exists|i: int| 0 <= i < s.len() && russian_char(#[trigger] s[i])
}

/// A font suits a text when it covers a script the text uses, or when the
/// text uses neither script.
pub open spec fn suits(p: FontProperties, text: Seq<char>) -> bool {
    (has_hebrew(text) && p.supports_hebrew) || (has_russian(text) && p.supports_russian) || (!has_hebrew(text)
        && !has_russian(text))
}

/// The registered name of a font: family, weight and style.
pub open spec fn font_name_of(family: Seq<char>, bold: bool, italic: bool) -> Seq<char> {
    family + (if bold {
        "-Bold"@
    } else {
        "-Regular"@
    }) + (if italic {
        "-Italic"@
    } else {
        "-Normal"@
    })
}

pub fn is_hebrew_char(c: char) -> (r: bool)
    ensures
        r == hebrew_char(c),
{
    let u = c as u32;
    0x590 <= u && u <= 0x5FF
}

pub fn is_russian_char(c: char) -> (r: bool)
    ensures
        r == russian_char(c),
{
    let u = c as u32;
    0x400 <= u && u <= 0x4FF
}

/// Whether text in this language is written right to left: Hebrew ("he"),
/// Arabic ("ar") or Persian ("fa").
pub fn is_rtl_language(lang: &str) -> (r: bool)
    ensures
        r == (lang@ == seq!['h', 'e'] || lang@ == seq!['a', 'r'] || lang@ == seq!['f', 'a']),
{
    is_code(lang, 'h', 'e') || is_code(lang, 'a', 'r') || is_code(lang, 'f', 'a')
}

fn scripts_of(text: &str) -> (r: (bool, bool))
    ensures
        r.0 == has_hebrew(text@),
        r.1 == has_russian(text@),
{
    let n = text.unicode_len();
    let mut he = false;
    let mut ru = false;
    let mut i: usize = 0;
    while i < n
        invariant
            n == text@.len(),
            i <= n,
            he == exists|k: int| 0 <= k < i && hebrew_char(#[trigger] text@[k]),
            ru == exists|k: int| 0 <= k < i && russian_char(#[trigger] text@[k]),
        decreases n - i,
    {
        let c = text.get_char(i);
        he = he || is_hebrew_char(c);
        ru = ru || is_russian_char(c);
        i = i + 1;
    }
    (he, ru)
}

/// The registered name of a font.
pub fn font_name(family: &str, bold: bool, italic: bool) -> (r: String)
    ensures
        r@ == font_name_of(family@, bold, italic),
{
    let mut name = String::from_str(family);
    if bold {
        name.append("-Bold");
    } else {
        name.append("-Regular");
    }
    if italic {
        name.append("-Italic");
    } else {
        name.append("-Normal");
    }
    name
}

/// The registered fonts, in registration order, at most one per name.
pub struct FontManager {
    fonts: Vec<FontData>,
}

pub open spec fn font_names(s: Seq<FontData>) -> Seq<Seq<char>> {
    s.map_values(|f: FontData| f.name@)
}

impl FontManager {
    pub closed spec fn fonts(&self) -> Seq<FontData> {
        self.fonts@
    }

    pub open spec fn wf(&self) -> bool {
        font_names(self.fonts()).no_duplicates()
    }

    pub fn new() -> (r: FontManager)
        ensures
            r.wf(),
            r.fonts().len() == 0,
    {
        FontManager { fonts: Vec::new() }
    }

    /// Registers the font data found for one weight and style of a family,
    /// under its registered name; a font with the same name is replaced in place.
    pub fn register_font(&mut self, family: &str, is_bold: bool, is_italic: bool, hebrew: bool, russian: bool, data: Vec<u8>)
        requires
            old(self).wf(),
        ensures
            final(self).wf(),
            ({
                let name = font_name_of(family@, is_bold, is_italic);
                let olds = old(self).fonts();
                let news = final(self).fonts();
                let props = FontProperties { is_bold, is_italic, supports_hebrew: hebrew, supports_russian: russian };
                &&& font_names(olds).contains(name) ==> exists|p: int| 0 <= p < olds.len() && olds[p].name@ == name
                    && news == olds.update(p, news[p]) && news[p].name@ == name && news[p].data == data && news[p].properties == props
                &&& !font_names(olds).contains(name) ==> news.len() == olds.len() + 1 && news.drop_last() == olds
                    && news.last().name@ == name && news.last().data == data && news.last().properties == props
            }),
    {
        let name = font_name(family, is_bold, is_italic);
        let props = FontProperties { is_bold, is_italic, supports_hebrew: hebrew, supports_russian: russian };
        let ghost before = self.fonts@;
        let ghost nm = name@;
        let ghost data0 = data;
        let mut i: usize = 0;
        while i < self.fonts.len()
            invariant
                self.fonts@ == before,
                before == old(self).fonts@,
                font_names(before).no_duplicates(),
                name@ == nm,
                nm == font_name_of(family@, is_bold, is_italic),
                data == data0,
                props == (FontProperties { is_bold, is_italic, supports_hebrew: hebrew, supports_russian: russian }),
                i <= before.len(),
                forall|j: int| 0 <= j < i ==> (#[trigger] before[j]).name@ != nm,
            decreases self.fonts.len() - i,
        {
            if self.fonts[i].name == name {
                self.fonts.set(i, FontData { name, data, properties: props });
                proof {
                    assert(font_names(self.fonts@) =~= font_names(before));
                    assert(self.fonts@ == before.update(i as int, self.fonts@[i as int]));
                    assert(before[i as int].name@ == nm);
                    assert(font_names(before)[i as int] == nm);
                    assert(font_names(before).contains(nm));
                    let news = self.fonts();
                    assert(0 <= i < before.len() && before[i as int].name@ == nm && news == before.update(i as int, news[i as int])
                        && news[i as int].name@ == nm && news[i as int].data == data0 && news[i as int].properties == props);
                    assert(exists|q: int| 0 <= q < before.len() && before[q].name@ == nm && news == before.update(q, news[q])
                        && news[q].name@ == nm && news[q].data == data0 && news[q].properties == props);
                }
                return;
            }
            i = i + 1;
        }
        proof {
            if font_names(before).contains(nm) {
                let j = choose|j: int| 0 <= j < font_names(before).len() && font_names(before)[j] == nm;
                assert(before[j].name@ == nm);
            }
        }
        self.fonts.push(FontData { name, data, properties: props });
        proof {
            assert(self.fonts@.drop_last() =~= before);
            assert(font_names(self.fonts@) =~= font_names(before).push(nm));
        }
    }

    /// The first registered font that suits the text.
    pub fn get_font_for_text(&self, text: &str) -> (r: Option<&FontData>)
        ensures
            match r {
                Some(f) => exists|i: int| 0 <= i < self.fonts().len() && *f == self.fonts()[i]
                    && suits(f.properties, text@)
                    && forall|j: int| 0 <= j < i ==> !suits(#[trigger] self.fonts()[j].properties, text@),
                None => forall|j: int| 0 <= j < self.fonts().len() ==> !suits(#[trigger] self.fonts()[j].properties, text@),
            },
    {
        let (he, ru) = scripts_of(text);
        let mut i: usize = 0;
        while i < self.fonts.len()
            invariant
                i <= self.fonts@.len(),
                he == has_hebrew(text@),
                ru == has_russian(text@),
                forall|j: int| 0 <= j < i ==> !suits(#[trigger] self.fonts@[j].properties, text@),
            decreases self.fonts.len() - i,
        {
            let p = self.fonts[i].properties;
            if (he && p.supports_hebrew) || (ru && p.supports_russian) || (!he && !ru) {
                assert(suits(self.fonts()[i as int].properties, text@));
                assert(forall|j: int| 0 <= j < i ==> !suits(#[trigger] self.fonts()[j].properties, text@));
                return Some(&self.fonts[i]);
            }
            i = i + 1;
        }
        None
    }
}

} // verus!
