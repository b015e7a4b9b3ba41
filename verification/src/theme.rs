//! Colours for status indicators, as ANSI 256-colour codes, configurable
//! through an `IX_COLORS`-style string (`key=code:key=code`).

use vstd::prelude::*;
use vstd::string::*;

use crate::assoc::{assoc_find, assoc_insert, assoc_map, keys_distinct, lemma_assoc_map_at};
use crate::item::Category;
use crate::text::{
    chars_of, decimal, find_char, lemma_first_index_of, parse_u8, parse_u8_spec, slice_chars,
    split_chars, split_on, split_once, string_of, trim, trim_chars, views,
};

verus! {

/// Colour codes by status text and by category, and the fallback colour.
#[derive(Debug, Clone)]
pub struct StatusTheme {
    pub string_map: Vec<(String, u8)>,
    pub category_map: Vec<(Category, u8)>,
    pub dim: u8,
}

/// The colour a category is given in a category list (the first entry for it).
pub open spec fn lookup_category(m: Seq<(Category, u8)>, c: Category) -> Option<u8>
    decreases m.len(),
{
    if m.len() == 0 {
        None
    } else if m[0].0 == c {
        Some(m[0].1)
    } else {
        lookup_category(m.drop_first(), c)
    }
}

/// A theme as maps.
pub struct ThemeView {
    pub strings: Map<Seq<char>, u8>,
    pub categories: Seq<(Category, u8)>,
    pub dim: u8,
}

pub open spec fn theme_view(t: StatusTheme) -> ThemeView {
    ThemeView { strings: assoc_map(t.string_map@), categories: t.category_map@, dim: t.dim }
}

/// The colour of a status: none for an empty status, else the colour of its
/// text, else that of its category, else the fallback.
pub open spec fn color_for_spec(t: ThemeView, status: Seq<char>, category: Category) -> Option<u8> {
    if status.len() == 0 {
        None
    } else if t.strings.contains_key(status) {
        Some(t.strings[status])
    } else {
        match lookup_category(t.categories, category) {
            Some(c) => Some(c),
            None => Some(t.dim),
        }
    }
}

/// The status text a configuration key stands for (long names of the git
/// status letters are accepted too).
pub open spec fn key_alias(k: Seq<char>) -> Seq<char> {
    if k == "modified"@ {
        "M"@
    } else if k == "added"@ {
        "A"@
    } else if k == "deleted"@ {
        "D"@
    } else if k == "renamed"@ {
        "R"@
    } else if k == "typechange"@ {
        "T"@
    } else if k == "untracked"@ {
        "??"@
    } else if k == "ignored"@ {
        "!!"@
    } else if k == "staged"@ {
        "*"@
    } else {
        k
    }
}

/// Setting one key: `dim` sets the fallback colour, any other key the
/// colour of the status it stands for.
pub open spec fn apply_key_spec(t: ThemeView, key: Seq<char>, code: u8) -> ThemeView {
    if key == "dim"@ {
        ThemeView { dim: code, ..t }
    } else {
        ThemeView { strings: t.strings.insert(key_alias(key), code), ..t }
    }
}

/// The warning for an entry whose code is not a number from 0 to 255.
pub open spec fn bad_code_warning(key: Seq<char>) -> Seq<char> {
    "ix: warning: invalid color code in IX_COLORS for key '"@ + key + "'"@
}

/// The warning for an entry without `=`.
pub open spec fn bad_entry_warning(entry: Seq<char>) -> Seq<char> {
    "ix: warning: invalid entry in IX_COLORS: '"@ + entry + "'"@
}

/// What one colon-separated entry does to (theme, warnings).
pub open spec fn entry_step(st: (ThemeView, Seq<Seq<char>>), raw: Seq<char>) -> (
    ThemeView,
    Seq<Seq<char>>,
) {
    let e = trim(raw);
    if e.len() == 0 {
        st
    } else {
        match split_once(e, '=') {
            Some((k, v)) => match parse_u8_spec(trim(v)) {
                Some(code) => (apply_key_spec(st.0, trim(k), code), st.1),
                None => (st.0, st.1.push(bad_code_warning(trim(k)))),
            },
            None => (st.0, st.1.push(bad_entry_warning(e))),
        }
    }
}

pub open spec fn entries_fold(st: (ThemeView, Seq<Seq<char>>), es: Seq<Seq<char>>) -> (
    ThemeView,
    Seq<Seq<char>>,
)
    decreases es.len(),
{
    if es.len() == 0 {
        st
    } else {
        entry_step(entries_fold(st, es.drop_last()), es.last())
    }
}

/// What applying a configuration string gives: each colon-separated entry
/// applied in order, with the warnings of the bad ones.
pub open spec fn apply_str_spec(t: ThemeView, s: Seq<char>) -> (ThemeView, Seq<Seq<char>>) {
    entries_fold((t, Seq::empty()), split_on(s, ':'))
}

/// The colours the default theme gives status texts.
pub open spec fn default_strings() -> Map<Seq<char>, u8> {
    map![
        "M"@ => 3u8,
        "A"@ => 2u8,
        "D"@ => 1u8,
        "R"@ => 6u8,
        "T"@ => 5u8,
        "??"@ => 8u8,
        "!!"@ => 8u8,
        "*"@ => 10u8,
        "running"@ => 2u8,
        "sleeping"@ => 8u8,
        "idle"@ => 8u8,
        "zombie"@ => 1u8,
        "stopped"@ => 8u8,
        "exited"@ => 8u8,
        "paused"@ => 3u8,
    ]
}

/// The colour the default theme gives a category.
pub open spec fn default_category_color(c: Category) -> u8 {
    match c {
        Category::Positive => 2,
        Category::Negative => 1,
        Category::Warning => 3,
        Category::Neutral => 8,
        Category::Unknown => 8,
    }
}

/// The compiled-in colours: by status text as `default_strings`, by
/// category as `default_category_color`, fallback 8.
pub open spec fn is_default_theme(t: StatusTheme) -> bool {
    &&& t.wf()
    &&& t.dim == 8
    &&& assoc_map(t.string_map@) == default_strings()
    &&& forall|c: Category| #[trigger]
        lookup_category(t.category_map@, c) == Some(default_category_color(c))
}

impl Default for StatusTheme {
    fn default() -> (r: StatusTheme)
        ensures
            is_default_theme(r),
    {
        StatusTheme::default_theme()
    }
}

impl StatusTheme {
    /// No status text is listed twice.
    pub open spec fn wf(&self) -> bool {
        keys_distinct(self.string_map@)
    }

    /// The compiled-in colours.
    pub fn default_theme() -> (r: StatusTheme)
        ensures
            r.wf(),
            r.dim == 8,
            assoc_map(r.string_map@) == default_strings(),
            forall|c: Category| #[trigger]
                lookup_category(r.category_map@, c) == Some(default_category_color(c)),
    {
        let mut m: Vec<(String, u8)> = Vec::new();
        assert(assoc_map(m@) =~= Map::<Seq<char>, u8>::empty());
        assoc_insert(&mut m, "M", 3);
        assoc_insert(&mut m, "A", 2);
        assoc_insert(&mut m, "D", 1);
        assoc_insert(&mut m, "R", 6);
        assoc_insert(&mut m, "T", 5);
        assoc_insert(&mut m, "??", 8);
        assoc_insert(&mut m, "!!", 8);
        assoc_insert(&mut m, "*", 10);
        assoc_insert(&mut m, "running", 2);
        assoc_insert(&mut m, "sleeping", 8);
        assoc_insert(&mut m, "idle", 8);
        assoc_insert(&mut m, "zombie", 1);
        assoc_insert(&mut m, "stopped", 8);
        assoc_insert(&mut m, "exited", 8);
        assoc_insert(&mut m, "paused", 3);
        let mut c: Vec<(Category, u8)> = Vec::new();
        c.push((Category::Positive, 2));
        c.push((Category::Negative, 1));
        c.push((Category::Warning, 3));
        c.push((Category::Neutral, 8));
        c.push((Category::Unknown, 8));
        let r = StatusTheme { string_map: m, category_map: c, dim: 8 };
        proof {
            reveal_strlit("M");
            reveal_strlit("A");
            reveal_strlit("D");
            reveal_strlit("R");
            reveal_strlit("T");
            reveal_strlit("??");
            reveal_strlit("!!");
            reveal_strlit("*");
            reveal_strlit("running");
            reveal_strlit("sleeping");
            reveal_strlit("idle");
            reveal_strlit("zombie");
            reveal_strlit("stopped");
            reveal_strlit("exited");
            reveal_strlit("paused");
            let sm = assoc_map(r.string_map@);
            assert(sm == default_strings());
            assert(sm == Map::<Seq<char>, u8>::empty().insert("M"@, 3).insert("A"@, 2).insert(
                "D"@,
                1,
            ).insert("R"@, 6).insert("T"@, 5).insert("??"@, 8).insert("!!"@, 8).insert("*"@, 10).insert(
                "running"@,
                2,
            ).insert("sleeping"@, 8).insert("idle"@, 8).insert("zombie"@, 1).insert("stopped"@, 8).insert(
                "exited"@,
                8,
            ).insert("paused"@, 3));
            let cm = r.category_map@;
            reveal_with_fuel(lookup_category, 6);
            assert(cm.drop_first().drop_first().drop_first().drop_first().drop_first().len() == 0);
            assert forall|cat: Category| #[trigger]
                lookup_category(cm, cat) == Some(default_category_color(cat)) by {
                assert(cm[0].0 == Category::Positive);
                assert(cm.drop_first()[0].0 == Category::Negative);
                assert(cm.drop_first().drop_first()[0].0 == Category::Warning);
                assert(cm.drop_first().drop_first().drop_first()[0].0 == Category::Neutral);
                assert(cm.drop_first().drop_first().drop_first().drop_first()[0].0
                    == Category::Unknown);
            }
        }
        r
    }

    /// Sets one key: `dim` sets the fallback colour; any other key (or the
    /// long name of a git status letter) the colour of that status text.
    pub fn apply_key(&mut self, key: &str, code: u8)
        requires
            old(self).wf(),
        ensures
            final(self).wf(),
            theme_view(*final(self)) == apply_key_spec(theme_view(*old(self)), key@, code),
    {
        proof {
            reveal_strlit("dim");
            reveal_strlit("modified");
            reveal_strlit("added");
            reveal_strlit("deleted");
            reveal_strlit("renamed");
            reveal_strlit("typechange");
            reveal_strlit("untracked");
            reveal_strlit("ignored");
            reveal_strlit("staged");
        }
        let k = chars_of(key);
        if crate::text::str_eq(key, "dim") {
            self.dim = code;
        } else {
            let alias: &str = if crate::text::str_eq(key, "modified") {
                "M"
            } else if crate::text::str_eq(key, "added") {
                "A"
            } else if crate::text::str_eq(key, "deleted") {
                "D"
            } else if crate::text::str_eq(key, "renamed") {
                "R"
            } else if crate::text::str_eq(key, "typechange") {
                "T"
            } else if crate::text::str_eq(key, "untracked") {
                "??"
            } else if crate::text::str_eq(key, "ignored") {
                "!!"
            } else if crate::text::str_eq(key, "staged") {
                "*"
            } else {
                key
            };
            assert(alias@ == key_alias(key@));
            assoc_insert(&mut self.string_map, alias, code);
        }
    }

    /// Applies a colon-separated `key=code` string; returns a warning for
    /// each entry that is not of that form or whose code is not 0 to 255.
    pub fn apply_str(&mut self, s: &str) -> (warnings: Vec<String>)
        requires
            old(self).wf(),
        ensures
            final(self).wf(),
            (theme_view(*final(self)), crate::text::string_views(warnings@)) == apply_str_spec(
                theme_view(*old(self)),
                s@,
            ),
    {
        let chars = chars_of(s);
        let entries = split_chars(&chars, ':');
        let n = entries.len();
        let ghost es = views(entries@);
        let ghost t0 = theme_view(*self);
        let mut warnings: Vec<String> = Vec::new();
        assert(es.take(0) == Seq::<Seq<char>>::empty());
        assert(crate::text::string_views(warnings@) == Seq::<Seq<char>>::empty());
        for i in 0..n
            invariant
                n == entries@.len(),
                es == views(entries@),
                es == split_on(s@, ':'),
                self.wf(),
                (theme_view(*self), crate::text::string_views(warnings@)) == entries_fold(
                    (t0, Seq::empty()),
                    es.take(i as int),
                ),
        {
            assert(es.take(i + 1).drop_last() == es.take(i as int));
            assert(es[i as int] == entries@[i as int]@);
            let e = trim_chars(&entries[i]);
            if e.len() > 0 {
                proof {
                    lemma_first_index_of(e@, '=');
                }
                match find_char(&e, '=') {
                    Some(p) => {
                        let el = e.len();
                        let key = trim_chars(&slice_chars(&e, 0, p));
                        let val = trim_chars(&slice_chars(&e, p + 1, el));
                        assert(e@.take(p as int) == e@.subrange(0, p as int));
                        assert(e@.skip(p + 1) == e@.subrange(p + 1, el as int));
                        let key_s = string_of(&key);
                        match parse_u8(&val) {
                            Some(code) => {
                                self.apply_key(key_s.as_str(), code);
                            },
                            None => {
                                let ghost before = warnings@;
                                let mut w = String::from_str(
                                    "ix: warning: invalid color code in IX_COLORS for key '",
                                );
                                w.append(key_s.as_str());
                                w.append("'");
                                warnings.push(w);
                                assert(crate::text::string_views(warnings@) =~= crate::text::string_views(before).push(
                                    bad_code_warning(key@),
                                ));
                            },
                        }
                    },
                    None => {
                        let ghost before = warnings@;
                        let mut w = String::from_str("ix: warning: invalid entry in IX_COLORS: '");
                        let e_s = string_of(&e);
                        w.append(e_s.as_str());
                        w.append("'");
                        warnings.push(w);
                        assert(crate::text::string_views(warnings@) =~= crate::text::string_views(before).push(
                            bad_entry_warning(e@),
                        ));
                    },
                }
            }
        }
        assert(es.take(n as int) == es);
        warnings
    }

    /// The ANSI-256 colour for a status, or none for an empty status.
    pub fn color_for(&self, status: &str, category: Category) -> (r: Option<u8>)
        requires
            self.wf(),
        ensures
            r == color_for_spec(theme_view(*self), status@, category),
    {
        if status.unicode_len() == 0 {
            return None;
        }
        match assoc_find(&self.string_map, status) {
            Some(i) => {
                proof {
                    lemma_assoc_map_at(self.string_map@, i as int);
                }
                Some(self.string_map[i].1)
            },
            None => {
                let n = self.category_map.len();
                let ghost cm = self.category_map@;
                assert(!theme_view(*self).strings.contains_key(status@));
                assert(cm.skip(0) == cm);
                for j in 0..n
                    invariant
                        n == cm.len(),
                        cm == self.category_map@,
                        status@.len() > 0,
                        !theme_view(*self).strings.contains_key(status@),
                        lookup_category(cm, category) == lookup_category(cm.skip(j as int), category),
                {
                    assert(cm.skip(j as int).drop_first() == cm.skip(j + 1));
                    assert(cm.skip(j as int)[0] == cm[j as int]);
                    assert(cm.skip(j as int).len() > 0);
                    if self.category_map[j].0 == category {
                        assert(lookup_category(cm.skip(j as int), category) == Some(cm[j as int].1));
                        return Some(self.category_map[j].1);
                    }
                }
                assert(cm.skip(n as int).len() == 0);
                Some(self.dim)
            },
        }
    }

    /// `status` shown in its colour when drawn.
    pub fn colorize<'a>(&'a self, status: &'a str, category: Category, text: &'a str) -> (r: Styled<
        'a,
    >)
        ensures
            r.theme == self,
            r.status == status,
            r.category == category,
            r.text == text,
    {
        Styled { theme: self, status, category, text }
    }

    /// `text` in bold.
    pub fn bold(text: &str) -> (r: Attributed<'_>)
        ensures
            r.attr == TextAttr::Bold,
            r.text == text,
    {
        Attributed { attr: TextAttr::Bold, text }
    }

    /// `text` dimmed.
    pub fn dimmed(text: &str) -> (r: Attributed<'_>)
        ensures
            r.attr == TextAttr::Dim,
            r.text == text,
    {
        Attributed { attr: TextAttr::Dim, text }
    }

    /// `text` in italics.
    pub fn italic(text: &str) -> (r: Attributed<'_>)
        ensures
            r.attr == TextAttr::Italic,
            r.text == text,
    {
        Attributed { attr: TextAttr::Italic, text }
    }
}

/// A text attribute and the attributes that end one.
#[derive(Debug, Clone, Copy, PartialEq, Eq, Structural)]
pub enum TextAttr {
    Bold,
    Dim,
    Italic,
    NormalIntensity,
    NoItalic,
    Reset,
}

/// The SGR code of an attribute.
pub open spec fn sgr(a: TextAttr) -> Seq<char> {
    match a {
        TextAttr::Bold => "1"@,
        TextAttr::Dim => "2"@,
        TextAttr::Italic => "3"@,
        TextAttr::NormalIntensity => "22"@,
        TextAttr::NoItalic => "23"@,
        TextAttr::Reset => "0"@,
    }
}

/// The attribute that ends `a`.
pub open spec fn cancel_of(a: TextAttr) -> TextAttr {
    match a {
        TextAttr::Bold | TextAttr::Dim => TextAttr::NormalIntensity,
        TextAttr::Italic => TextAttr::NoItalic,
        _ => TextAttr::Reset,
    }
}

/// The escape that starts colour `code`: `ESC [ 38;5;<code> m` when colours
/// are on, `ESC [ m` when they are off.
pub open spec fn fg_form(code: u8, colors_on: bool) -> Seq<char> {
    if colors_on {
        "\x1b[38;5;"@ + decimal(code as nat) + "m"@
    } else {
        "\x1b[m"@
    }
}

/// What comes before a status's text: its colour's escape, or nothing
/// when the status has no colour.
pub open spec fn style_open(t: ThemeView, status: Seq<char>, category: Category, colors_on: bool) -> Seq<
    char,
> {
    match color_for_spec(t, status, category) {
        Some(code) => fg_form(code, colors_on),
        None => Seq::empty(),
    }
}

/// What comes after a status's text: the reset, or nothing when the status
/// has no colour.
pub open spec fn style_close(t: ThemeView, status: Seq<char>, category: Category) -> Seq<char> {
    match color_for_spec(t, status, category) {
        Some(_) => "\x1b[0m"@,
        None => Seq::empty(),
    }
}

/// A text drawn in a status's colour.
pub open spec fn styled_form(
    t: ThemeView,
    status: Seq<char>,
    category: Category,
    text: Seq<char>,
    colors_on: bool,
) -> Seq<char> {
    style_open(t, status, category, colors_on) + text + style_close(t, status, category)
}

/// What `crossterm` writes for `SetForegroundColor(Color::AnsiValue(code))`,
/// with whether colours were on: crossterm reads `NO_COLOR` once per
/// process (`Colored::ansi_color_disabled_memoized`) and writes
/// `ESC [ 38;5;<code> m` when it is unset or empty, `ESC [ m` otherwise.
/// The setting is read here and again by the formatting; only
/// `force_color_output` or `Colored::set_ansi_color_disabled` could change
/// it in between, and nothing in this program calls them.
#[verifier::external_body]
fn fg_escape(code: u8) -> (r: (bool, String))
    ensures
        r.1@ == fg_form(code, r.0),
{
    let on = !crossterm::style::Colored::ansi_color_disabled_memoized();
    (on, format!("{}", crossterm::style::SetForegroundColor(crossterm::style::Color::AnsiValue(code))))
}

/// What `crossterm` writes for `ResetColor`: `ESC [ 0 m`.
#[verifier::external_body]
fn reset_escape() -> (r: String)
    ensures
        r@ == "\x1b[0m"@,
{
    format!("{}", crossterm::style::ResetColor)
}

/// What `crossterm` writes for `SetAttribute(a)`: `ESC [ <sgr> m`.
#[verifier::external_body]
fn attr_escape(a: TextAttr) -> (r: String)
    ensures
        r@ == "\x1b["@ + sgr(a) + "m"@,
{
    let attr = match a {
        TextAttr::Bold => crossterm::style::Attribute::Bold,
        TextAttr::Dim => crossterm::style::Attribute::Dim,
        TextAttr::Italic => crossterm::style::Attribute::Italic,
        TextAttr::NormalIntensity => crossterm::style::Attribute::NormalIntensity,
        TextAttr::NoItalic => crossterm::style::Attribute::NoItalic,
        TextAttr::Reset => crossterm::style::Attribute::Reset,
    };
    format!("{}", crossterm::style::SetAttribute(attr))
}

/// A status text to be drawn in its theme colour.
pub struct Styled<'a> {
    pub theme: &'a StatusTheme,
    pub status: &'a str,
    pub category: Category,
    pub text: &'a str,
}

impl<'a> Styled<'a> {
    /// The text as drawn, and whether colours were on: wrapped in the
    /// colour's escape and the reset when the status has a colour (whether
    /// colours were on then says which escape), unchanged otherwise (and
    /// the flag is `true`).
    pub fn render_colored(&self) -> (r: (bool, String))
        requires
            self.theme.wf(),
        ensures
            r.1@ == styled_form(theme_view(*self.theme), self.status@, self.category, self.text@, r.0),
    {
        match self.theme.color_for(self.status, self.category) {
            Some(code) => {
                let (on, mut r) = fg_escape(code);
                r.append(self.text);
                let reset = reset_escape();
                r.append(reset.as_str());
                (on, r)
            },
            None => {
                let r = String::from_str(self.text);
                assert(r@ == Seq::<char>::empty() + self.text@ + Seq::<char>::empty());
                (true, r)
            },
        }
    }

    /// The text as drawn: wrapped in the colour escape and the reset when the
    /// status has a colour, unchanged otherwise.
    pub fn render(&self) -> (r: String)
        requires
            self.theme.wf(),
        ensures
            exists|colors_on: bool|
                r@ == styled_form(
                    theme_view(*self.theme),
                    self.status@,
                    self.category,
                    self.text@,
                    colors_on,
                ),
    {
        let (_, r) = self.render_colored();
        r
    }
}

/// The colour a status is drawn in comes from its text and category alone,
/// never from the text drawn; that text is written unchanged between the
/// colour's escape and the reset; and with colours on the escape is the
/// 256-colour one, `ESC [ 38;5;<code> m`.
pub proof fn law_colorize(
    t: ThemeView,
    status: Seq<char>,
    category: Category,
    text: Seq<char>,
    colors_on: bool,
)
    ensures
        styled_form(t, status, category, text, colors_on) == style_open(t, status, category, colors_on)
            + text + style_close(t, status, category),
        styled_form(t, status, category, text, true) == (match color_for_spec(t, status, category) {
            Some(code) => "\x1b[38;5;"@ + decimal(code as nat) + "m"@ + text + "\x1b[0m"@,
            None => text,
        }),
{
    match color_for_spec(t, status, category) {
        Some(code) => {},
        None => {
            assert(Seq::<char>::empty() + text + Seq::<char>::empty() =~= text);
        },
    }
}

/// A text to be drawn with an attribute.
pub struct Attributed<'a> {
    pub attr: TextAttr,
    pub text: &'a str,
}

impl<'a> Attributed<'a> {
    /// The text as drawn: the attribute, the text, then the attribute that
    /// ends it.
    pub fn render(&self) -> (r: String)
        ensures
            r@ == "\x1b["@ + sgr(self.attr) + "m"@ + self.text@ + "\x1b["@ + sgr(
                cancel_of(self.attr),
            ) + "m"@,
    {
        let cancel = match self.attr {
            TextAttr::Bold | TextAttr::Dim => TextAttr::NormalIntensity,
            TextAttr::Italic => TextAttr::NoItalic,
            _ => TextAttr::Reset,
        };
        let mut r = attr_escape(self.attr);
        r.append(self.text);
        let end = attr_escape(cancel);
        r.append(end.as_str());
        r
    }
}

impl StatusTheme {
    /// The theme a configuration string (the value of `IX_COLORS`) gives:
    /// the defaults, with the string applied when there is one, and the
    /// warnings of its bad entries.
    pub fn from_config(config: Option<&str>) -> (r: (StatusTheme, Vec<String>))
        ensures
            r.0.wf(),
            exists|d: StatusTheme|
                is_default_theme(d) && match config {
                    None => r.0 == d && r.1@.len() == 0,
                    Some(s) => (theme_view(r.0), crate::text::string_views(r.1@)) == apply_str_spec(
                        theme_view(d),
                        s@,
                    ),
                },
    {
        let mut t = StatusTheme::default_theme();
        let ghost d = t;
        assert(is_default_theme(d));
        match config {
            Some(s) => {
                let w = t.apply_str(s);
                assert((theme_view(t), crate::text::string_views(w@)) == apply_str_spec(theme_view(d), s@));
                (t, w)
            },
            None => {
                let w: Vec<String> = Vec::new();
                assert(t == d && w@.len() == 0);
                (t, w)
            },
        }
    }
}

/// After a key is given a colour, every status it stands for is drawn in
/// that colour, whatever its category.
pub proof fn law_key_colour_applies(t: ThemeView, key: Seq<char>, code: u8, c: Category)
    requires
        key != "dim"@,
        key_alias(key).len() > 0,
    ensures
        color_for_spec(apply_key_spec(t, key, code), key_alias(key), c) == Some(code),
{
}

/// After `dim` is given a colour, a status with no colour of its own and
/// whose category has none is drawn in it.
pub proof fn law_dim_is_fallback(t: ThemeView, code: u8, status: Seq<char>, c: Category)
    requires
        status.len() > 0,
        !t.strings.contains_key(status),
        lookup_category(t.categories, c) is None,
    ensures
        color_for_spec(apply_key_spec(t, "dim"@, code), status, c) == Some(code),
{
}

/// An empty status is never coloured.
pub proof fn law_empty_status_uncoloured(t: ThemeView, c: Category)
    ensures
        color_for_spec(t, Seq::empty(), c) is None,
{
}

/// Each long name of a git status sets the colour of its letter:
/// `modified` of `M`, `added` of `A`, `deleted` of `D`, `renamed` of `R`,
/// `typechange` of `T`, `untracked` of `??`, `ignored` of `!!` and `staged`
/// of `*`, whatever the status's category.
pub proof fn law_long_names_colour_letters(t: ThemeView, code: u8, c: Category)
    ensures
        color_for_spec(apply_key_spec(t, "modified"@, code), "M"@, c) == Some(code),
        color_for_spec(apply_key_spec(t, "added"@, code), "A"@, c) == Some(code),
        color_for_spec(apply_key_spec(t, "deleted"@, code), "D"@, c) == Some(code),
        color_for_spec(apply_key_spec(t, "renamed"@, code), "R"@, c) == Some(code),
        color_for_spec(apply_key_spec(t, "typechange"@, code), "T"@, c) == Some(code),
        color_for_spec(apply_key_spec(t, "untracked"@, code), "??"@, c) == Some(code),
        color_for_spec(apply_key_spec(t, "ignored"@, code), "!!"@, c) == Some(code),
        color_for_spec(apply_key_spec(t, "staged"@, code), "*"@, c) == Some(code),
{
    reveal_strlit("dim");
    reveal_strlit("modified");
    reveal_strlit("M");
    reveal_strlit("added");
    reveal_strlit("A");
    reveal_strlit("deleted");
    reveal_strlit("D");
    reveal_strlit("renamed");
    reveal_strlit("R");
    reveal_strlit("typechange");
    reveal_strlit("T");
    reveal_strlit("untracked");
    reveal_strlit("??");
    reveal_strlit("ignored");
    reveal_strlit("!!");
    reveal_strlit("staged");
    reveal_strlit("*");
    assert("modified"@ != "dim"@) by { assert("modified"@.len() != "dim"@.len()); }
    assert(key_alias("modified"@) == "M"@);
    assert("added"@ != "dim"@) by { assert("added"@.len() != "dim"@.len()); }
    assert("added"@ != "modified"@) by { assert("added"@.len() != "modified"@.len()); }
    assert(key_alias("added"@) == "A"@);
    assert("deleted"@ != "dim"@) by { assert("deleted"@.len() != "dim"@.len()); }
    assert("deleted"@ != "modified"@) by { assert("deleted"@.len() != "modified"@.len()); }
    assert("deleted"@ != "added"@) by { assert("deleted"@.len() != "added"@.len()); }
    assert(key_alias("deleted"@) == "D"@);
    assert("renamed"@ != "dim"@) by { assert("renamed"@.len() != "dim"@.len()); }
    assert("renamed"@ != "modified"@) by { assert("renamed"@.len() != "modified"@.len()); }
    assert("renamed"@ != "added"@) by { assert("renamed"@.len() != "added"@.len()); }
    assert("renamed"@ != "deleted"@) by { assert("renamed"@[0] != "deleted"@[0]); }
    assert(key_alias("renamed"@) == "R"@);
    assert("typechange"@ != "dim"@) by { assert("typechange"@.len() != "dim"@.len()); }
    assert("typechange"@ != "modified"@) by { assert("typechange"@.len() != "modified"@.len()); }
    assert("typechange"@ != "added"@) by { assert("typechange"@.len() != "added"@.len()); }
    assert("typechange"@ != "deleted"@) by { assert("typechange"@.len() != "deleted"@.len()); }
    assert("typechange"@ != "renamed"@) by { assert("typechange"@.len() != "renamed"@.len()); }
    assert(key_alias("typechange"@) == "T"@);
    assert("untracked"@ != "dim"@) by { assert("untracked"@.len() != "dim"@.len()); }
    assert("untracked"@ != "modified"@) by { assert("untracked"@.len() != "modified"@.len()); }
    assert("untracked"@ != "added"@) by { assert("untracked"@.len() != "added"@.len()); }
    assert("untracked"@ != "deleted"@) by { assert("untracked"@.len() != "deleted"@.len()); }
    assert("untracked"@ != "renamed"@) by { assert("untracked"@.len() != "renamed"@.len()); }
    assert("untracked"@ != "typechange"@) by { assert("untracked"@.len() != "typechange"@.len()); }
    assert(key_alias("untracked"@) == "??"@);
    assert("ignored"@ != "dim"@) by { assert("ignored"@.len() != "dim"@.len()); }
    assert("ignored"@ != "modified"@) by { assert("ignored"@.len() != "modified"@.len()); }
    assert("ignored"@ != "added"@) by { assert("ignored"@.len() != "added"@.len()); }
    assert("ignored"@ != "deleted"@) by { assert("ignored"@[0] != "deleted"@[0]); }
    assert("ignored"@ != "renamed"@) by { assert("ignored"@[0] != "renamed"@[0]); }
    assert("ignored"@ != "typechange"@) by { assert("ignored"@.len() != "typechange"@.len()); }
    assert("ignored"@ != "untracked"@) by { assert("ignored"@.len() != "untracked"@.len()); }
    assert(key_alias("ignored"@) == "!!"@);
    assert("staged"@ != "dim"@) by { assert("staged"@.len() != "dim"@.len()); }
    assert("staged"@ != "modified"@) by { assert("staged"@.len() != "modified"@.len()); }
    assert("staged"@ != "added"@) by { assert("staged"@.len() != "added"@.len()); }
    assert("staged"@ != "deleted"@) by { assert("staged"@.len() != "deleted"@.len()); }
    assert("staged"@ != "renamed"@) by { assert("staged"@.len() != "renamed"@.len()); }
    assert("staged"@ != "typechange"@) by { assert("staged"@.len() != "typechange"@.len()); }
    assert("staged"@ != "untracked"@) by { assert("staged"@.len() != "untracked"@.len()); }
    assert("staged"@ != "ignored"@) by { assert("staged"@.len() != "ignored"@.len()); }
    assert(key_alias("staged"@) == "*"@);
}

} // verus!
