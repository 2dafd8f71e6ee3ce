//! The CSS classes of the shared page layout components.
use vstd::prelude::*;
use crate::text::concat3;

verus! {

/// The kind of a page panel, which sets its class.
#[derive(Clone, Copy, Debug, PartialEq, Eq, Structural)]
pub enum PanelKind {
    Hero,
    Section,
    Code,
    PageTitle,
    Contribute,
}

/// The class of a panel kind.
pub open spec fn spec_panel_class(kind: PanelKind) -> Seq<char> {
    match kind {
        PanelKind::Hero => "hero"@,
        PanelKind::Section => "section-band"@,
        PanelKind::Code => "code-band"@,
        PanelKind::PageTitle => "page-title-band"@,
        PanelKind::Contribute => "contribute-panel"@,
    }
}

impl PanelKind {
    /// The class of panels of this kind.
    pub fn class(self) -> (r: &'static str)
        ensures
            r@ == spec_panel_class(self),
    {
        match self {
            PanelKind::Hero => "hero",
            PanelKind::Section => "section-band",
            PanelKind::Code => "code-band",
            PanelKind::PageTitle => "page-title-band",
            PanelKind::Contribute => "contribute-panel",
        }
    }
}

/// Whether `c` has the Unicode `White_Space` property, which is what `char::is_whitespace`
/// reports: tab through carriage return, space, next line, no-break space, ogham space
/// mark, en quad through hair space, line and paragraph separators, narrow no-break space,
/// medium mathematical space and ideographic space.
pub open spec fn unicode_white_space(c: char) -> bool {
    let n = c as u32;
    ||| 0x9 <= n <= 0xD
    ||| n == 0x20
    ||| n == 0x85
    ||| n == 0xA0
    ||| n == 0x1680
    ||| 0x2000 <= n <= 0x200A
    ||| n == 0x2028
    ||| n == 0x2029
    ||| n == 0x202F
    ||| n == 0x205F
    ||| n == 0x3000
}

/// `char::is_whitespace`: whether `c` has the Unicode `White_Space` property, the set
/// that `unicode_white_space` lists.
#[verifier::external_body]
fn is_whitespace(c: char) -> (r: bool)
    ensures
        r == unicode_white_space(c),
{
    c.is_whitespace()
}

/// `s` is empty once surrounding whitespace is trimmed: every character is whitespace.
pub open spec fn is_blank(s: Seq<char>) -> bool {
    forall|i: int| 0 <= i < s.len() ==> unicode_white_space(#[trigger] s[i])
}

/// The classes `base` and `extra`, separated by a space, or `base` alone when `extra` is
/// blank.
pub open spec fn spec_join_classes(base: Seq<char>, extra: Seq<char>) -> Seq<char> {
    if is_blank(extra) {
        base
    } else {
        base + " "@ + extra
    }
}

/// The classes `base` and `extra` together; `extra` is left out when it is blank.
pub fn join_classes(base: &str, extra: &str) -> (r: String)
    ensures
        r@ == spec_join_classes(base@, extra@),
{
    let n = extra.unicode_len();
    let mut i: usize = 0;
    while i < n
        invariant
            n == extra@.len(),
            i <= n,
            forall|k: int| 0 <= k < i ==> unicode_white_space(#[trigger] extra@[k]),
        decreases n - i,
    {
        if !is_whitespace(extra.get_char(i)) {
            return concat3(base, " ", extra);
        }
        i = i + 1;
    }
    base.to_owned()
}

/// The base class of a grid with the given number of columns.
pub open spec fn spec_grid_base(columns: Option<u8>) -> Seq<char> {
    match columns {
        Some(2) => "grid columns-2"@,
        Some(3) => "grid columns-3"@,
        _ => "grid"@,
    }
}

/// The class of a grid with two or three columns, or of a plain grid, plus `extra`.
pub fn grid_class(columns: Option<u8>, extra: &str) -> (r: String)
    ensures
        r@ == spec_join_classes(spec_grid_base(columns), extra@),
{
    match columns {
        Some(2) => join_classes("grid columns-2", extra),
        Some(3) => join_classes("grid columns-3", extra),
        _ => join_classes("grid", extra),
    }
}

/// The class of a panel of kind `kind` plus `extra`.
pub fn panel_class(kind: PanelKind, extra: &str) -> (r: String)
    ensures
        r@ == spec_join_classes(spec_panel_class(kind), extra@),
{
    join_classes(kind.class(), extra)
}

/// The class of a navigation link, marked when it leads to the current page.
pub fn nav_link_class(active: bool) -> (r: &'static str)
    ensures
        r@ == if active {
            "header-nav-item is-active"@
        } else {
            "header-nav-item"@
        },
{
    if active {
        "header-nav-item is-active"
    } else {
        "header-nav-item"
    }
}

/// The class of a button link of the given variant.
pub fn button_link_class(variant: &str) -> (r: String)
    ensures
        r@ == "button-link "@ + variant@,
{
    let mut r = "button-link ".to_owned();
    r.append(variant);
    r
}

/// The class of an option of the language switcher, marked when it is the selected one.
pub fn locale_option_class(active: bool) -> (r: &'static str)
    ensures
        r@ == if active {
            "header-locale-option is-active"@
        } else {
            "header-locale-option"@
        },
{
    if active {
        "header-locale-option is-active"
    } else {
        "header-locale-option"
    }
}

} // verus!
