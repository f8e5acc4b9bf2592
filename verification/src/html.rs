//! Elements of HTML pages.

use scraper::{ElementRef, Html, Selector};
use vstd::prelude::*;

use crate::text;

verus! {

/// An element: its name, the text in it, and the values of the attributes that
/// were asked for, in the order in which they were.
pub struct Element {
    pub name: String,
    pub text: String,
    pub attrs: Vec<Option<String>>,
}

/// An element.
pub struct ElementView {
    pub name: Seq<char>,
    pub text: Seq<char>,
    pub attrs: Seq<Option<Seq<char>>>,
}

impl View for Element {
    type V = ElementView;

    open spec fn view(&self) -> ElementView {
        ElementView {
            name: self.name@,
            text: self.text@,
            attrs: Seq::new(self.attrs@.len(), |i: int| text::text_view(self.attrs@[i])),
        }
    }
}

/// Some elements.
pub open spec fn element_views(v: Seq<Element>) -> Seq<ElementView> {
    Seq::new(v.len(), |i: int| v[i]@)
}

/// An element of a page, its own markup, and for each selector that was asked for
/// the elements in it that the selector matches.
pub struct Card {
    pub element: Element,
    pub markup: String,
    pub parts: Vec<Vec<Element>>,
}

/// An element of a page with the elements in it.
pub struct CardView {
    pub element: ElementView,
    pub markup: Seq<char>,
    pub parts: Seq<Seq<ElementView>>,
}

impl View for Card {
    type V = CardView;

    open spec fn view(&self) -> CardView {
        CardView {
            element: self.element@,
            markup: self.markup@,
            parts: Seq::new(self.parts@.len(), |i: int| element_views(self.parts@[i]@)),
        }
    }
}

/// Some cards.
pub open spec fn card_views(v: Seq<Card>) -> Seq<CardView> {
    Seq::new(v.len(), |i: int| v[i]@)
}

/// Some string slices.
pub open spec fn slices(v: Seq<&str>) -> Seq<Seq<char>> {
    Seq::new(v.len(), |i: int| v[i]@)
}

/// The elements of a page that a selector matches, in document order, with the
/// elements in each that further selectors match and the attributes asked for.
pub uninterp spec fn page_cards(
    page: Seq<char>,
    selector: Seq<char>,
    parts: Seq<Seq<char>>,
    attrs: Seq<Seq<char>>,
) -> Seq<CardView>;

/// Calls `scraper::Html::parse_document` and `select`, on the document for the
/// cards and on each card for its parts, and reads the name, the text, the
/// markup and the attributes of what they give. A selector that is none matches
/// nothing. Left unsaid is how a page is read.
#[verifier::external_body]
pub(crate) fn select(page: &str, selector: &str, parts: &[&str], attrs: &[&str]) -> (r: Vec<Card>)
    ensures
        card_views(r@) == page_cards(page@, selector@, slices(parts@), slices(attrs@)),
{
    let document = Html::parse_document(page);
    let read = |e: ElementRef<'_>| Element {
        name: e.value().name().to_string(),
        text: e.text().collect(),
        attrs: attrs.iter().map(|a| e.attr(a).map(str::to_string)).collect(),
    };
    Selector::parse(selector).iter().flat_map(|s| document.select(s)).map(|e| Card {
        element: read(e),
        markup: e.html(),
        parts: parts.iter().map(
            |p| Selector::parse(p).iter().flat_map(|s| e.select(s)).map(read).collect(),
        ).collect(),
    }).collect()
}

/// The elements around an element, from the inside out, as far as they are
/// elements.
pub struct Nested {
    pub text: String,
    pub around: Vec<Option<Outer>>,
}

/// An element around another.
pub struct Outer {
    pub name: String,
    pub text: String,
    pub markup: String,
}

/// An element around another.
pub struct OuterView {
    pub name: Seq<char>,
    pub text: Seq<char>,
    pub markup: Seq<char>,
}

/// An element with the elements around it.
pub struct NestedView {
    pub text: Seq<char>,
    pub around: Seq<Option<OuterView>>,
}

impl View for Outer {
    type V = OuterView;

    open spec fn view(&self) -> OuterView {
        OuterView { name: self.name@, text: self.text@, markup: self.markup@ }
    }
}

/// An element around another, where there is one.
pub open spec fn outer_view(o: Option<Outer>) -> Option<OuterView> {
    match o {
        Some(o) => Some(o@),
        None => None,
    }
}

impl View for Nested {
    type V = NestedView;

    open spec fn view(&self) -> NestedView {
        NestedView {
            text: self.text@,
            around: Seq::new(self.around@.len(), |i: int| outer_view(self.around@[i])),
        }
    }
}

/// Some nested elements.
pub open spec fn nested_views(v: Seq<Nested>) -> Seq<NestedView> {
    Seq::new(v.len(), |i: int| v[i]@)
}

/// The elements of a page that a selector matches, in document order, each with
/// up to `levels` of the nodes around it.
pub uninterp spec fn page_nested(page: Seq<char>, selector: Seq<char>, levels: nat) -> Seq<
    NestedView,
>;

/// Calls `scraper::Html::parse_document` and `select`, and for each element
/// `ancestors`, of which the nearest are read where they are elements. A selector
/// that is none matches nothing. Left unsaid is how a page is read.
#[verifier::external_body]
pub(crate) fn select_nested(page: &str, selector: &str, levels: usize) -> (r: Vec<Nested>)
    ensures
        nested_views(r@) == page_nested(page@, selector@, levels as nat),
        forall|i: int| 0 <= i < r@.len() ==> (#[trigger] r@[i]).around@.len() <= levels,
{
    let document = Html::parse_document(page);
    let outer = |e: ElementRef<'_>| Outer {
        name: e.value().name().to_string(), text: e.text().collect(), markup: e.html(),
    };
    Selector::parse(selector).map_or(Vec::new(), |s| document.select(&s).map(|e| Nested {
        text: e.text().collect(),
        around: e.ancestors().take(levels).map(|n| ElementRef::wrap(n).map(outer)).collect(),
    }).collect())
}

/// The values of an attribute of the elements of a piece of markup that a
/// selector matches, in document order.
pub uninterp spec fn fragment_attrs(
    markup: Seq<char>,
    selector: Seq<char>,
    attr: Seq<char>,
) -> Seq<Option<Seq<char>>>;

/// Some texts that may be missing.
pub open spec fn optional_texts(v: Seq<Option<String>>) -> Seq<Option<Seq<char>>> {
    Seq::new(v.len(), |i: int| text::text_view(v[i]))
}

/// Calls `Html::parse_fragment` and `select`, and reads one attribute of
/// what they give. A selector that is none matches nothing. Left unsaid is how
/// markup is read.
#[verifier::external_body]
pub(crate) fn select_attr(markup: &str, selector: &str, attr: &str) -> (r: Vec<Option<String>>)
    ensures
        optional_texts(r@) == fragment_attrs(markup@, selector@, attr@),
{
    let fragment = Html::parse_fragment(markup);
    Selector::parse(selector).map_or(
        Vec::new(),
        |s| fragment.select(&s).map(|e| e.value().attr(attr).map(str::to_string)).collect(),
    )
}

// ---- Parts of cards ----

/// The first element in a card that its `k`-th selector matches.
pub open spec fn first_part(c: CardView, k: int) -> Option<ElementView> {
    if 0 <= k < c.parts.len() && c.parts[k].len() > 0 {
        Some(c.parts[k][0])
    } else {
        None
    }
}

/// The value of the `k`-th attribute of an element.
pub open spec fn attr_of(e: ElementView, k: int) -> Option<Seq<char>> {
    if 0 <= k < e.attrs.len() {
        e.attrs[k]
    } else {
        None
    }
}

/// The text of an element that may be missing.
pub open spec fn text_in(e: Option<ElementView>) -> Option<Seq<char>> {
    match e {
        Some(e) => Some(e.text),
        None => None,
    }
}

/// The value of the `k`-th attribute of an element that may be missing.
pub open spec fn attr_in(e: Option<ElementView>, k: int) -> Option<Seq<char>> {
    match e {
        Some(e) => attr_of(e, k),
        None => None,
    }
}

/// The first element in a card that its `k`-th selector matches.
pub fn part<'a>(c: &'a Card, k: usize) -> (r: Option<&'a Element>)
    ensures
        match r {
            Some(e) => first_part(c@, k as int) == Some(e@),
            None => first_part(c@, k as int) is None,
        },
{
    if k < c.parts.len() && c.parts[k].len() > 0 {
        assert(c@.parts[k as int][0] == c.parts@[k as int]@[0]@);
        Some(&c.parts[k][0])
    } else {
        None
    }
}

/// The value of the `k`-th attribute of an element.
pub fn attr(e: &Element, k: usize) -> (r: Option<String>)
    ensures
        text::text_view(r) == attr_of(e@, k as int),
{
    if k < e.attrs.len() {
        match &e.attrs[k] {
            Some(s) => Some(s.clone()),
            None => None,
        }
    } else {
        None
    }
}

/// The text of the first element in a card that its `k`-th selector matches.
pub fn part_text(c: &Card, k: usize) -> (r: Option<String>)
    ensures
        text::text_view(r) == text_in(first_part(c@, k as int)),
{
    match part(c, k) {
        Some(e) => Some(e.text.clone()),
        None => None,
    }
}

/// An attribute of the first element in a card that its `k`-th selector matches.
pub fn part_attr(c: &Card, k: usize, a: usize) -> (r: Option<String>)
    ensures
        text::text_view(r) == attr_in(first_part(c@, k as int), a as int),
{
    match part(c, k) {
        Some(e) => attr(e, a),
        None => None,
    }
}

} // verus!
