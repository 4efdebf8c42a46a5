//! What is read off an HTML page: the elements that a CSS selector matches,
//! their attributes and their text.
use scraper::{ElementRef, Html, Selector};
use vstd::prelude::*;
use vstd::string::*;
use crate::text::{join, joined, lemma_joined_both, trim, trimmed};

verus! {

/// What is read of one element: the attributes that were asked for, in the
/// order in which they were asked for, and its text nodes in their order.
pub struct Element {
    pub attrs: Vec<Option<String>>,
    pub texts: Vec<String>,
}

/// The attributes and the text nodes of an element.
pub type ElementView = (Seq<Option<Seq<char>>>, Seq<Seq<char>>);

impl DeepView for Element {
    type V = ElementView;

    open spec fn deep_view(&self) -> Self::V {
        (self.attrs.deep_view(), self.texts.deep_view())
    }
}

/// The length up to which selectors are parsed.
pub const SELECTOR_LIMIT: usize = 1000;

/// What is read of the elements of a page that match a selector; nothing where
/// the selector is not one.
pub uninterp spec fn selected(
    html: Seq<char>,
    selector: Seq<char>,
    attrs: Seq<Seq<char>>,
) -> Option<Seq<(Seq<Option<Seq<char>>>, Seq<Seq<char>>)>>;

/// For each element of a page that matches `outer`, and for each of the `inner`
/// selectors, what is read of the elements below it that match; nothing where
/// one of the selectors is not one.
pub uninterp spec fn selected_below(
    html: Seq<char>,
    outer: Seq<char>,
    inner: Seq<Seq<char>>,
    attrs: Seq<Seq<char>>,
) -> Option<Seq<Seq<Seq<(Seq<Option<Seq<char>>>, Seq<Seq<char>>)>>>>;

/// `scraper`: the page parsed by `Html::parse_document`, the selector by
/// `Selector::parse`, the elements from `Html::select` in its order, and of each
/// `ElementRef::attr` for every name and all of `ElementRef::text`. The outcome
/// is a function of the three arguments; nothing comes back for a selector that
/// does not parse. Longer selectors are left out: the parser calls itself for
/// each level of nesting.
#[verifier::external_body]
fn select(html: &str, selector: &str, attrs: &[&str]) -> (r: Option<Vec<Element>>)
    requires
        selector@.len() <= SELECTOR_LIMIT,
    ensures
        r.deep_view() == selected(html@, selector@, attrs.deep_view()),
{
    let selector = Selector::parse(selector).ok()?;
    let page = Html::parse_document(html);
    let read = |e: ElementRef| Element {
        attrs: attrs.iter().map(|a| e.attr(a).map(str::to_string)).collect(),
        texts: e.text().map(str::to_string).collect(),
    };
    Some(page.select(&selector).map(read).collect())
}

/// `scraper`, as in `select`, with `ElementRef::select` for every inner selector
/// on every element that `Html::select` gives for the outer one.
#[verifier::external_body]
fn select_below(html: &str, outer: &str, inner: &[&str], attrs: &[&str]) -> (r: Option<
    Vec<Vec<Vec<Element>>>,
>)
    requires
        outer@.len() <= SELECTOR_LIMIT,
        forall|i: int| 0 <= i < inner@.len() ==> (#[trigger] inner@[i])@.len() <= SELECTOR_LIMIT,
    ensures
        r.deep_view() == selected_below(html@, outer@, inner.deep_view(), attrs.deep_view()),
{
    let outer = Selector::parse(outer).ok()?;
    let parse = |s: &&str| Selector::parse(s).ok();
    let inner: Vec<_> = inner.iter().map(parse).collect::<Option<_>>()?;
    let page = Html::parse_document(html);
    let read = |e: ElementRef| Element {
        attrs: attrs.iter().map(|a| e.attr(a).map(str::to_string)).collect(),
        texts: e.text().map(str::to_string).collect(),
    };
    let below = |e: ElementRef| {
        inner.iter().map(|s| e.select(s).map(read).collect()).collect()
    };
    Some(page.select(&outer).map(below).collect())
}

/// What is read of the elements that match a selector: none where the selector
/// is not one.
pub open spec fn found(html: Seq<char>, selector: Seq<char>, attrs: Seq<Seq<char>>) -> Seq<
    ElementView,
> {
    match selected(html, selector, attrs) {
        Some(elements) => elements,
        None => seq![],
    }
}

pub open spec fn found_below(
    html: Seq<char>,
    outer: Seq<char>,
    inner: Seq<Seq<char>>,
    attrs: Seq<Seq<char>>,
) -> Seq<Seq<Seq<ElementView>>> {
    match selected_below(html, outer, inner, attrs) {
        Some(elements) => elements,
        None => seq![],
    }
}

/// The elements of the page that match the selector.
pub fn find(html: &str, selector: &str, attrs: &[&str]) -> (r: Vec<Element>)
    requires
        selector@.len() <= SELECTOR_LIMIT,
    ensures
        r.deep_view() == found(html@, selector@, attrs.deep_view()),
{
    match select(html, selector, attrs) {
        Some(elements) => elements,
        None => {
            let none: Vec<Element> = Vec::new();
            assert(none.deep_view() =~= seq![]);
            none
        },
    }
}

/// For each element of the page that matches `outer`, the elements below it
/// that match each of the `inner` selectors.
pub fn find_below(html: &str, outer: &str, inner: &[&str], attrs: &[&str]) -> (r: Vec<
    Vec<Vec<Element>>,
>)
    requires
        outer@.len() <= SELECTOR_LIMIT,
        forall|i: int| 0 <= i < inner@.len() ==> (#[trigger] inner@[i])@.len() <= SELECTOR_LIMIT,
    ensures
        r.deep_view() == found_below(html@, outer@, inner.deep_view(), attrs.deep_view()),
{
    match select_below(html, outer, inner, attrs) {
        Some(elements) => elements,
        None => {
            let none: Vec<Vec<Vec<Element>>> = Vec::new();
            assert(none.deep_view() =~= seq![]);
            none
        },
    }
}

/// The value of the attribute that was asked for at place `k`.
pub open spec fn attr_of(e: ElementView, k: int) -> Option<Seq<char>> {
    if 0 <= k < e.0.len() {
        e.0[k]
    } else {
        None
    }
}

/// The first text node of an element.
pub open spec fn first_text(e: ElementView) -> Option<Seq<char>> {
    if e.1.len() > 0 {
        Some(e.1[0])
    } else {
        None
    }
}

/// The attribute at place `k` of the first element.
pub open spec fn first_attr(elements: Seq<ElementView>, k: int) -> Option<Seq<char>> {
    if elements.len() > 0 {
        attr_of(elements[0], k)
    } else {
        None
    }
}

/// The first text node of the first element.
pub open spec fn leading_text(elements: Seq<ElementView>) -> Option<Seq<char>> {
    if elements.len() > 0 {
        first_text(elements[0])
    } else {
        None
    }
}

/// The first text node of every element that has one.
pub open spec fn first_texts(elements: Seq<ElementView>) -> Seq<Seq<char>>
    decreases elements.len(),
{
    if elements.len() == 0 {
        seq![]
    } else {
        let before = first_texts(elements.drop_last());
        match first_text(elements.last()) {
            Some(text) => before.push(text),
            None => before,
        }
    }
}

impl Element {
    /// The value of the attribute that was asked for at place `k`.
    pub fn attr(&self, k: usize) -> (r: Option<String>)
        ensures
            r.deep_view() == attr_of(self.deep_view(), k as int),
    {
        if k < self.attrs.len() {
            match &self.attrs[k] {
                Some(value) => Some(value.clone()),
                None => None,
            }
        } else {
            None
        }
    }

    /// The first text node.
    pub fn text(&self) -> (r: Option<String>)
        ensures
            r.deep_view() == first_text(self.deep_view()),
    {
        if self.texts.len() > 0 {
            Some(self.texts[0].clone())
        } else {
            None
        }
    }
}

/// The attribute at place `k` of the first element.
pub fn attr_of_first(elements: &Vec<Element>, k: usize) -> (r: Option<String>)
    ensures
        r.deep_view() == first_attr(elements.deep_view(), k as int),
{
    if elements.len() > 0 {
        elements[0].attr(k)
    } else {
        None
    }
}

/// The first text node of the first element.
pub fn text_of_first(elements: &Vec<Element>) -> (r: Option<String>)
    ensures
        r.deep_view() == leading_text(elements.deep_view()),
{
    if elements.len() > 0 {
        elements[0].text()
    } else {
        None
    }
}

/// The first text node of every element that has one.
pub fn texts_of(elements: &Vec<Element>) -> (r: Vec<String>)
    ensures
        r.deep_view() == first_texts(elements.deep_view()),
{
    let mut out: Vec<String> = Vec::new();
    let mut i: usize = 0;
    let ghost all = elements.deep_view();
    assert(out.deep_view() =~= first_texts(all.subrange(0, 0)));
    while i < elements.len()
        invariant
            all == elements.deep_view(),
            i <= elements.len(),
            out.deep_view() == first_texts(all.subrange(0, i as int)),
        decreases elements.len() - i,
    {
        let ghost before = out.deep_view();
        proof {
            let next = all.subrange(0, i + 1);
            assert(next.drop_last() =~= all.subrange(0, i as int));
            assert(next.last() == elements[i as int].deep_view());
        }
        if let Some(text) = elements[i].text() {
            out.push(text);
            assert(out.deep_view() =~= before.push(text@));
        }
        i = i + 1;
    }
    assert(all.subrange(0, all.len() as int) =~= all);
    out
}

/// The first text node of the first element that matches the selector.
pub open spec fn text_at(html: Seq<char>, selector: Seq<char>) -> Option<Seq<char>> {
    leading_text(found(html, selector, seq![]))
}

/// The first text node of the first element that matches the selector.
pub fn read_text_at(html: &str, selector: &str) -> (r: Option<String>)
    requires
        selector@.len() <= SELECTOR_LIMIT,
    ensures
        r.deep_view() == text_at(html@, selector@),
{
    let elements: Vec<Element> = find_texts(html, selector);
    text_of_first(&elements)
}

/// The elements that match the selector, with their text nodes alone.
pub fn find_texts(html: &str, selector: &str) -> (r: Vec<Element>)
    requires
        selector@.len() <= SELECTOR_LIMIT,
    ensures
        r.deep_view() == found(html@, selector@, seq![]),
{
    let none: [&str; 0] = [];
    assert(none.deep_view() =~= seq![]);
    find(html, selector, &none)
}

/// The messages of a page's error panel, one a line; none where it has none.
pub open spec fn error_message(panels: Seq<ElementView>) -> Option<Seq<char>> {
    let texts = first_texts(panels);
    if texts.len() == 0 {
        None
    } else {
        Some(joined(texts.map_values(|t: Seq<char>| trimmed(t)), "\n"@))
    }
}

/// The messages of the error panels, each trimmed, one a line.
pub fn errors_in(panels: &Vec<Element>) -> (r: Option<String>)
    ensures
        r.deep_view() == error_message(panels.deep_view()),
{
    let texts: Vec<String> = texts_of(panels);
    if texts.len() == 0 {
        return None;
    }
    Some(join(&trim_all(&texts), "\n"))
}

/// Every text without white space at its ends.
pub fn trim_all(texts: &Vec<String>) -> (r: Vec<String>)
    ensures
        r.deep_view() == texts.deep_view().map_values(|t: Seq<char>| trimmed(t)),
{
    let mut out: Vec<String> = Vec::new();
    let mut i: usize = 0;
    while i < texts.len()
        invariant
            i <= texts.len(),
            out.len() == i,
            forall|j: int| 0 <= j < i ==> (#[trigger] out@[j])@ == trimmed(texts@[j]@),
        decreases texts.len() - i,
    {
        out.push(trim(texts[i].as_str()).to_string());
        i = i + 1;
    }
    assert(out.deep_view() =~= texts.deep_view().map_values(|t: Seq<char>| trimmed(t)));
    out
}

/// The error that a page shows, if it shows one.
pub fn parse_error(page: &str) -> (r: Option<String>)
    ensures
        r.deep_view() == error_message(found(page@, "span.feedbackPanelERROR"@, seq![])),
{
    proof {
        reveal_strlit("span.feedbackPanelERROR");
    }
    errors_in(&find_texts(page, "span.feedbackPanelERROR"))
}

/// The page, or in its place the error that it shows.
pub fn page_unless(page: String, error: Option<String>) -> (r: Result<String, String>)
    ensures
        match error {
            Some(message) => r == Result::<String, String>::Err(message),
            None => r == Result::<String, String>::Ok(page),
        },
{
    match error {
        Some(message) => Err(message),
        None => Ok(page),
    }
}

/// The page, or in its place the error that it shows.
pub fn page_or_error(page: String) -> (r: Result<String, String>)
    ensures
        match error_message(found(page@, "span.feedbackPanelERROR"@, seq![])) {
            Some(message) => {
                &&& r matches Err(e)
                &&& e@ == message
            },
            None => r == Result::<String, String>::Ok(page),
        },
        r is Err <==> error_message(found(page@, "span.feedbackPanelERROR"@, seq![])) is Some,
{
    let error: Option<String> = parse_error(page.as_str());
    page_unless(page, error)
}

/// Whether the page shows a booking code.
pub fn has_booking_result(page: &str) -> (r: bool)
    ensures
        r == (found(page@, "p.pnr-code span"@, seq![]).len() > 0),
{
    proof {
        reveal_strlit("p.pnr-code span");
    }
    find_texts(page, "p.pnr-code span").len() > 0
}

/// The texts of two lists of elements, one behind the other, are those of the
/// whole; an element gives its first text, and without any it gives none.
pub proof fn first_texts_are_taken_in_order(
    a: Seq<ElementView>,
    b: Seq<ElementView>,
    attrs: Seq<Option<Seq<char>>>,
    text: Seq<char>,
    more: Seq<Seq<char>>,
)
    ensures
        first_texts(a + b) == first_texts(a) + first_texts(b),
        first_texts(seq![(attrs, seq![text] + more)]) == seq![text],
        first_texts(seq![(attrs, seq![])]) == Seq::<Seq<char>>::empty(),
    decreases b.len(),
{
    let none = Seq::<ElementView>::empty();
    assert(seq![(attrs, seq![text] + more)].drop_last() =~= none);
    assert(first_texts(none) =~= seq![]);
    assert(first_texts(seq![(attrs, seq![text] + more)]) =~= seq![text]);
    let silent: ElementView = (attrs, seq![]);
    assert(seq![silent].drop_last() =~= none);
    assert(first_text(silent) is None);
    assert(first_texts(seq![silent]) =~= seq![]);
    if b.len() == 0 {
        assert(a + b =~= a);
        assert(first_texts(a) + first_texts(b) =~= first_texts(a));
    } else {
        first_texts_are_taken_in_order(a, b.drop_last(), attrs, text, more);
        assert((a + b).drop_last() =~= a + b.drop_last());
        assert((a + b).last() == b.last());
        assert(first_texts(a + b) =~= first_texts(a) + first_texts(b));
    }
}

/// A panel with a text is an error, its first text, trimmed. The errors of two
/// lists of panels stand on lines of their own, and a list without texts adds
/// none.
pub proof fn errors_are_told_line_by_line(
    a: Seq<ElementView>,
    b: Seq<ElementView>,
    attrs: Seq<Option<Seq<char>>>,
    text: Seq<char>,
    more: Seq<Seq<char>>,
)
    ensures
        error_message(seq![]) is None,
        error_message(seq![(attrs, seq![])]) is None,
        error_message(seq![(attrs, seq![text] + more)]) == Some(trimmed(text)),
        error_message(a + b) == (match (error_message(a), error_message(b)) {
            (Some(x), Some(y)) => Some(x + seq!['\n'] + y),
            (Some(x), None) => Some(x),
            (None, y) => y,
        }),
{
    reveal_strlit("\n");
    assert("\n"@ =~= seq!['\n']);
    let f = |t: Seq<char>| trimmed(t);
    first_texts_are_taken_in_order(a, b, attrs, text, more);
    let (x, y) = (first_texts(a), first_texts(b));
    assert(first_texts(seq![]) =~= seq![]);
    assert(seq![text].map_values(f) =~= seq![trimmed(text)]);
    assert((x + y).map_values(f) =~= x.map_values(f) + y.map_values(f));
    if x.len() > 0 && y.len() > 0 {
        lemma_joined_both(x.map_values(f), y.map_values(f), "\n"@);
    } else if x.len() == 0 {
        assert(x + y =~= y);
    } else {
        assert(x + y =~= x);
    }
}

/// Attributes and texts are read off the first element, whatever follows it.
pub proof fn first_element_is_read(
    attrs: Seq<Option<Seq<char>>>,
    texts: Seq<Seq<char>>,
    more: Seq<ElementView>,
    k: int,
)
    ensures
        first_attr(seq![], k) is None,
        leading_text(seq![]) is None,
        first_attr(seq![(attrs, texts)] + more, k) == (if 0 <= k < attrs.len() {
            attrs[k]
        } else {
            None
        }),
        leading_text(seq![(attrs, texts)] + more) == (if texts.len() > 0 {
            Some(texts[0])
        } else {
            None
        }),
{
    let e: ElementView = (attrs, texts);
    assert((seq![e] + more)[0] == e);
}

/// All that is selected is found, in its order, and nothing where the selector
/// is none.
pub proof fn all_that_is_selected_is_found(
    html: Seq<char>,
    selector: Seq<char>,
    inner: Seq<Seq<char>>,
    attrs: Seq<Seq<char>>,
)
    ensures
        selected(html, selector, attrs) matches Some(elements) ==> found(html, selector, attrs)
            == elements,
        selected(html, selector, attrs) is None ==> found(html, selector, attrs).len() == 0,
        selected_below(html, selector, inner, attrs) matches Some(elements) ==> found_below(
            html,
            selector,
            inner,
            attrs,
        ) == elements,
        selected_below(html, selector, inner, attrs) is None ==> found_below(
            html,
            selector,
            inner,
            attrs,
        ).len() == 0,
{
}

} // verus!
