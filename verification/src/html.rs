//! Reading HTML documents through `scraper`, into plain values.
use vstd::prelude::*;

use scraper::{ElementRef, Html, Selector};

verus! {

/// What the library reads of one element: one of its attributes and its
/// text nodes.
#[derive(Debug, Clone)]
pub struct HtmlNode {
    /// The requested attribute, when the element has it.
    pub attr: Option<String>,
    /// The element's descendant text nodes, in document order.
    pub text: Vec<String>,
}

/// The view of an element read: its attribute and text nodes.
pub type HtmlNodeView = (Option<Seq<char>>, Seq<Seq<char>>);

impl View for HtmlNode {
    type V = HtmlNodeView;

    open spec fn view(&self) -> HtmlNodeView {
        (self.attr.deep_view(), self.text.deep_view())
    }
}

/// What the library reads of one element matched in a document: one of its
/// attributes, and for each inner selector its first matching descendant.
#[derive(Debug, Clone)]
pub struct HtmlItem {
    /// The requested attribute, when the element has it.
    pub attr: Option<String>,
    /// For each inner selector, the first descendant that matches it, if any.
    pub inner: Vec<Option<HtmlNode>>,
}

/// The view of a matched element: its attribute and inner elements.
pub type HtmlItemView = (Option<Seq<char>>, Seq<Option<HtmlNodeView>>);

/// The views of optional elements.
pub open spec fn nodes_view(v: Seq<Option<HtmlNode>>) -> Seq<Option<HtmlNodeView>> {
    v.map_values(|o: Option<HtmlNode>| match o {
        Some(n) => Some(n@),
        None => None,
    })
}

impl View for HtmlItem {
    type V = HtmlItemView;

    open spec fn view(&self) -> HtmlItemView {
        (self.attr.deep_view(), nodes_view(self.inner@))
    }
}

/// The views of a list of matched elements.
pub open spec fn items_view(v: Seq<HtmlItem>) -> Seq<HtmlItemView> {
    v.map_values(|i: HtmlItem| i@)
}

/// What `scraper` reads from `html` (`Html::parse_document`): for every
/// element matching `item_selector`, in document order, its attribute `attr`
/// and, for each of `inner`, its first descendant matching that selector
/// (with that descendant's attribute `attr` and text nodes); `None` when one
/// of the selectors does not parse.
pub uninterp spec fn html_items(
    html: Seq<char>,
    item_selector: Seq<char>,
    attr: Seq<char>,
    inner: Seq<Seq<char>>,
) -> Option<Seq<HtmlItemView>>;

/// The text of an element: its text nodes concatenated.
pub open spec fn node_text(texts: Seq<Seq<char>>) -> Seq<char>
    decreases texts.len(),
{
    if texts.len() == 0 {
        Seq::empty()
    } else {
        node_text(texts.drop_last()) + texts.last()
    }
}

/// The text nodes of an element, concatenated.
pub fn concat_text(texts: &Vec<String>) -> (r: String)
    ensures
        r@ == node_text(texts.deep_view()),
{
    let ghost d = texts.deep_view();
    let mut out = String::new();
    let mut i: usize = 0;
    while i < texts.len()
        invariant
            i <= texts.len(),
            d == texts.deep_view(),
            out@ == node_text(d.take(i as int)),
        decreases texts.len() - i,
    {
        assert(d.take(i + 1).drop_last() =~= d.take(i as int));
        assert(d.take(i + 1).last() == texts@[i as int]@);
        out.append(texts[i].as_str());
        i += 1;
    }
    assert(d.take(texts.len() as int) =~= d);
    out
}

/// The text nodes of an element joined with single spaces.
pub fn join_text(texts: &Vec<String>) -> (r: String)
    ensures
        r@ == crate::links::join_with(texts.deep_view(), seq![' ']),
{
    let ghost d = texts.deep_view();
    let mut out = String::new();
    let mut i: usize = 0;
    while i < texts.len()
        invariant
            i <= texts.len(),
            d == texts.deep_view(),
            out@ == crate::links::join_with(d.take(i as int), seq![' ']),
        decreases texts.len() - i,
    {
        assert(d.take(i + 1).drop_last() =~= d.take(i as int));
        assert(d.take(i + 1).last() == texts@[i as int]@);
        if i > 0 {
            crate::text::push_char(&mut out, ' ');
        } else {
            assert(d.take(0) =~= Seq::<Seq<char>>::empty());
            assert(d.take(1)[0] == texts@[0]@);
        }
        out.append(texts[i].as_str());
        i += 1;
    }
    assert(d.take(texts.len() as int) =~= d);
    out
}

/// The texts of a list of string slices.
pub open spec fn selectors_view(v: Seq<&str>) -> Seq<Seq<char>> {
    v.map_values(|s: &str| s@)
}

/// Parses `html` with `Html::parse_document` and reads each element that
/// `item_selector` matches, as `html_items` names it.
#[verifier::external_body]
pub(crate) fn select_items(html: &str, item_selector: &str, attr: &str, inner: &[&str]) -> (r: Option<Vec<HtmlItem>>)
    ensures
        match r {
            Some(v) => html_items(html@, item_selector@, attr@, selectors_view(inner@)) == Some(items_view(v@)),
            None => html_items(html@, item_selector@, attr@, selectors_view(inner@)) is None,
        },
        r matches Some(v) ==> forall|i: int| 0 <= i < v.len() ==> (#[trigger] v@[i]).inner.len() == inner.len(),
{
    let item_sel = Selector::parse(item_selector).ok()?;
    let inner_sels: Vec<Selector> = inner.iter().map(|s| Selector::parse(s).ok()).collect::<Option<_>>()?;
    let doc = Html::parse_document(html);
    let node = |e: ElementRef| HtmlNode { attr: e.attr(attr).map(str::to_owned), text: e.text().map(str::to_owned).collect() };
    Some(doc.select(&item_sel).map(|el| HtmlItem {
        attr: el.attr(attr).map(str::to_owned),
        inner: inner_sels.iter().map(|s| el.select(s).next().map(node)).collect(),
    }).collect())
}

} // verus!
