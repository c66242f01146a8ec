//! The trusted boundary to the `scraper` crate: locating listing nodes in a
//! page's markup and reading the raw texts that the extraction rules use.
//!
//! Each query's result is a pure function of the given texts, so it carries
//! an uninterpreted name; the verified extraction logic works on the plain
//! values the queries hand back.

use vstd::prelude::*;

verus! {

/// The outer-HTML fragments of the elements of `markup` matching `selector`,
/// in document order.
pub uninterp spec fn fragments_of(markup: Seq<char>, selector: Seq<char>) -> Seq<Seq<char>>;

/// The `attr` attribute of the first element of `fragment` matching
/// `selector`, if both exist.
pub uninterp spec fn first_attr_of(
    fragment: Seq<char>,
    selector: Seq<char>,
    attr: Seq<char>,
) -> Option<Seq<char>>;

/// The `n`-th text segment of the first element of `fragment` matching
/// `selector`, if both exist.
pub uninterp spec fn nth_text_of(fragment: Seq<char>, selector: Seq<char>, n: int) -> Option<
    Seq<char>,
>;

/// The inner HTML of the first element of `fragment` matching `selector`,
/// if one exists.
pub uninterp spec fn inner_html_of(fragment: Seq<char>, selector: Seq<char>) -> Option<Seq<char>>;

/// Relies on `scraper::Html::parse_document`, `scraper::Selector::parse` and
/// `scraper::ElementRef::html`: the matched elements' fragments depend on the
/// two texts alone and come in document order. An unparsable selector
/// matches nothing.
#[verifier::external_body]
fn select_fragments(markup: &str, selector: &str) -> (r: Vec<String>)
    ensures
        r.deep_view() == fragments_of(markup@, selector@),
{
    match scraper::Selector::parse(selector) {
        Err(_) => Vec::new(),
        Ok(sel) => {
            let doc = scraper::Html::parse_document(markup);
            let r = doc.select(&sel).map(|el| el.html()).collect();
            r
        },
    }
}

/// Relies on `scraper::Html::parse_fragment`, `scraper::Selector::parse` and
/// `scraper::ElementRef::attr`: the attribute's value depends on the given
/// texts alone. An unparsable selector matches nothing.
#[verifier::external_body]
fn select_first_attr(fragment: &str, selector: &str, attr: &str) -> (r: Option<String>)
    ensures
        r.deep_view() == first_attr_of(fragment@, selector@, attr@),
{
    let sel = scraper::Selector::parse(selector).ok()?;
    let doc = scraper::Html::parse_fragment(fragment);
    let el = doc.select(&sel).next()?;
    el.attr(attr).map(String::from)
}

/// Relies on `scraper::Html::parse_fragment`, `scraper::Selector::parse` and
/// `scraper::ElementRef::text`: the text segment depends on the given texts
/// alone. An unparsable selector matches nothing.
#[verifier::external_body]
fn select_nth_text(fragment: &str, selector: &str, n: usize) -> (r: Option<String>)
    ensures
        r.deep_view() == nth_text_of(fragment@, selector@, n as int),
{
    let sel = scraper::Selector::parse(selector).ok()?;
    let doc = scraper::Html::parse_fragment(fragment);
    let el = doc.select(&sel).next()?;
    el.text().nth(n).map(String::from)
}

/// Relies on `scraper::Html::parse_fragment`, `scraper::Selector::parse` and
/// `scraper::ElementRef::inner_html`: the inner HTML depends on the given
/// texts alone. An unparsable selector matches nothing.
#[verifier::external_body]
fn select_inner_html(fragment: &str, selector: &str) -> (r: Option<String>)
    ensures
        r.deep_view() == inner_html_of(fragment@, selector@),
{
    let sel = scraper::Selector::parse(selector).ok()?;
    let doc = scraper::Html::parse_fragment(fragment);
    let el = doc.select(&sel).next()?;
    Some(el.inner_html())
}

/// The raw texts one listing node yields for each extraction rule, before
/// any trimming or fallback is applied.
pub struct ListingNode {
    pub image_src: Option<String>,
    pub category_text: Option<String>,
    pub brand_html: Option<String>,
    pub title_text: Option<String>,
    pub shortname_text: Option<String>,
    pub price_text: Option<String>,
    pub discount_text: Option<String>,
}

/// The mathematical content of a `ListingNode`.
#[verifier::ext_equal]
pub ghost struct NodeView {
    pub image_src: Option<Seq<char>>,
    pub category_text: Option<Seq<char>>,
    pub brand_html: Option<Seq<char>>,
    pub title_text: Option<Seq<char>>,
    pub shortname_text: Option<Seq<char>>,
    pub price_text: Option<Seq<char>>,
    pub discount_text: Option<Seq<char>>,
}

impl View for ListingNode {
    type V = NodeView;

    open spec fn view(&self) -> NodeView {
        NodeView {
            image_src: self.image_src.deep_view(),
            category_text: self.category_text.deep_view(),
            brand_html: self.brand_html.deep_view(),
            title_text: self.title_text.deep_view(),
            shortname_text: self.shortname_text.deep_view(),
            price_text: self.price_text.deep_view(),
            discount_text: self.discount_text.deep_view(),
        }
    }
}

impl DeepView for ListingNode {
    type V = NodeView;

    open spec fn deep_view(&self) -> NodeView {
        self.view()
    }
}

/// The structural pattern of one listing node within a page's product grid.
pub open spec fn listing_selector() -> Seq<char> {
    ".wrapper-gridthree-view.product-item .row .item-data"@
}

/// The listing-node fragments of a page's markup, in document order.
pub open spec fn page_fragments_of(markup: Seq<char>) -> Seq<Seq<char>> {
    fragments_of(markup, listing_selector())
}

/// What each field-extraction rule reads from one listing-node fragment.
pub open spec fn node_of(fragment: Seq<char>) -> NodeView {
    NodeView {
        image_src: first_attr_of(fragment, ".img-wrapper img"@, "src"@),
        category_text: nth_text_of(fragment, ".text-wrapper .category-wrapper span"@, 0),
        brand_html: inner_html_of(fragment, ".text-wrapper .brand a"@),
        title_text: nth_text_of(fragment, ".text-wrapper .title a"@, 1),
        shortname_text: nth_text_of(fragment, ".product-shortname"@, 0),
        price_text: nth_text_of(fragment, ".prices-wrapper .current-price"@, 1),
        discount_text: nth_text_of(fragment, ".text-discount"@, 0),
    }
}

/// Locate all listing-node fragments of a page, in document order.
pub fn list_fragments(markup: &str) -> (r: Vec<String>)
    ensures
        r.deep_view() == page_fragments_of(markup@),
{
    select_fragments(markup, ".wrapper-gridthree-view.product-item .row .item-data")
}

/// Read the raw field texts of one listing-node fragment.
pub fn collect_node(fragment: &str) -> (r: ListingNode)
    ensures
        r@ == node_of(fragment@),
{
    let r = ListingNode {
        image_src: select_first_attr(fragment, ".img-wrapper img", "src"),
        category_text: select_nth_text(fragment, ".text-wrapper .category-wrapper span", 0),
        brand_html: select_inner_html(fragment, ".text-wrapper .brand a"),
        title_text: select_nth_text(fragment, ".text-wrapper .title a", 1),
        shortname_text: select_nth_text(fragment, ".product-shortname", 0),
        price_text: select_nth_text(fragment, ".prices-wrapper .current-price", 1),
        discount_text: select_nth_text(fragment, ".text-discount", 0),
    };
    proof {
        assert(r@ =~= node_of(fragment@));
    }
    r
}

} // verus!
