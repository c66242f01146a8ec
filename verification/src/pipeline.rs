//! The page parser and the merge of per-page results: one outcome per
//! listing node, in document order; pages combined in launch order; failed
//! pages and failed nodes isolated and reported, never aborting the rest.

use vstd::prelude::*;
use crate::extract::extract;
use crate::extract::extract_matches;
use crate::markup::collect_node;
use crate::markup::list_fragments;
use crate::markup::node_of;
use crate::markup::page_fragments_of;
use crate::product::ExtractError;
use crate::product::Product;
use crate::product::ProductView;

verus! {

/// One result per listing node of the page, in document order, each
/// matching the extraction contract for its node.
pub open spec fn page_results_ok(
    markup: Seq<char>,
    rs: Seq<Result<Product, ExtractError>>,
) -> bool {
    &&& rs.len() == page_fragments_of(markup).len()
    &&& forall|i: int|
        0 <= i < rs.len() ==> extract_matches(node_of(page_fragments_of(markup)[i]), rs[i])
}

/// Parse one page's markup: locate its listing nodes and extract each one,
/// yielding exactly one success or per-node failure per node, in document
/// order.
pub fn parse_page(markup: &str) -> (r: Vec<Result<Product, ExtractError>>)
    ensures
        page_results_ok(markup@, r@),
{
    let frags = list_fragments(markup);
    let mut r: Vec<Result<Product, ExtractError>> = Vec::new();
    let mut i: usize = 0;
    while i < frags.len()
        invariant
            0 <= i <= frags.len(),
            frags.deep_view() == page_fragments_of(markup@),
            r@.len() == i,
            forall|j: int|
                0 <= j < i ==> extract_matches(node_of(page_fragments_of(markup@)[j]), r@[j]),
        decreases frags.len() - i,
    {
        let node = collect_node(frags[i].as_str());
        proof {
            assert(frags@[i as int]@ == frags.deep_view()[i as int]);
        }
        let outcome = extract(&node);
        r.push(outcome);
        i += 1;
    }
    r
}

/// The successfully extracted records of one page, in document order.
pub open spec fn page_products(rs: Seq<Result<Product, ExtractError>>) -> Seq<ProductView>
    decreases rs.len(),
{
    if rs.len() == 0 {
        Seq::<ProductView>::empty()
    } else {
        let rest = page_products(rs.drop_first());
        match rs[0] {
            Ok(p) => seq![p.deep_view()] + rest,
            Err(_) => rest,
        }
    }
}

/// The per-node failures of one page, in document order.
pub open spec fn page_errors(rs: Seq<Result<Product, ExtractError>>) -> Seq<ExtractError>
    decreases rs.len(),
{
    if rs.len() == 0 {
        Seq::<ExtractError>::empty()
    } else {
        let rest = page_errors(rs.drop_first());
        match rs[0] {
            Ok(_) => rest,
            Err(e) => seq![e] + rest,
        }
    }
}

proof fn lemma_page_snoc(rs: Seq<Result<Product, ExtractError>>, x: Result<Product, ExtractError>)
    ensures
        page_products(rs.push(x)) == page_products(rs) + (match x {
            Ok(p) => seq![p.deep_view()],
            Err(_) => Seq::<ProductView>::empty(),
        }),
        page_errors(rs.push(x)) == page_errors(rs) + (match x {
            Ok(_) => Seq::<ExtractError>::empty(),
            Err(e) => seq![e],
        }),
    decreases rs.len(),
{
    if rs.len() == 0 {
        assert(rs.push(x)[0] == x);
        assert(rs.push(x).drop_first() =~= Seq::<Result<Product, ExtractError>>::empty());
        assert(page_products(Seq::<Result<Product, ExtractError>>::empty())
            == Seq::<ProductView>::empty());
        assert(page_errors(Seq::<Result<Product, ExtractError>>::empty())
            == Seq::<ExtractError>::empty());
        assert(page_products(rs.push(x)) =~= page_products(rs) + (match x {
            Ok(p) => seq![p.deep_view()],
            Err(_) => Seq::<ProductView>::empty(),
        }));
        assert(page_errors(rs.push(x)) =~= page_errors(rs) + (match x {
            Ok(_) => Seq::<ExtractError>::empty(),
            Err(e) => seq![e],
        }));
    } else {
        assert(rs.push(x).drop_first() =~= rs.drop_first().push(x));
        lemma_page_snoc(rs.drop_first(), x);
        assert(page_products(rs.push(x)) =~= page_products(rs) + (match x {
            Ok(p) => seq![p.deep_view()],
            Err(_) => Seq::<ProductView>::empty(),
        }));
        assert(page_errors(rs.push(x)) =~= page_errors(rs) + (match x {
            Ok(_) => Seq::<ExtractError>::empty(),
            Err(e) => seq![e],
        }));
    }
}

impl Product {
    /// A field-for-field copy.
    pub fn duplicate(&self) -> (r: Product)
        ensures
            r@ == self@,
    {
        Product {
            image_url: self.image_url.clone(),
            image_url_high_res: self.image_url_high_res.clone(),
            brand_name: self.brand_name.clone(),
            title: self.title.clone(),
            short_description: self.short_description.clone(),
            current_price: self.current_price.clone(),
            id: self.id.clone(),
            stock: self.stock,
            discount: self.discount,
        }
    }
}

/// Split one page's outcomes into its records and its per-node failures,
/// both in document order: a failed node is skipped and reported, never
/// fatal to the rest of the page.
pub fn collect_page(rs: &Vec<Result<Product, ExtractError>>) -> (out: (
    Vec<Product>,
    Vec<ExtractError>,
))
    ensures
        out.0.deep_view() == page_products(rs@),
        out.1@ == page_errors(rs@),
{
    let mut products: Vec<Product> = Vec::new();
    let mut errors: Vec<ExtractError> = Vec::new();
    let mut i: usize = 0;
    proof {
        assert(rs@.take(0) =~= Seq::<Result<Product, ExtractError>>::empty());
    }
    while i < rs.len()
        invariant
            0 <= i <= rs.len(),
            products.deep_view() == page_products(rs@.take(i as int)),
            errors@ == page_errors(rs@.take(i as int)),
        decreases rs.len() - i,
    {
        proof {
            assert(rs@.take(i + 1) =~= rs@.take(i as int).push(rs@[i as int]));
            lemma_page_snoc(rs@.take(i as int), rs@[i as int]);
        }
        match &rs[i] {
            Ok(p) => {
                products.push(p.duplicate());
                proof {
                    assert(products.deep_view() =~= page_products(rs@.take(i + 1)));
                    assert(errors@ =~= page_errors(rs@.take(i + 1)));
                }
            },
            Err(e) => {
                errors.push(*e);
                proof {
                    assert(products.deep_view() =~= page_products(rs@.take(i + 1)));
                    assert(errors@ =~= page_errors(rs@.take(i + 1)));
                }
            },
        }
        i += 1;
    }
    proof {
        assert(rs@.take(rs@.len() as int) =~= rs@);
    }
    (products, errors)
}

/// One fetched body against one page outcome: a missing body yields no
/// outcome, a retrieved body yields that page's parsed results.
pub open spec fn page_match(
    body: Option<Seq<char>>,
    page: Option<Seq<Result<Product, ExtractError>>>,
) -> bool {
    match (body, page) {
        (None, None) => true,
        (Some(m), Some(rs)) => page_results_ok(m, rs),
        _ => false,
    }
}

pub open spec fn all_pages_match(
    bodies: Seq<Option<Seq<char>>>,
    pages: Seq<Option<Seq<Result<Product, ExtractError>>>>,
) -> bool {
    &&& pages.len() == bodies.len()
    &&& forall|i: int| 0 <= i < bodies.len() ==> page_match(bodies[i], pages[i])
}

/// All pages' records merged in launch order; a failed page contributes
/// nothing.
pub open spec fn merged_products(
    pages: Seq<Option<Seq<Result<Product, ExtractError>>>>,
) -> Seq<ProductView>
    decreases pages.len(),
{
    if pages.len() == 0 {
        Seq::<ProductView>::empty()
    } else {
        (match pages[0] {
            Some(rs) => page_products(rs),
            None => Seq::<ProductView>::empty(),
        }) + merged_products(pages.drop_first())
    }
}

/// All pages' per-node failures, in launch order.
pub open spec fn merged_errors(
    pages: Seq<Option<Seq<Result<Product, ExtractError>>>>,
) -> Seq<ExtractError>
    decreases pages.len(),
{
    if pages.len() == 0 {
        Seq::<ExtractError>::empty()
    } else {
        (match pages[0] {
            Some(rs) => page_errors(rs),
            None => Seq::<ExtractError>::empty(),
        }) + merged_errors(pages.drop_first())
    }
}

/// The launch indices of the bodies that were not retrievable, in launch
/// order, scanning from index `from`.
pub open spec fn failed_indices(bodies: Seq<Option<Seq<char>>>, from: int) -> Seq<int>
    decreases bodies.len() - from,
{
    if from < 0 || from >= bodies.len() {
        Seq::<int>::empty()
    } else {
        (if bodies[from] is None {
            seq![from]
        } else {
            Seq::<int>::empty()
        }) + failed_indices(bodies, from + 1)
    }
}

proof fn lemma_merged_snoc(
    pages: Seq<Option<Seq<Result<Product, ExtractError>>>>,
    x: Option<Seq<Result<Product, ExtractError>>>,
)
    ensures
        merged_products(pages.push(x)) == merged_products(pages) + (match x {
            Some(rs) => page_products(rs),
            None => Seq::<ProductView>::empty(),
        }),
        merged_errors(pages.push(x)) == merged_errors(pages) + (match x {
            Some(rs) => page_errors(rs),
            None => Seq::<ExtractError>::empty(),
        }),
    decreases pages.len(),
{
    if pages.len() == 0 {
        assert(pages.push(x)[0] == x);
        assert(pages.push(x).drop_first() =~= Seq::<Option<
            Seq<Result<Product, ExtractError>>,
        >>::empty());
        assert(merged_products(Seq::<Option<Seq<Result<Product, ExtractError>>>>::empty())
            == Seq::<ProductView>::empty());
        assert(merged_errors(Seq::<Option<Seq<Result<Product, ExtractError>>>>::empty())
            == Seq::<ExtractError>::empty());
        assert(merged_products(pages.push(x)) =~= merged_products(pages) + (match x {
            Some(rs) => page_products(rs),
            None => Seq::<ProductView>::empty(),
        }));
        assert(merged_errors(pages.push(x)) =~= merged_errors(pages) + (match x {
            Some(rs) => page_errors(rs),
            None => Seq::<ExtractError>::empty(),
        }));
    } else {
        assert(pages.push(x)[0] == pages[0]);
        assert(pages.push(x).drop_first() =~= pages.drop_first().push(x));
        lemma_merged_snoc(pages.drop_first(), x);
        assert(merged_products(pages.push(x)) =~= merged_products(pages) + (match x {
            Some(rs) => page_products(rs),
            None => Seq::<ProductView>::empty(),
        }));
        assert(merged_errors(pages.push(x)) =~= merged_errors(pages) + (match x {
            Some(rs) => page_errors(rs),
            None => Seq::<ExtractError>::empty(),
        }));
    }
}

/// The aggregated outcome of a whole run: every page's records in launch
/// order, and a summary of what was skipped — the per-node extraction
/// failures, and the launch indices of the pages whose body was not
/// retrievable.
pub struct ScrapeOutcome {
    pub products: Vec<Product>,
    pub node_errors: Vec<ExtractError>,
    pub failed_pages: Vec<usize>,
}

/// Merge the fetched bodies of all launched pages, in launch order. A page
/// whose body was not retrievable is counted and skipped; a node whose
/// extraction failed is reported and skipped; everything else is kept, in
/// order.
pub fn aggregate_bodies(bodies: &Vec<Option<String>>) -> (out: ScrapeOutcome)
    ensures
        out.failed_pages@.map_values(|x: usize| x as int) == failed_indices(
            bodies.deep_view(),
            0,
        ),
        exists|pages: Seq<Option<Seq<Result<Product, ExtractError>>>>|
            {
                &&& all_pages_match(bodies.deep_view(), pages)
                &&& out.products.deep_view() == merged_products(pages)
                &&& out.node_errors@ == merged_errors(pages)
            },
{
    let mut products: Vec<Product> = Vec::new();
    let mut node_errors: Vec<ExtractError> = Vec::new();
    let mut failed_pages: Vec<usize> = Vec::new();
    let ghost mut gpages: Seq<Option<Seq<Result<Product, ExtractError>>>> = Seq::empty();
    let mut i: usize = 0;
    let ghost gb = bodies.deep_view();
    proof {
        assert(failed_pages@.map_values(|x: usize| x as int) =~= Seq::<int>::empty());
    }
    while i < bodies.len()
        invariant
            0 <= i <= bodies.len(),
            bodies.deep_view().len() == bodies.len(),
            gpages.len() == i,
            forall|j: int| 0 <= j < i ==> page_match(bodies.deep_view()[j], gpages[j]),
            products.deep_view() == merged_products(gpages),
            node_errors@ == merged_errors(gpages),
            gb == bodies.deep_view(),
            failed_pages@.map_values(|x: usize| x as int) + failed_indices(gb, i as int)
                == failed_indices(gb, 0),
        decreases bodies.len() - i,
    {
        let ghost gbody = bodies.deep_view()[i as int];
        let ghost pre_failed = failed_pages@.map_values(|x: usize| x as int);
        match &bodies[i] {
            None => {
                failed_pages.push(i);
                proof {
                    assert(gbody is None);
                    assert(failed_pages@.map_values(|x: usize| x as int) =~= pre_failed.push(
                        i as int,
                    ));
                    assert(failed_indices(gb, i as int) == seq![i as int] + failed_indices(
                        gb,
                        i + 1,
                    ));
                    assert(failed_pages@.map_values(|x: usize| x as int) + failed_indices(
                        gb,
                        i + 1,
                    ) =~= pre_failed + failed_indices(gb, i as int));
                    lemma_merged_snoc(gpages, None);
                    gpages = gpages.push(None);
                    assert(products.deep_view() =~= merged_products(gpages));
                    assert(node_errors@ =~= merged_errors(gpages));
                }
            },
            Some(body) => {
                proof {
                    assert(failed_indices(gb, i as int) == Seq::<int>::empty() + failed_indices(
                        gb,
                        i + 1,
                    ));
                    assert(pre_failed + failed_indices(gb, i + 1) =~= pre_failed + failed_indices(
                        gb,
                        i as int,
                    ));
                }
                let rs = parse_page(body.as_str());
                let ghost grs = rs@;
                let (mut ps, mut es) = collect_page(&rs);
                let ghost pre_products = products.deep_view();
                let ghost pre_errors = node_errors@;
                products.append(&mut ps);
                node_errors.append(&mut es);
                proof {
                    assert(gbody matches Some(m) && m == body@);
                    lemma_merged_snoc(gpages, Some(grs));
                    gpages = gpages.push(Some(grs));
                    assert(products.deep_view() =~= pre_products + page_products(grs));
                    assert(products.deep_view() =~= merged_products(gpages));
                    assert(node_errors@ =~= merged_errors(gpages));
                }
            },
        }
        i += 1;
    }
    proof {
        assert(failed_indices(gb, gb.len() as int) == Seq::<int>::empty());
        assert(failed_pages@.map_values(|x: usize| x as int) + Seq::<int>::empty()
            =~= failed_pages@.map_values(|x: usize| x as int));
    }
    let out = ScrapeOutcome { products, node_errors, failed_pages };
    proof {
        assert(exists|pages: Seq<Option<Seq<Result<Product, ExtractError>>>>|
            {
                &&& all_pages_match(bodies.deep_view(), pages)
                &&& out.products.deep_view() == merged_products(pages)
                &&& out.node_errors@ == merged_errors(pages)
            }) by {
            assert(all_pages_match(bodies.deep_view(), gpages));
        }
    }
    out
}

/// Pages merge in launch order: the merged output splits at any page
/// boundary into what the earlier pages produced followed by what the later
/// pages produced.
pub proof fn lemma_merged_split(pages: Seq<Option<Seq<Result<Product, ExtractError>>>>, k: int)
    requires
        0 <= k <= pages.len(),
    ensures
        merged_products(pages) == merged_products(pages.take(k)) + merged_products(pages.skip(k)),
    decreases k,
{
    if k == 0 {
        assert(pages.take(0) =~= Seq::<Option<Seq<Result<Product, ExtractError>>>>::empty());
        assert(pages.skip(0) =~= pages);
        assert(merged_products(pages) =~= merged_products(pages.take(0)) + merged_products(
            pages.skip(0),
        ));
    } else {
        lemma_merged_split(pages.drop_first(), k - 1);
        assert(pages.take(k)[0] == pages[0]);
        assert(pages.take(k).drop_first() =~= pages.drop_first().take(k - 1));
        assert(pages.skip(k) =~= pages.drop_first().skip(k - 1));
        assert(merged_products(pages) =~= merged_products(pages.take(k)) + merged_products(
            pages.skip(k),
        ));
    }
}

/// Launch order is preserved: a page's records sit contiguously in the
/// merged output, right after everything the pages launched before it
/// produced — wherever each fetch finished first.
pub proof fn lemma_launch_order(pages: Seq<Option<Seq<Result<Product, ExtractError>>>>, b: int)
    requires
        0 <= b < pages.len(),
        pages[b] is Some,
    ensures
        merged_products(pages.take(b)).len() + page_products(pages[b]->Some_0).len()
            <= merged_products(pages).len(),
        forall|k: int|
            0 <= k < page_products(pages[b]->Some_0).len() ==> merged_products(pages)[
                merged_products(pages.take(b)).len() + k
            ] == page_products(pages[b]->Some_0)[k],
{
    lemma_merged_split(pages, b);
    assert(pages.skip(b)[0] == pages[b]);
    assert(pages.skip(b).drop_first() =~= pages.skip(b + 1));
    assert(merged_products(pages.skip(b)) == page_products(pages[b]->Some_0) + merged_products(
        pages.skip(b + 1),
    ));
}

/// A page whose body is not retrievable neither removes nor reorders the
/// records of any other page: inserting a failed page anywhere leaves the
/// merged output unchanged.
pub proof fn lemma_failed_page_inert(
    pages: Seq<Option<Seq<Result<Product, ExtractError>>>>,
    i: int,
)
    requires
        0 <= i <= pages.len(),
    ensures
        merged_products(pages.insert(i, None)) == merged_products(pages),
        merged_errors(pages.insert(i, None)) == merged_errors(pages),
    decreases i,
{
    if i == 0 {
        assert(pages.insert(0, None)[0] is None);
        assert(pages.insert(0, None).drop_first() =~= pages);
        assert(merged_products(pages.insert(0, None)) =~= merged_products(pages));
        assert(merged_errors(pages.insert(0, None)) =~= merged_errors(pages));
    } else {
        lemma_failed_page_inert(pages.drop_first(), i - 1);
        assert(pages.insert(i, None)[0] == pages[0]);
        assert(pages.insert(i, None).drop_first() =~= pages.drop_first().insert(i - 1, None));
        assert(merged_products(pages.insert(i, None)) =~= merged_products(pages));
        assert(merged_errors(pages.insert(i, None)) =~= merged_errors(pages));
    }
}

} // verus!
