//! Categories, page URLs, and the launch plan: one request per (category,
//! page) pair, pages `0 .. page_count` per selection, in selection order.

use vstd::prelude::*;
use crate::num::dec_digits;
use crate::num::fmt_u64;
use crate::text::chars_of;
use crate::text::push_all;
use crate::text::string_of_chars;

verus! {

/// The site sections that can be scraped: the legacy whole-catalogue mode
/// and the three named sections, each with its own URL path segment.
#[derive(Clone, Copy, Debug, PartialEq, Eq, Structural)]
pub enum Category {
    Proizvodi,
    Odeca,
    Obuca,
    Oprema,
}

impl Category {
    /// The category's URL path segment.
    pub open spec fn path_spec(self) -> Seq<char> {
        match self {
            Category::Proizvodi => "proizvodi"@,
            Category::Odeca => "odeca"@,
            Category::Obuca => "obuca"@,
            Category::Oprema => "oprema"@,
        }
    }

    pub fn path(self) -> (r: &'static str)
        ensures
            r@ == self.path_spec(),
    {
        match self {
            Category::Proizvodi => "proizvodi",
            Category::Odeca => "odeca",
            Category::Obuca => "obuca",
            Category::Oprema => "oprema",
        }
    }
}

/// One category together with how many pages of it to fetch: pages
/// `0 .. page_count` (exclusive upper bound).
#[derive(Clone, Copy, Debug, PartialEq, Eq, Structural)]
pub struct Selection {
    pub category: Category,
    pub page_count: u16,
}

/// One page to fetch: consumed by exactly one fetch task.
#[derive(Clone, Copy, Debug, PartialEq, Eq, Structural)]
pub struct ScrapeRequest {
    pub category: Category,
    pub page: u16,
}

/// The URL of one listing page.
pub open spec fn page_url_spec(cat: Category, page: u16) -> Seq<char> {
    "https://sportvision.rs/"@ + cat.path_spec() + "/page-"@ + dec_digits(page as nat)
}

/// Build the URL of one listing page.
pub fn page_url(cat: Category, page: u16) -> (r: String)
    ensures
        r@ == page_url_spec(cat, page),
{
    let mut cs = chars_of("https://sportvision.rs/");
    let path = chars_of(cat.path());
    push_all(&mut cs, &path);
    let sep = chars_of("/page-");
    push_all(&mut cs, &sep);
    let digits = fmt_u64(page as u64);
    push_all(&mut cs, &digits);
    string_of_chars(&cs)
}

/// The requests one selection generates: its pages in increasing order.
pub open spec fn pages_of(sel: Selection) -> Seq<ScrapeRequest> {
    Seq::new(
        sel.page_count as nat,
        |i: int| ScrapeRequest { category: sel.category, page: i as u16 },
    )
}

/// The whole launch plan: each selection's pages, in selection order.
pub open spec fn plan_spec(sels: Seq<Selection>) -> Seq<ScrapeRequest>
    decreases sels.len(),
{
    if sels.len() == 0 {
        Seq::<ScrapeRequest>::empty()
    } else {
        pages_of(sels[0]) + plan_spec(sels.drop_first())
    }
}

proof fn lemma_plan_snoc(sels: Seq<Selection>, x: Selection)
    ensures
        plan_spec(sels.push(x)) == plan_spec(sels) + pages_of(x),
    decreases sels.len(),
{
    if sels.len() == 0 {
        assert(sels.push(x)[0] == x);
        assert(sels.push(x).drop_first() =~= Seq::<Selection>::empty());
        assert(plan_spec(Seq::<Selection>::empty()) == Seq::<ScrapeRequest>::empty());
        assert(plan_spec(sels.push(x)) == pages_of(x) + plan_spec(Seq::<Selection>::empty()));
        assert(plan_spec(sels.push(x)) =~= plan_spec(sels) + pages_of(x));
    } else {
        assert(sels.push(x).drop_first() =~= sels.drop_first().push(x));
        lemma_plan_snoc(sels.drop_first(), x);
        assert(plan_spec(sels.push(x)) =~= plan_spec(sels) + pages_of(x));
    }
}

/// Generate the launch plan for the given selections: for each selection in
/// order, one request per page index `0 .. page_count`.
pub fn plan_requests(selections: &Vec<Selection>) -> (r: Vec<ScrapeRequest>)
    ensures
        r@ == plan_spec(selections@),
{
    let mut r: Vec<ScrapeRequest> = Vec::new();
    let mut i: usize = 0;
    proof {
        assert(selections@.take(0) =~= Seq::<Selection>::empty());
    }
    while i < selections.len()
        invariant
            0 <= i <= selections.len(),
            r@ == plan_spec(selections@.take(i as int)),
        decreases selections.len() - i,
    {
        let sel = selections[i];
        let ghost pre = r@;
        let mut page: u16 = 0;
        while page < sel.page_count
            invariant
                0 <= page <= sel.page_count,
                r@.len() == pre.len() + page as int,
                r@ =~= pre + pages_of(sel).take(page as int),
            decreases sel.page_count - page,
        {
            r.push(ScrapeRequest { category: sel.category, page });
            proof {
                assert(pages_of(sel).take(page + 1 as int) =~= pages_of(sel).take(
                    page as int,
                ).push(ScrapeRequest { category: sel.category, page }));
            }
            page += 1;
        }
        proof {
            assert(pages_of(sel).take(sel.page_count as int) =~= pages_of(sel));
            lemma_plan_snoc(selections@.take(i as int), sel);
            assert(selections@.take(i + 1) =~= selections@.take(i as int).push(
                selections@[i as int],
            ));
        }
        i += 1;
    }
    proof {
        assert(selections@.take(selections@.len() as int) =~= selections@);
    }
    r
}

} // verus!
