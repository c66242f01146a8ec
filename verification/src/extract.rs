//! The field extractor: one listing node's raw texts to one product record,
//! applying each field's presence/fallback policy.

use vstd::prelude::*;
use crate::markup::NodeView;
use crate::markup::ListingNode;
use crate::num::parse_u8_spec;
use crate::num::parse_u8;
use crate::product::ExtractError;
use crate::product::FieldName;
use crate::product::Product;
use crate::product::ProductView;
use crate::text::chars_of;
use crate::text::push_all;
use crate::text::replace_all;
use crate::text::replace_all_spec;
use crate::text::string_of_chars;
use crate::text::trim_chars;
use crate::text::trim_spec;

verus! {

/// The site's base origin, prepended to the relative image path.
pub open spec fn base_origin() -> Seq<char> {
    "https://sportvision.rs"@
}

/// The stored image URL: the node's `src` attribute, trimmed, resolved
/// against the site's base origin.
pub open spec fn image_url_of(src: Seq<char>) -> Seq<char> {
    base_origin() + trim_spec(src)
}

/// The high-resolution variant of an image URL: the thumbnail-size token and
/// the pixel-dimension token replaced by their high-resolution equivalents.
/// A URL with neither token is unchanged.
pub open spec fn high_res_of(url: Seq<char>) -> Seq<char> {
    replace_all_spec(
        replace_all_spec(url, "thumbs_350"@, "thumbs_800"@),
        "350_350px"@,
        "800_800px"@,
    )
}

/// An optional field's stored text: trimmed if present, empty if absent.
pub open spec fn opt_trim(o: Option<Seq<char>>) -> Seq<char> {
    match o {
        Some(s) => trim_spec(s),
        None => Seq::<char>::empty(),
    }
}

/// The discount percentage: the badge's trimmed text parsed as a byte;
/// absent or unparseable text defaults to zero.
pub open spec fn discount_of(o: Option<Seq<char>>) -> u8 {
    match o {
        Some(s) => match parse_u8_spec(trim_spec(s)) {
            Some(d) => d,
            None => 0,
        },
        None => 0,
    }
}

/// All four required fields are present in the node.
pub open spec fn required_fields_ok(node: NodeView) -> bool {
    &&& node.image_src is Some
    &&& node.category_text is Some
    &&& node.title_text is Some
    &&& node.price_text is Some
}

/// The first missing required field, in the order the rules are applied.
pub open spec fn missing_field(node: NodeView) -> FieldName {
    if node.image_src is None {
        FieldName::ImageUrl
    } else if node.category_text is None {
        FieldName::CategoryId
    } else if node.title_text is None {
        FieldName::Title
    } else {
        FieldName::CurrentPrice
    }
}

/// Every field of `p` except `stock` is the documented function of the
/// node's raw texts; `stock` lies in [0, 127].
pub open spec fn product_matches(node: NodeView, p: ProductView) -> bool {
    &&& p.image_url == image_url_of(node.image_src->Some_0)
    &&& p.image_url_high_res == high_res_of(image_url_of(node.image_src->Some_0))
    &&& p.brand_name == opt_trim(node.brand_html)
    &&& p.title == trim_spec(node.title_text->Some_0)
    &&& p.short_description == opt_trim(node.shortname_text)
    &&& p.current_price == trim_spec(node.price_text->Some_0)
    &&& p.id == trim_spec(node.category_text->Some_0)
    &&& p.stock <= 127
    &&& p.discount == discount_of(node.discount_text)
}

/// The whole contract of extraction: a record exactly when every required
/// field is present, else the first missing field's error.
pub open spec fn extract_matches(node: NodeView, r: Result<Product, ExtractError>) -> bool {
    match r {
        Ok(p) => required_fields_ok(node) && product_matches(node, p@),
        Err(e) => !required_fields_ok(node) && e == ExtractError::MissingRequiredField(
            missing_field(node),
        ),
    }
}

/// Relies on `rand::random`: an arbitrary byte. Nothing is assumed of its
/// value; every caller must cope with any outcome.
#[verifier::external_body]
fn random_byte() -> u8 {
    rand::random()
}

/// A placeholder stock level drawn from one byte of entropy; always in
/// [0, 127], uncorrelated with any markup content.
pub fn stock_from_entropy(entropy: u8) -> (r: u8)
    ensures
        r <= 127,
{
    entropy / 2
}

fn trimmed_string(s: &String) -> (r: String)
    ensures
        r@ == trim_spec(s@),
{
    let cs = chars_of(s.as_str());
    let t = trim_chars(&cs);
    string_of_chars(&t)
}

fn opt_trimmed_string(o: &Option<String>) -> (r: String)
    ensures
        r@ == opt_trim(o.deep_view()),
{
    match o {
        Some(s) => trimmed_string(s),
        None => {
            let empty: Vec<char> = Vec::new();
            string_of_chars(&empty)
        },
    }
}

/// Derive the high-resolution image URL from the stored one by the two
/// literal token substitutions.
pub fn derive_high_res(url: &String) -> (r: String)
    ensures
        r@ == high_res_of(url@),
{
    let cs = chars_of(url.as_str());
    let p1 = chars_of("thumbs_350");
    let r1 = chars_of("thumbs_800");
    let p2 = chars_of("350_350px");
    let r2 = chars_of("800_800px");
    proof {
        reveal_strlit("thumbs_350");
        reveal_strlit("350_350px");
    }
    let step1 = replace_all(&cs, &p1, &r1);
    let step2 = replace_all(&step1, &p2, &r2);
    string_of_chars(&step2)
}

/// Extract one product record from one listing node's raw texts.
///
/// Every field except `stock` is a pure function of the node; `stock` is a
/// fresh placeholder draw in [0, 127]. A missing required field fails the
/// node with that field's error; missing optional fields fall back to their
/// documented defaults.
pub fn extract(node: &ListingNode) -> (r: Result<Product, ExtractError>)
    ensures
        extract_matches(node@, r),
{
    let image_src = match &node.image_src {
        Some(s) => s,
        None => {
            return Err(ExtractError::MissingRequiredField(FieldName::ImageUrl));
        },
    };
    let category_text = match &node.category_text {
        Some(s) => s,
        None => {
            return Err(ExtractError::MissingRequiredField(FieldName::CategoryId));
        },
    };
    let title_text = match &node.title_text {
        Some(s) => s,
        None => {
            return Err(ExtractError::MissingRequiredField(FieldName::Title));
        },
    };
    let price_text = match &node.price_text {
        Some(s) => s,
        None => {
            return Err(ExtractError::MissingRequiredField(FieldName::CurrentPrice));
        },
    };
    let src_chars = chars_of(image_src.as_str());
    let trimmed_src = trim_chars(&src_chars);
    let mut url_chars = chars_of("https://sportvision.rs");
    push_all(&mut url_chars, &trimmed_src);
    let image_url = string_of_chars(&url_chars);
    let image_url_high_res = derive_high_res(&image_url);
    let discount: u8 = match &node.discount_text {
        Some(s) => {
            let t_chars = chars_of(s.as_str());
            let t = trim_chars(&t_chars);
            match parse_u8(&t) {
                Some(d) => d,
                None => 0,
            }
        },
        None => 0,
    };
    let stock = stock_from_entropy(random_byte());
    Ok(
        Product {
            image_url,
            image_url_high_res,
            brand_name: opt_trimmed_string(&node.brand_html),
            title: trimmed_string(title_text),
            short_description: opt_trimmed_string(&node.shortname_text),
            current_price: trimmed_string(price_text),
            id: trimmed_string(category_text),
            stock,
            discount,
        },
    )
}

proof fn lemma_token_conditions()
    ensures
        "thumbs_350"@.len() == 10,
        "thumbs_800"@.len() == 10,
        "350_350px"@.len() == 9,
        "800_800px"@.len() == 9,
        crate::text::no_tail_prefix("thumbs_350"@, "thumbs_800"@),
        crate::text::no_head_suffix("thumbs_350"@, "thumbs_800"@),
        !crate::text::contains_pat("thumbs_350"@, "thumbs_800"@),
        !crate::text::contains_pat("thumbs_800"@, "thumbs_350"@),
        crate::text::no_tail_prefix("350_350px"@, "800_800px"@),
        crate::text::no_head_suffix("350_350px"@, "800_800px"@),
        !crate::text::contains_pat("350_350px"@, "800_800px"@),
        !crate::text::contains_pat("800_800px"@, "350_350px"@),
        crate::text::no_tail_prefix("thumbs_350"@, "800_800px"@),
        crate::text::no_head_suffix("thumbs_350"@, "800_800px"@),
        !crate::text::contains_pat("thumbs_350"@, "800_800px"@),
        !crate::text::contains_pat("800_800px"@, "thumbs_350"@),
{
    reveal_strlit("thumbs_350");
    reveal_strlit("thumbs_800");
    reveal_strlit("350_350px");
    reveal_strlit("800_800px");
    let p1 = "thumbs_350"@;
    let r1 = "thumbs_800"@;
    let p2 = "350_350px"@;
    let r2 = "800_800px"@;
    assert forall|k: int| 1 <= k < 10 && 10 - k <= 10 implies p1.subrange(k, 10) != r1.subrange(
        0,
        10 - k,
    ) by {
        assert(p1.subrange(k, 10)[0] == p1[k]);
        assert(r1.subrange(0, 10 - k)[0] == r1[0]);
    }
    assert forall|k: int| 1 <= k < 10 && k < 10 implies p1.subrange(0, k) != r1.subrange(
        10 - k,
        10,
    ) by {
        assert(p1.subrange(0, k)[0] == p1[0]);
        assert(r1.subrange(10 - k, 10)[0] == r1[10 - k]);
    }
    assert forall|i: int| !crate::text::occurs_at(p1, r1, i) by {
        if 0 <= i && i + 10 <= 10 {
            assert(p1.subrange(i, i + 10)[7] == p1[i + 7]);
        }
    }
    assert forall|i: int| !crate::text::occurs_at(r1, p1, i) by {
        if 0 <= i && i + 10 <= 10 {
            assert(r1.subrange(i, i + 10)[7] == r1[i + 7]);
        }
    }
    assert forall|k: int| 1 <= k < 9 && 9 - k <= 9 implies p2.subrange(k, 9) != r2.subrange(
        0,
        9 - k,
    ) by {
        assert(p2.subrange(k, 9)[0] == p2[k]);
        assert(r2.subrange(0, 9 - k)[0] == r2[0]);
    }
    assert forall|k: int| 1 <= k < 9 && k < 9 implies p2.subrange(0, k) != r2.subrange(
        9 - k,
        9,
    ) by {
        assert(p2.subrange(0, k)[0] == p2[0]);
        assert(r2.subrange(9 - k, 9)[0] == r2[9 - k]);
    }
    assert forall|i: int| !crate::text::occurs_at(p2, r2, i) by {
        if 0 <= i && i + 9 <= 9 {
            assert(p2.subrange(i, i + 9)[0] == p2[i]);
        }
    }
    assert forall|i: int| !crate::text::occurs_at(r2, p2, i) by {
        if 0 <= i && i + 9 <= 9 {
            assert(r2.subrange(i, i + 9)[0] == r2[i]);
        }
    }
    assert forall|k: int| 1 <= k < 10 && 10 - k <= 9 implies p1.subrange(k, 10) != r2.subrange(
        0,
        10 - k,
    ) by {
        assert(p1.subrange(k, 10)[0] == p1[k]);
        assert(r2.subrange(0, 10 - k)[0] == r2[0]);
    }
    assert forall|k: int| 1 <= k < 10 && k < 9 implies p1.subrange(0, k) != r2.subrange(
        9 - k,
        9,
    ) by {
        assert(p1.subrange(0, k)[0] == p1[0]);
        assert(r2.subrange(9 - k, 9)[0] == r2[9 - k]);
    }
    assert forall|i: int| !crate::text::occurs_at(p1, r2, i) by {
        if 0 <= i && i + 9 <= 10 {
            assert(p1.subrange(i, i + 9)[0] == p1[i]);
        }
    }
    assert forall|i: int| !crate::text::occurs_at(r2, p1, i) by {}
}

/// Deriving the high-resolution URL is idempotent: applying the two token
/// substitutions to an already derived URL changes nothing further.
pub proof fn lemma_high_res_idempotent(url: Seq<char>)
    ensures
        high_res_of(high_res_of(url)) == high_res_of(url),
{
    let p1 = "thumbs_350"@;
    let r1 = "thumbs_800"@;
    let p2 = "350_350px"@;
    let r2 = "800_800px"@;
    lemma_token_conditions();
    let x1 = replace_all_spec(url, p1, r1);
    let x2 = replace_all_spec(x1, p2, r2);
    crate::text::lemma_ra_no_pat(url, p1, r1, p1);
    crate::text::lemma_ra_no_pat(x1, p2, r2, p2);
    crate::text::lemma_ra_no_pat(x1, p2, r2, p1);
    crate::text::lemma_replace_identity(x2, p1, r1);
    crate::text::lemma_replace_identity(x2, p2, r2);
}

/// Extraction is repeatable: on one node, two results agree on success and
/// on every field except `stock`, which always lies in [0, 127].
pub proof fn lemma_extract_repeatable(
    node: NodeView,
    r1: Result<Product, ExtractError>,
    r2: Result<Product, ExtractError>,
)
    requires
        extract_matches(node, r1),
        extract_matches(node, r2),
    ensures
        r1 is Ok <==> r2 is Ok,
        match (r1, r2) {
            (Ok(p1), Ok(p2)) => {
                &&& p1@.image_url == p2@.image_url
                &&& p1@.image_url_high_res == p2@.image_url_high_res
                &&& p1@.brand_name == p2@.brand_name
                &&& p1@.title == p2@.title
                &&& p1@.short_description == p2@.short_description
                &&& p1@.current_price == p2@.current_price
                &&& p1@.id == p2@.id
                &&& p1@.discount == p2@.discount
                &&& p1@.stock <= 127
                &&& p2@.stock <= 127
            },
            (Err(e1), Err(e2)) => e1 == e2,
            _ => false,
        },
{
}

} // verus!
