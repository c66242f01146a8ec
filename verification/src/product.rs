//! The product record extracted from one listing node, and the errors of
//! field extraction.

use vstd::prelude::*;

verus! {

/// The required fields of a listing node, named for error reporting.
#[derive(Clone, Copy, Debug, PartialEq, Eq, Structural)]
pub enum FieldName {
    ImageUrl,
    CategoryId,
    Title,
    CurrentPrice,
}

/// Why extraction failed for one listing node. Optional fields never fail:
/// their absence degrades to a documented default.
#[derive(Clone, Copy, Debug, PartialEq, Eq, Structural)]
pub enum ExtractError {
    MissingRequiredField(FieldName),
}

/// One extracted listing entry. Immutable once built; `id` is a category
/// classification tag, not a unique identifier.
#[derive(Clone, Debug, PartialEq)]
pub struct Product {
    pub image_url: String,
    pub image_url_high_res: String,
    pub brand_name: String,
    pub title: String,
    pub short_description: String,
    pub current_price: String,
    pub id: String,
    pub stock: u8,
    pub discount: u8,
}

/// The mathematical content of a `Product`.
#[verifier::ext_equal]
pub ghost struct ProductView {
    pub image_url: Seq<char>,
    pub image_url_high_res: Seq<char>,
    pub brand_name: Seq<char>,
    pub title: Seq<char>,
    pub short_description: Seq<char>,
    pub current_price: Seq<char>,
    pub id: Seq<char>,
    pub stock: u8,
    pub discount: u8,
}

impl View for Product {
    type V = ProductView;

    open spec fn view(&self) -> ProductView {
        ProductView {
            image_url: self.image_url@,
            image_url_high_res: self.image_url_high_res@,
            brand_name: self.brand_name@,
            title: self.title@,
            short_description: self.short_description@,
            current_price: self.current_price@,
            id: self.id@,
            stock: self.stock,
            discount: self.discount,
        }
    }
}

impl DeepView for Product {
    type V = ProductView;

    open spec fn deep_view(&self) -> ProductView {
        self.view()
    }
}

} // verus!
