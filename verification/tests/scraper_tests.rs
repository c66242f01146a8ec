use sportvision_scraper::extract::derive_high_res;
use sportvision_scraper::extract::extract;
use sportvision_scraper::json::products_from_json;
use sportvision_scraper::json::products_to_json;
use sportvision_scraper::markup::ListingNode;
use sportvision_scraper::pages::page_url;
use sportvision_scraper::pages::plan_requests;
use sportvision_scraper::pages::Category;
use sportvision_scraper::pages::ScrapeRequest;
use sportvision_scraper::pages::Selection;
use sportvision_scraper::pipeline::aggregate_bodies;
use sportvision_scraper::pipeline::collect_page;
use sportvision_scraper::pipeline::parse_page;
use sportvision_scraper::product::ExtractError;
use sportvision_scraper::product::FieldName;
use sportvision_scraper::product::Product;

fn node_with(
    image: Option<&str>,
    category: Option<&str>,
    brand: Option<&str>,
    title: Option<&str>,
    shortname: Option<&str>,
    price: Option<&str>,
    discount: Option<&str>,
) -> ListingNode {
    ListingNode {
        image_src: image.map(String::from),
        category_text: category.map(String::from),
        brand_html: brand.map(String::from),
        title_text: title.map(String::from),
        shortname_text: shortname.map(String::from),
        price_text: price.map(String::from),
        discount_text: discount.map(String::from),
    }
}

fn full_node() -> ListingNode {
    node_with(
        Some(" /images/thumbs_350/shoe_350_350px.jpg "),
        Some(" PATIKE "),
        Some(" Nike "),
        Some(" Air Zoom 90 "),
        Some(" DH4071-001 "),
        Some(" 12.990 RSD "),
        Some(" 25 "),
    )
}

fn item_markup(
    img: Option<&str>,
    category: &str,
    brand: Option<&str>,
    title: &str,
    shortname: Option<&str>,
    price: &str,
    discount: Option<&str>,
) -> String {
    let img_part = match img {
        Some(src) => format!("<div class=\"img-wrapper\"><img src=\"{}\"/></div>", src),
        None => String::from("<div class=\"img-wrapper\"></div>"),
    };
    let brand_part = match brand {
        Some(b) => format!("<div class=\"brand\"><a>{}</a></div>", b),
        None => String::from(""),
    };
    let shortname_part = match shortname {
        Some(s) => format!("<div class=\"product-shortname\">{}</div>", s),
        None => String::from(""),
    };
    let discount_part = match discount {
        Some(d) => format!("<div class=\"text-discount\">{}</div>", d),
        None => String::from(""),
    };
    format!(
        "<div class=\"wrapper-gridthree-view product-item\"><div class=\"row\"><div class=\"item-data\">{}<div class=\"text-wrapper\"><div class=\"category-wrapper\"><span>{}</span></div>{}<div class=\"title\"><a><span>Artikl</span>{}</a></div></div>{}<div class=\"prices-wrapper\"><div class=\"current-price\"><small>RSD</small>{}</div></div>{}</div></div></div>",
        img_part, category, brand_part, title, shortname_part, price, discount_part
    )
}

fn page_markup(items: &[String]) -> String {
    format!(
        "<html><body><div class=\"grid\">{}</div></body></html>",
        items.join("\n")
    )
}

#[test]
fn extract_full_node_fields() {
    let node = full_node();
    let p = extract(&node).unwrap();
    assert_eq!(
        p.image_url,
        "https://sportvision.rs/images/thumbs_350/shoe_350_350px.jpg"
    );
    assert_eq!(
        p.image_url_high_res,
        "https://sportvision.rs/images/thumbs_800/shoe_800_800px.jpg"
    );
    assert_eq!(p.brand_name, "Nike");
    assert_eq!(p.title, "Air Zoom 90");
    assert_eq!(p.short_description, "DH4071-001");
    assert_eq!(p.current_price, "12.990 RSD");
    assert_eq!(p.id, "PATIKE");
    assert!(p.stock <= 127);
    assert_eq!(p.discount, 25);
}

#[test]
fn extract_repeatable_except_stock() {
    let node = full_node();
    let p1 = extract(&node).unwrap();
    let p2 = extract(&node).unwrap();
    assert_eq!(p1.image_url, p2.image_url);
    assert_eq!(p1.image_url_high_res, p2.image_url_high_res);
    assert_eq!(p1.brand_name, p2.brand_name);
    assert_eq!(p1.title, p2.title);
    assert_eq!(p1.short_description, p2.short_description);
    assert_eq!(p1.current_price, p2.current_price);
    assert_eq!(p1.id, p2.id);
    assert_eq!(p1.discount, p2.discount);
    assert!(p1.stock <= 127);
    assert!(p2.stock <= 127);
}

#[test]
fn extract_optional_fields_default() {
    let node = node_with(
        Some("/i.jpg"),
        Some("ODECA"),
        None,
        Some("Majica"),
        None,
        Some("1.500 RSD"),
        None,
    );
    let p = extract(&node).unwrap();
    assert_eq!(p.brand_name, "");
    assert_eq!(p.short_description, "");
    assert_eq!(p.discount, 0);
}

#[test]
fn extract_missing_image_fails() {
    let node = node_with(None, Some("C"), None, Some("T"), None, Some("P"), None);
    assert_eq!(
        extract(&node),
        Err(ExtractError::MissingRequiredField(FieldName::ImageUrl))
    );
}

#[test]
fn extract_missing_category_fails() {
    let node = node_with(Some("/i.jpg"), None, None, Some("T"), None, Some("P"), None);
    assert_eq!(
        extract(&node),
        Err(ExtractError::MissingRequiredField(FieldName::CategoryId))
    );
}

#[test]
fn extract_missing_title_fails() {
    let node = node_with(Some("/i.jpg"), Some("C"), None, None, None, Some("P"), None);
    assert_eq!(
        extract(&node),
        Err(ExtractError::MissingRequiredField(FieldName::Title))
    );
}

#[test]
fn extract_missing_price_fails() {
    let node = node_with(Some("/i.jpg"), Some("C"), None, Some("T"), None, None, None);
    assert_eq!(
        extract(&node),
        Err(ExtractError::MissingRequiredField(FieldName::CurrentPrice))
    );
}

#[test]
fn discount_unparseable_defaults_to_zero() {
    let mut node = full_node();
    node.discount_text = Some(String::from("-30%"));
    assert_eq!(extract(&node).unwrap().discount, 0);
    node.discount_text = Some(String::from("300"));
    assert_eq!(extract(&node).unwrap().discount, 0);
    node.discount_text = Some(String::from(""));
    assert_eq!(extract(&node).unwrap().discount, 0);
    node.discount_text = Some(String::from("+40"));
    assert_eq!(extract(&node).unwrap().discount, 40);
}

#[test]
fn high_res_derivation_is_idempotent() {
    let url = String::from("https://sportvision.rs/images/thumbs_350/shoe_350_350px.jpg");
    let once = derive_high_res(&url);
    let twice = derive_high_res(&once);
    assert_eq!(
        once,
        "https://sportvision.rs/images/thumbs_800/shoe_800_800px.jpg"
    );
    assert_eq!(once, twice);
}

#[test]
fn high_res_without_tokens_is_unchanged() {
    let url = String::from("https://sportvision.rs/images/full/shoe.jpg");
    assert_eq!(derive_high_res(&url), url);
}

#[test]
fn parse_page_yields_one_result_per_node() {
    let items = vec![
        item_markup(Some("/a.jpg"), "PATIKE", Some("Nike"), "Prvi", None, "100 RSD", None),
        item_markup(None, "PATIKE", None, "Drugi", None, "200 RSD", None),
        item_markup(Some("/c.jpg"), "OPREMA", None, "Treci", None, "300 RSD", None),
    ];
    let markup = page_markup(&items);
    let results = parse_page(&markup);
    assert_eq!(results.len(), 3);
    assert_eq!(results[0].as_ref().unwrap().title, "Prvi");
    assert_eq!(
        results[1],
        Err(ExtractError::MissingRequiredField(FieldName::ImageUrl))
    );
    assert_eq!(results[2].as_ref().unwrap().title, "Treci");
}

#[test]
fn parse_page_empty_markup_yields_nothing() {
    let results = parse_page("<html><body><p>nema proizvoda</p></body></html>");
    assert_eq!(results.len(), 0);
}

#[test]
fn parse_page_reads_markup_values() {
    let items = vec![item_markup(
        Some("/images/thumbs_350/x_350_350px.jpg"),
        "KOPACKE",
        Some("Adidas"),
        "Predator",
        Some("XY-123"),
        "9.000 RSD",
        Some("15"),
    )];
    let markup = page_markup(&items);
    let results = parse_page(&markup);
    assert_eq!(results.len(), 1);
    let p = results[0].as_ref().unwrap();
    assert_eq!(
        p.image_url,
        "https://sportvision.rs/images/thumbs_350/x_350_350px.jpg"
    );
    assert_eq!(
        p.image_url_high_res,
        "https://sportvision.rs/images/thumbs_800/x_800_800px.jpg"
    );
    assert_eq!(p.brand_name, "Adidas");
    assert_eq!(p.title, "Predator");
    assert_eq!(p.short_description, "XY-123");
    assert_eq!(p.current_price, "9.000 RSD");
    assert_eq!(p.id, "KOPACKE");
    assert_eq!(p.discount, 15);
}

#[test]
fn collect_page_splits_successes_and_failures() {
    let items = vec![
        item_markup(Some("/a.jpg"), "PATIKE", None, "Prvi", None, "100 RSD", None),
        item_markup(None, "PATIKE", None, "Drugi", None, "200 RSD", None),
    ];
    let results = parse_page(&page_markup(&items));
    let (products, errors) = collect_page(&results);
    assert_eq!(products.len(), 1);
    assert_eq!(products[0].title, "Prvi");
    assert_eq!(
        errors,
        vec![ExtractError::MissingRequiredField(FieldName::ImageUrl)]
    );
}

#[test]
fn merge_preserves_launch_order() {
    let page0 = page_markup(&[
        item_markup(Some("/a.jpg"), "C", None, "A1", None, "1 RSD", None),
        item_markup(Some("/b.jpg"), "C", None, "A2", None, "2 RSD", None),
    ]);
    let page1 = page_markup(&[item_markup(Some("/c.jpg"), "C", None, "B1", None, "3 RSD", None)]);
    let bodies = vec![Some(page0), Some(page1)];
    let out = aggregate_bodies(&bodies);
    let titles: Vec<&str> = out.products.iter().map(|p| p.title.as_str()).collect();
    assert_eq!(titles, vec!["A1", "A2", "B1"]);
    assert!(out.failed_pages.is_empty());
    assert_eq!(out.node_errors.len(), 0);
}

#[test]
fn failed_page_does_not_disturb_others() {
    let page0 = page_markup(&[item_markup(Some("/a.jpg"), "C", None, "A1", None, "1 RSD", None)]);
    let page2 = page_markup(&[item_markup(Some("/c.jpg"), "C", None, "B1", None, "3 RSD", None)]);
    let with_failure = vec![Some(page0.clone()), None, Some(page2.clone())];
    let without = vec![Some(page0), Some(page2)];
    let out_failure = aggregate_bodies(&with_failure);
    let out_ok = aggregate_bodies(&without);
    let titles_failure: Vec<&str> =
        out_failure.products.iter().map(|p| p.title.as_str()).collect();
    let titles_ok: Vec<&str> = out_ok.products.iter().map(|p| p.title.as_str()).collect();
    assert_eq!(titles_failure, titles_ok);
    assert_eq!(out_failure.failed_pages, vec![1]);
    assert!(out_ok.failed_pages.is_empty());
}

#[test]
fn plan_generates_pages_in_launch_order() {
    let selections = vec![
        Selection { category: Category::Odeca, page_count: 2 },
        Selection { category: Category::Oprema, page_count: 1 },
    ];
    let plan = plan_requests(&selections);
    assert_eq!(
        plan,
        vec![
            ScrapeRequest { category: Category::Odeca, page: 0 },
            ScrapeRequest { category: Category::Odeca, page: 1 },
            ScrapeRequest { category: Category::Oprema, page: 0 },
        ]
    );
}

#[test]
fn page_url_formula() {
    assert_eq!(
        page_url(Category::Odeca, 0),
        "https://sportvision.rs/odeca/page-0"
    );
    assert_eq!(
        page_url(Category::Proizvodi, 17),
        "https://sportvision.rs/proizvodi/page-17"
    );
    assert_eq!(
        page_url(Category::Obuca, 65535),
        "https://sportvision.rs/obuca/page-65535"
    );
    assert_eq!(
        page_url(Category::Oprema, 3),
        "https://sportvision.rs/oprema/page-3"
    );
}

#[test]
fn end_to_end_two_pages_of_odeca() {
    let selections = vec![Selection { category: Category::Odeca, page_count: 2 }];
    let plan = plan_requests(&selections);
    assert_eq!(plan.len(), 2);
    assert_eq!(page_url(plan[0].category, plan[0].page), "https://sportvision.rs/odeca/page-0");
    assert_eq!(page_url(plan[1].category, plan[1].page), "https://sportvision.rs/odeca/page-1");
    let page0 = page_markup(&[
        item_markup(Some("/a.jpg"), "ODECA", Some("Nike"), "Prva", Some("S1"), "1 RSD", Some("5")),
        item_markup(Some("/b.jpg"), "ODECA", Some("Puma"), "Druga", Some("S2"), "2 RSD", Some("6")),
        item_markup(Some("/c.jpg"), "ODECA", Some("Asics"), "Treca", Some("S3"), "3 RSD", Some("7")),
    ]);
    let page1 = page_markup(&[item_markup(
        Some("/d.jpg"),
        "ODECA",
        None,
        "Cetvrta",
        None,
        "4 RSD",
        None,
    )]);
    let out = aggregate_bodies(&vec![Some(page0), Some(page1)]);
    assert_eq!(out.products.len(), 4);
    assert_eq!(out.products[3].title, "Cetvrta");
    assert_eq!(out.products[3].brand_name, "");
    assert_eq!(out.products[3].short_description, "");
    assert_eq!(out.products[3].discount, 0);
}

#[test]
fn missing_image_node_fails_only_that_node() {
    let items = vec![
        item_markup(Some("/a.jpg"), "C", None, "Prvi", None, "1 RSD", None),
        item_markup(None, "C", None, "Drugi", None, "2 RSD", None),
        item_markup(Some("/c.jpg"), "C", None, "Treci", None, "3 RSD", None),
    ];
    let out = aggregate_bodies(&vec![Some(page_markup(&items))]);
    let titles: Vec<&str> = out.products.iter().map(|p| p.title.as_str()).collect();
    assert_eq!(titles, vec!["Prvi", "Treci"]);
    assert_eq!(
        out.node_errors,
        vec![ExtractError::MissingRequiredField(FieldName::ImageUrl)]
    );
}

fn sample_product(title: &str, stock: u8, discount: u8) -> Product {
    Product {
        image_url: String::from("https://sportvision.rs/images/thumbs_350/a_350_350px.jpg"),
        image_url_high_res: String::from(
            "https://sportvision.rs/images/thumbs_800/a_800_800px.jpg",
        ),
        brand_name: String::from("Nike"),
        title: String::from(title),
        short_description: String::from("SKU \"1\""),
        current_price: String::from("12.990 RSD"),
        id: String::from("PATIKE"),
        stock,
        discount,
    }
}

#[test]
fn json_of_empty_list() {
    let products: Vec<Product> = vec![];
    assert_eq!(products_to_json(&products), "[]");
}

#[test]
fn json_exact_text_one_record() {
    let products = vec![Product {
        image_url: String::from("https://sportvision.rs/i.jpg"),
        image_url_high_res: String::from("https://sportvision.rs/i.jpg"),
        brand_name: String::from(""),
        title: String::from("Majica"),
        short_description: String::from(""),
        current_price: String::from("1.500 RSD"),
        id: String::from("ODECA"),
        stock: 12,
        discount: 0,
    }];
    let expected = "[\n  {\n    \"image_url\": \"https://sportvision.rs/i.jpg\",\n    \"image_url_high_res\": \"https://sportvision.rs/i.jpg\",\n    \"brand_name\": \"\",\n    \"title\": \"Majica\",\n    \"short_description\": \"\",\n    \"current_price\": \"1.500 RSD\",\n    \"id\": \"ODECA\",\n    \"stock\": 12,\n    \"discount\": 0\n  }\n]";
    assert_eq!(products_to_json(&products), expected);
}

#[test]
fn json_round_trip_three_records() {
    let products = vec![
        sample_product("Air \\ \"Zoom\"", 0, 0),
        sample_product("Tab\there\nand there", 127, 255),
        sample_product("Obicna patika", 64, 30),
    ];
    let text = products_to_json(&products);
    let value: serde_json::Value = serde_json::from_str(&text).unwrap();
    let arr = value.as_array().unwrap();
    assert_eq!(arr.len(), 3);
    for (i, p) in products.iter().enumerate() {
        let o = &arr[i];
        assert_eq!(o["image_url"].as_str().unwrap(), p.image_url);
        assert_eq!(o["image_url_high_res"].as_str().unwrap(), p.image_url_high_res);
        assert_eq!(o["brand_name"].as_str().unwrap(), p.brand_name);
        assert_eq!(o["title"].as_str().unwrap(), p.title);
        assert_eq!(o["short_description"].as_str().unwrap(), p.short_description);
        assert_eq!(o["current_price"].as_str().unwrap(), p.current_price);
        assert_eq!(o["id"].as_str().unwrap(), p.id);
        assert_eq!(o["stock"].as_u64().unwrap(), p.stock as u64);
        assert_eq!(o["discount"].as_u64().unwrap(), p.discount as u64);
    }
}

#[test]
fn library_round_trip_parses_back() {
    let products = vec![
        sample_product("Air \\ \"Zoom\"", 3, 10),
        sample_product("Tab\there", 127, 255),
        sample_product("Drugi", 9, 0),
    ];
    let text = products_to_json(&products);
    let parsed = products_from_json(&text).unwrap();
    assert_eq!(parsed, products);
}

#[test]
fn empty_list_round_trip() {
    let products: Vec<Product> = vec![];
    let text = products_to_json(&products);
    assert_eq!(products_from_json(&text), Some(vec![]));
}

#[test]
fn parse_back_rejects_malformed_text() {
    assert!(products_from_json("nije json").is_none());
    assert!(products_from_json("[").is_none());
    assert!(products_from_json("").is_none());
}

#[test]
fn unicode_whitespace_is_trimmed() {
    let node = node_with(
        Some("\u{a0}/images/thumbs_350/x.jpg\u{a0}"),
        Some("\u{2003}ODECA\u{a0}"),
        Some("\u{a0}Nike\u{2028}"),
        Some("\u{1680}Majica\u{3000}"),
        Some("\u{2000}opis\u{200a}"),
        Some("\u{85}1.500 RSD\u{205f}"),
        Some("\u{a0} 25 \u{a0}"),
    );
    let p = extract(&node).unwrap();
    assert_eq!(p.image_url, "https://sportvision.rs/images/thumbs_350/x.jpg");
    assert_eq!(p.id, "ODECA");
    assert_eq!(p.brand_name, "Nike");
    assert_eq!(p.title, "Majica");
    assert_eq!(p.short_description, "opis");
    assert_eq!(p.current_price, "1.500 RSD");
    assert_eq!(p.discount, 25);
}

#[test]
fn trimming_matches_std_trim() {
    let node = node_with(
        Some(" /i.jpg "),
        Some("\u{202f}\u{2029}C\u{b}\u{c}"),
        None,
        Some(" T\u{2001}\u{2002}\u{2004}\u{2005}\u{2006}\u{2007}\u{2008}\u{2009}"),
        None,
        Some(" P "),
        None,
    );
    let p = extract(&node).unwrap();
    assert_eq!(p.id, "\u{202f}\u{2029}C\u{b}\u{c}".trim());
    assert_eq!(p.title, " T\u{2001}\u{2002}\u{2004}\u{2005}\u{2006}\u{2007}\u{2008}\u{2009}".trim());
}

#[test]
fn control_characters_round_trip() {
    let products = vec![sample_product("zvono\u{7}\u{8}\u{b}\u{c}\u{1f}\u{0}kraj", 1, 2)];
    let text = products_to_json(&products);
    assert!(text.contains("\\u0007"));
    assert!(text.contains("\\b"));
    assert!(text.contains("\\u000b"));
    assert!(text.contains("\\f"));
    assert!(text.contains("\\u001f"));
    assert!(text.contains("\\u0000"));
    let parsed = products_from_json(&text).unwrap();
    assert_eq!(parsed, products);
    let value: serde_json::Value = serde_json::from_str(&text).unwrap();
    assert_eq!(
        value[0]["title"].as_str().unwrap(),
        "zvono\u{7}\u{8}\u{b}\u{c}\u{1f}\u{0}kraj"
    );
}

#[test]
fn stock_always_within_bounds() {
    let node = full_node();
    for _ in 0..200 {
        let p = extract(&node).unwrap();
        assert!(p.stock <= 127);
    }
}
