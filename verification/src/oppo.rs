//! The OPPO Malaysia product page parser.

use vstd::prelude::*;
use crate::camera::{parse_camera_spec, parse_camera_with, CameraRule};
use crate::html::{
    element_texts, first_text, first_text_matching, html_rows, html_text_nodes, opt_rows_view,
    opt_texts_view, row_view, select_rows, select_text_nodes, texts_view, vendor_page_title,
    vendor_title, Page,
};
use crate::sites::{
    lemma_split_once_first, lemma_split_once_none, lower_contains, lower_has, price_from_text,
    price_model, source_info, source_model, split_once, split_once_at,
};
use crate::specs::{opt_view, Cameras, Spec, same_identity, SpecModel};
use crate::text::{
    contains_seq, element_text, element_text_of, lowercase_of, remove_all, remove_str, trim_str,
    trim_ws,
};

verus! {

/// Brand and model from a page title: the brand is `OPPO`, the model the
/// title without the word `OPPO`, trimmed.
pub open spec fn brand_model_spec(title: Seq<char>) -> (Option<Seq<char>>, Seq<char>) {
    (Some("OPPO"@), trim_ws(remove_all(title, "OPPO"@)))
}

/// Brand and model from a page title.
pub fn extract_brand_model(title: &str) -> (r: (Option<String>, String))
    ensures
        r.0 is Some,
        (Some(r.0->0@), r.1@) == brand_model_spec(title@),
{
    let without = remove_str(title, "OPPO");
    (Some(String::from_str("OPPO")), trim_str(without.as_str()))
}

/// Splits a camera text into roles with OPPO's keywords: `tele`, then
/// `ultra`, then `wide`; the first other description is the main camera and
/// the rest are listed under `other`.
pub fn parse_camera(s: &str) -> (c: Cameras)
    ensures
        c@ == parse_camera_spec(CameraRule::Oppo, s@),
{
    parse_camera_with(CameraRule::Oppo, s)
}

/// The selector of the specification list items.
pub open spec fn list_css() -> Seq<char> {
    ".specs-list li, .specs_list li, .specs li"@
}

/// One specification list item `key: value`: a key mentioning display,
/// battery or camera (in any case) sets that field, any other key goes to
/// the raw map; an item without `:` changes nothing.
pub open spec fn item_step(s: SpecModel, text: Seq<char>) -> SpecModel {
    match split_once(text, ':') {
        None => s,
        Some((k0, v0)) => {
            let k = trim_ws(k0);
            let v = trim_ws(v0);
            if lower_has(k, "display"@) {
                SpecModel { display: Some(v), ..s }
            } else if lower_has(k, "battery"@) {
                SpecModel { battery: Some(v), ..s }
            } else if lower_has(k, "camera"@) {
                SpecModel { cameras: Some(parse_camera_spec(CameraRule::Oppo, v)), ..s }
            } else {
                SpecModel { raw: s.raw.insert(k, v), ..s }
            }
        },
    }
}

pub open spec fn item_fold() -> spec_fn(SpecModel, Seq<char>) -> SpecModel {
    |s: SpecModel, t: Seq<char>| item_step(s, t)
}

/// One table row: with a header cell, a key mentioning camera sets the
/// cameras from the first data cell, any other key maps to the first data
/// cell's text (empty when there is none) in the raw map.
pub open spec fn row_step(s: SpecModel, row: (Seq<Seq<Seq<char>>>, Seq<Seq<Seq<char>>>)) -> SpecModel {
    let val = if row.1.len() > 0 { element_text(row.1[0]) } else { Seq::<char>::empty() };
    if row.0.len() > 0 {
        let k = element_text(row.0[0]);
        if lower_has(k, "camera"@) {
            SpecModel { cameras: Some(parse_camera_spec(CameraRule::Oppo, val)), ..s }
        } else {
            SpecModel { raw: s.raw.insert(k, val), ..s }
        }
    } else {
        s
    }
}

pub open spec fn row_fold() -> spec_fn(SpecModel, (Seq<Seq<Seq<char>>>, Seq<Seq<Seq<char>>>)) -> SpecModel {
    |s: SpecModel, r: (Seq<Seq<Seq<char>>>, Seq<Seq<Seq<char>>>)| row_step(s, r)
}

/// The selector of the price element.
pub open spec fn price_css() -> Seq<char> {
    ".price, .product-price"@
}

/// The record built from what an OPPO page shows: brand and model from
/// `title`; the specification list items when there is a list (`items`,
/// the text nodes of each item), otherwise the table `rows`; `price` as a
/// Malaysian price; and the source `oppo.com` fetched from `url` at `at`.
pub open spec fn assemble_spec(
    url: Seq<char>,
    at: Seq<char>,
    title: Seq<char>,
    items: Option<Seq<Seq<Seq<char>>>>,
    rows: Option<Seq<(Seq<Seq<Seq<char>>>, Seq<Seq<Seq<char>>>)>>,
    price: Option<Seq<char>>,
) -> SpecModel {
    let (brand, model) = brand_model_spec(title);
    let base = SpecModel { brand: brand, ..SpecModel::blank(model) };
    let filled = match items {
        Some(items) => items.map_values(|e: Seq<Seq<char>>| element_text(e)).fold_left(base, item_fold()),
        None => match rows {
            Some(rows) => rows.fold_left(base, row_fold()),
            None => base,
        },
    };
    let priced = match price {
        Some(p) => SpecModel { price: Some(price_model(p)), ..filled },
        None => filled,
    };
    SpecModel { sources: priced.sources.push(source_model(url, at, Some("oppo.com"@))), ..priced }
}

/// The record an OPPO page gives: its title, its specification list items
/// (the list selector), its `table tr` rows with `th` and `td` cells, and
/// its first price text, put together by `assemble_spec`.
pub open spec fn page_spec(url: Seq<char>, source: Seq<char>, at: Seq<char>) -> SpecModel {
    assemble_spec(
        url,
        at,
        vendor_title(source),
        html_text_nodes(source, list_css()),
        html_rows(source, "table tr"@, "th"@, "td"@),
        first_text(source, price_css()),
    )
}

fn apply_item(spec: &mut Spec, text: &str)
    ensures
        final(spec)@ == item_step(old(spec)@, text@),
{
    match split_once_at(text, ':') {
        None => {},
        Some((k0, v0)) => {
            let key = trim_str(k0.as_str());
            let val = trim_str(v0.as_str());
            let ghost before = spec@;
            if lower_contains(key.as_str(), "display") {
                spec.display = Some(val);
            } else if lower_contains(key.as_str(), "battery") {
                spec.battery = Some(val);
            } else if lower_contains(key.as_str(), "camera") {
                spec.cameras = Some(parse_camera(val.as_str()));
            } else {
                spec.raw.insert(key, val);
            }
            proof {
                assert(spec@ =~= item_step(before, text@));
            }
        },
    }
}

fn apply_row(spec: &mut Spec, row: &(Vec<Vec<String>>, Vec<Vec<String>>))
    ensures
        final(spec)@ == row_step(old(spec)@, row_view(*row)),
{
    let val = if row.1.len() > 0 {
        element_text_of(&row.1[0])
    } else {
        String::new()
    };
    proof {
        if row.1@.len() > 0 {
            assert(texts_view(row.1@)[0] == crate::text::string_views(row.1@[0]@));
        }
    }
    if row.0.len() > 0 {
        let key = element_text_of(&row.0[0]);
        proof {
            assert(texts_view(row.0@)[0] == crate::text::string_views(row.0@[0]@));
        }
        let ghost before = spec@;
        if lower_contains(key.as_str(), "camera") {
            spec.cameras = Some(parse_camera(val.as_str()));
        } else {
            spec.raw.insert(key, val);
        }
        proof {
            assert(spec@ =~= row_step(before, row_view(*row)));
        }
    }
}

/// Builds the record of an OPPO page from what the page shows (see
/// `assemble_spec`).
pub fn assemble(
    url: &str,
    scraped_at: &str,
    title: &str,
    items: &Option<Vec<Vec<String>>>,
    rows: &Option<Vec<(Vec<Vec<String>>, Vec<Vec<String>>)>>,
    price: &Option<String>,
) -> (r: Spec)
    ensures
        r@ == assemble_spec(url@, scraped_at@, title@, opt_texts_view(*items), opt_rows_view(*rows), opt_view(*price)),
{
    let (brand, model) = extract_brand_model(title);
    let mut spec = Spec::new(model);
    spec.brand = brand;
    let ghost base = spec@;
    proof {
        assert(base =~= SpecModel { brand: brand_model_spec(title@).0, ..SpecModel::blank(brand_model_spec(title@).1) });
    }
    match items {
        Some(items) => {
            let texts = element_texts(items);
            let ghost ts = crate::text::string_views(texts@);
            let mut i: usize = 0;
            while i < texts.len()
                invariant
                    i <= texts@.len(),
                    ts == crate::text::string_views(texts@),
                    spec@ == ts.take(i as int).fold_left(base, item_fold()),
                decreases texts@.len() - i,
            {
                apply_item(&mut spec, texts[i].as_str());
                proof {
                    assert(ts.take(i + 1).drop_last() =~= ts.take(i as int));
                }
                i = i + 1;
            }
            proof {
                assert(ts.take(texts@.len() as int) =~= ts);
            }
        },
        None => {
            match rows {
                Some(rows) => {
                    let ghost rs = crate::html::rows_view(rows@);
                    let mut i: usize = 0;
                    while i < rows.len()
                        invariant
                            i <= rows@.len(),
                            rs == crate::html::rows_view(rows@),
                            spec@ == rs.take(i as int).fold_left(base, row_fold()),
                        decreases rows@.len() - i,
                    {
                        apply_row(&mut spec, &rows[i]);
                        proof {
                            assert(rs.take(i + 1).drop_last() =~= rs.take(i as int));
                        }
                        i = i + 1;
                    }
                    proof {
                        assert(rs.take(rows@.len() as int) =~= rs);
                    }
                },
                None => {},
            }
        },
    }
    let ghost filled = spec@;
    match price {
        Some(p) => {
            spec.price = Some(price_from_text(p.as_str()));
        },
        None => {},
    }
    let ghost priced = spec@;
    proof {
        assert(priced =~= match opt_view(*price) {
            Some(p) => SpecModel { price: Some(price_model(p)), ..filled },
            None => filled,
        });
    }
    let src = source_info(url, scraped_at, Some("oppo.com"));
    spec.sources.push(src);
    proof {
        assert(spec@ =~= SpecModel { sources: priced.sources.push(source_model(url@, scraped_at@, Some("oppo.com"@))), ..priced });
    }
    spec
}

/// Parses an OPPO product page fetched from `url` at time `scraped_at`.
pub fn parse(url: &str, body: &str, scraped_at: &str) -> (r: Spec)
    ensures
        r@ == page_spec(url@, body@, scraped_at@),
{
    let page = Page::new(body);
    let title = vendor_page_title(&page);
    let items = select_text_nodes(&page, ".specs-list li, .specs_list li, .specs li");
    let rows = select_rows(&page, "table tr", "th", "td");
    let price = first_text_matching(&page, ".price, .product-price");
    assemble(url, scraped_at, title.as_str(), &items, &rows, &price)
}

/// Folding list items or table rows into a record leaves its brand, model
/// and sources as they were.
pub(crate) proof fn lemma_fill_keeps_identity(
    items: Seq<Seq<char>>,
    rows: Seq<(Seq<Seq<Seq<char>>>, Seq<Seq<Seq<char>>>)>,
    base: SpecModel,
)
    ensures
        same_identity(items.fold_left(base, item_fold()), base),
        same_identity(rows.fold_left(base, row_fold()), base),
    decreases items.len() + rows.len(),
{
    if items.len() > 0 {
        lemma_fill_keeps_identity(items.drop_last(), Seq::empty(), base);
    }
    if rows.len() > 0 {
        lemma_fill_keeps_identity(Seq::empty(), rows.drop_last(), base);
    }
}

/// What one specification list item does to an OPPO record. An item
/// `{key}:{value}` (the key holding no `:`) is read as the trimmed key and
/// trimmed value, tested on the lowercased key in this order: `display`
/// sets the display, else `battery` the battery, else `camera` the cameras
/// parsed from the value; any other key maps to the value in the raw map.
/// Each case changes that one field and nothing else.
pub proof fn lemma_item_effect(s: SpecModel, key: Seq<char>, value: Seq<char>)
    requires
        forall|j: int| 0 <= j < key.len() ==> key[j] != ':',
    ensures
        ({
            let k = trim_ws(key);
            let v = trim_ws(value);
            let low = lowercase_of(k);
            let r = item_step(s, key + seq![':'] + value);
            if contains_seq(low, "display"@) {
                r == SpecModel { display: Some(v), ..s }
            } else if contains_seq(low, "battery"@) {
                r == SpecModel { battery: Some(v), ..s }
            } else if contains_seq(low, "camera"@) {
                r == SpecModel { cameras: Some(parse_camera_spec(CameraRule::Oppo, v)), ..s }
            } else {
                r == SpecModel { raw: s.raw.insert(k, v), ..s }
            }
        }),
{
    lemma_split_once_first(key, ':', value);
}

/// A list item without `:` changes nothing.
pub proof fn lemma_item_without_colon(s: SpecModel, text: Seq<char>)
    requires
        forall|j: int| 0 <= j < text.len() ==> text[j] != ':',
    ensures
        item_step(s, text) == s,
{
    lemma_split_once_none(text, ':');
}

/// What one table row does to an OPPO record: a row with a header cell maps
/// the header's text to its first data cell's text (empty without data
/// cells), setting the cameras parsed from it when the lowercased key holds
/// `camera` and otherwise entering it in the raw map; a row without a
/// header cell changes nothing.
pub proof fn lemma_row_effect(s: SpecModel, row: (Seq<Seq<Seq<char>>>, Seq<Seq<Seq<char>>>))
    ensures
        row.0.len() == 0 ==> row_step(s, row) == s,
        row.0.len() > 0 ==> ({
            let k = element_text(row.0[0]);
            let v = if row.1.len() > 0 { element_text(row.1[0]) } else { Seq::<char>::empty() };
            if contains_seq(lowercase_of(k), "camera"@) {
                row_step(s, row) == SpecModel { cameras: Some(parse_camera_spec(CameraRule::Oppo, v)), ..s }
            } else {
                row_step(s, row) == SpecModel { raw: s.raw.insert(k, v), ..s }
            }
        }),
{
}

} // verus!
