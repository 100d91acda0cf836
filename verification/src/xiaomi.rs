//! The Xiaomi / Mi Malaysia product page parser.

use vstd::prelude::*;
use crate::camera::{parse_camera_spec, parse_camera_with, CameraRule};
use crate::html::{first_text, first_text_matching, texts_matching, texts_of, vendor_page_title, vendor_title, Page};
use crate::sites::{
    find_image, lower_contains, lower_has, page_image, price_from_text, price_model, source_info,
    source_model, strs_view,
};
use crate::specs::{opt_view, Cameras, Spec, same_identity, SpecModel};
use crate::text::{contains_seq, lowercase_of, remove_all, remove_str, string_views, trim_str, trim_ws};

verus! {

/// Brand and model from a page title: the brand is `Xiaomi`, the model the
/// title without the words `Specifications` and then `specs`, trimmed.
pub open spec fn brand_model_spec(title: Seq<char>) -> (Option<Seq<char>>, Seq<char>) {
    (Some("Xiaomi"@), trim_ws(remove_all(remove_all(title, "Specifications"@), "specs"@)))
}

/// Brand and model from a page title.
pub fn extract_brand_model(title: &str) -> (r: (Option<String>, String))
    ensures
        r.0 is Some,
        (Some(r.0->0@), r.1@) == brand_model_spec(title@),
{
    let a = remove_str(title, "Specifications");
    let b = remove_str(a.as_str(), "specs");
    (Some(String::from_str("Xiaomi")), trim_str(b.as_str()))
}

/// Splits a camera text into roles with Xiaomi's keywords: `tele`, then
/// `ultra` or `ultrawide`, then `wide` without `ultra`; the first other
/// description is the main camera and the rest are listed under `other`.
pub fn parse_camera(s: &str) -> (c: Cameras)
    ensures
        c@ == parse_camera_spec(CameraRule::Xiaomi, s@),
{
    parse_camera_with(CameraRule::Xiaomi, s)
}

/// The `i`-th term with the `i`-th definition, or an empty definition when
/// there are fewer definitions than terms.
pub open spec fn term_pairs(terms: Seq<Seq<char>>, defs: Seq<Seq<char>>) -> Seq<(Seq<char>, Seq<char>)> {
    Seq::new(terms.len(), |i: int| (terms[i], if i < defs.len() { defs[i] } else { Seq::<char>::empty() }))
}

/// One term and its definition: a term mentioning display, battery or
/// camera (in any case) sets that field, any other term goes to the raw map.
pub open spec fn pair_step(s: SpecModel, kv: (Seq<char>, Seq<char>)) -> SpecModel {
    let (k, v) = kv;
    if lower_has(k, "display"@) {
        SpecModel { display: Some(v), ..s }
    } else if lower_has(k, "battery"@) {
        SpecModel { battery: Some(v), ..s }
    } else if lower_has(k, "camera"@) {
        SpecModel { cameras: Some(parse_camera_spec(CameraRule::Xiaomi, v)), ..s }
    } else {
        SpecModel { raw: s.raw.insert(k, v), ..s }
    }
}

pub open spec fn pair_fold() -> spec_fn(SpecModel, (Seq<char>, Seq<char>)) -> SpecModel {
    |s: SpecModel, kv: (Seq<char>, Seq<char>)| pair_step(s, kv)
}

pub open spec fn image_marks() -> Seq<Seq<char>> {
    seq!["/images/"@, "mi.com"@]
}

/// The record built from what a Xiaomi page shows: brand and model from
/// `title`; the `dts` terms with the `dds` definitions; `price` as a
/// Malaysian price; `image` under the raw key `image`; and the source
/// `mi.com` fetched from `url` at `at`.
pub open spec fn assemble_spec(
    url: Seq<char>,
    at: Seq<char>,
    title: Seq<char>,
    dts: Seq<Seq<char>>,
    dds: Seq<Seq<char>>,
    price: Option<Seq<char>>,
    image: Option<Seq<char>>,
) -> SpecModel {
    let (brand, model) = brand_model_spec(title);
    let base = SpecModel { brand: brand, ..SpecModel::blank(model) };
    let filled = term_pairs(dts, dds).fold_left(base, pair_fold());
    let priced = match price {
        Some(p) => SpecModel { price: Some(price_model(p)), ..filled },
        None => filled,
    };
    let imaged = match image {
        Some(src) => SpecModel { raw: priced.raw.insert("image"@, src), ..priced },
        None => priced,
    };
    SpecModel { sources: imaged.sources.push(source_model(url, at, Some("mi.com"@))), ..imaged }
}

/// The record a Xiaomi page gives: its title, its `dt` and `dd` texts, its
/// first `.price`, `.productPrice` or `.product__price` text and its first
/// image from `/images/` or `mi.com`, put together by `assemble_spec`.
pub open spec fn page_spec(url: Seq<char>, source: Seq<char>, at: Seq<char>) -> SpecModel {
    assemble_spec(
        url,
        at,
        vendor_title(source),
        texts_of(source, "dt"@),
        texts_of(source, "dd"@),
        first_text(source, ".price, .productPrice, .product__price"@),
        page_image(source, image_marks()),
    )
}

fn apply_pair(spec: &mut Spec, k: &str, v: &str)
    ensures
        final(spec)@ == pair_step(old(spec)@, (k@, v@)),
{
    let ghost before = spec@;
    if lower_contains(k, "display") {
        spec.display = Some(String::from_str(v));
    } else if lower_contains(k, "battery") {
        spec.battery = Some(String::from_str(v));
    } else if lower_contains(k, "camera") {
        spec.cameras = Some(parse_camera(v));
    } else {
        spec.raw.insert(String::from_str(k), String::from_str(v));
    }
    proof {
        assert(spec@ =~= pair_step(before, (k@, v@)));
    }
}

/// Builds the record of a Xiaomi page from what the page shows (see
/// `assemble_spec`).
pub fn assemble(
    url: &str,
    scraped_at: &str,
    title: &str,
    dts: &Vec<String>,
    dds: &Vec<String>,
    price: &Option<String>,
    image: &Option<String>,
) -> (r: Spec)
    ensures
        r@ == assemble_spec(url@, scraped_at@, title@, string_views(dts@), string_views(dds@), opt_view(*price), opt_view(*image)),
{
    let (brand, model) = extract_brand_model(title);
    let mut spec = Spec::new(model);
    spec.brand = brand;
    let ghost base = spec@;
    proof {
        assert(base =~= SpecModel { brand: brand_model_spec(title@).0, ..SpecModel::blank(brand_model_spec(title@).1) });
    }
    let ghost pairs = term_pairs(string_views(dts@), string_views(dds@));
    let mut i: usize = 0;
    while i < dts.len()
        invariant
            i <= dts@.len(),
            pairs == term_pairs(string_views(dts@), string_views(dds@)),
            spec@ == pairs.take(i as int).fold_left(base, pair_fold()),
        decreases dts@.len() - i,
    {
        let empty = String::new();
        let v = if i < dds.len() { &dds[i] } else { &empty };
        apply_pair(&mut spec, dts[i].as_str(), v.as_str());
        proof {
            assert(pairs.take(i + 1).drop_last() =~= pairs.take(i as int));
            assert(pairs[i as int] == (dts@[i as int]@, v@));
        }
        i = i + 1;
    }
    proof {
        assert(pairs.take(dts@.len() as int) =~= pairs);
    }
    let ghost filled = spec@;
    match price {
        Some(p) => {
            spec.price = Some(price_from_text(p.as_str()));
        },
        None => {},
    }
    let ghost priced = spec@;
    proof {
        assert(priced =~= match opt_view(*price) {
            Some(p) => SpecModel { price: Some(price_model(p)), ..filled },
            None => filled,
        });
    }
    match image {
        Some(src) => {
            spec.raw.insert(String::from_str("image"), src.clone());
        },
        None => {},
    }
    let ghost imaged = spec@;
    proof {
        assert(imaged =~= match opt_view(*image) {
            Some(src) => SpecModel { raw: priced.raw.insert("image"@, src), ..priced },
            None => priced,
        });
    }
    let src = source_info(url, scraped_at, Some("mi.com"));
    spec.sources.push(src);
    proof {
        assert(spec@ =~= SpecModel { sources: imaged.sources.push(source_model(url@, scraped_at@, Some("mi.com"@))), ..imaged });
    }
    spec
}

/// Parses a Xiaomi product page fetched from `url` at time `scraped_at`.
pub fn parse(url: &str, body: &str, scraped_at: &str) -> (r: Spec)
    ensures
        r@ == page_spec(url@, body@, scraped_at@),
{
    let page = Page::new(body);
    let title = vendor_page_title(&page);
    let dts = texts_matching(&page, "dt");
    let dds = texts_matching(&page, "dd");
    let price = first_text_matching(&page, ".price, .productPrice, .product__price");
    let marks = ["/images/", "mi.com"];
    proof {
        assert(strs_view(marks@) =~= image_marks());
    }
    let image = find_image(&page, &marks);
    assemble(url, scraped_at, title.as_str(), &dts, &dds, &price, &image)
}

/// Folding term/definition pairs into a record leaves its brand, model and
/// sources as they were.
pub(crate) proof fn lemma_fill_keeps_identity(pairs: Seq<(Seq<char>, Seq<char>)>, base: SpecModel)
    ensures
        same_identity(pairs.fold_left(base, pair_fold()), base),
    decreases pairs.len(),
{
    if pairs.len() > 0 {
        lemma_fill_keeps_identity(pairs.drop_last(), base);
    }
}

/// The `i`-th term goes with the `i`-th definition, or with an empty
/// definition when there are fewer definitions than terms; there is one
/// pair per term.
pub proof fn lemma_term_pairs(terms: Seq<Seq<char>>, defs: Seq<Seq<char>>)
    ensures
        term_pairs(terms, defs).len() == terms.len(),
        forall|i: int| 0 <= i < terms.len() && i < defs.len() ==> #[trigger] term_pairs(terms, defs)[i] == (terms[i], defs[i]),
        forall|i: int| defs.len() <= i < terms.len() ==> #[trigger] term_pairs(terms, defs)[i] == (terms[i], Seq::<char>::empty()),
{
}

/// What one term and its definition do to a Xiaomi record, tested on the
/// lowercased term in this order: `display` sets the display to the
/// definition, else `battery` the battery, else `camera` the cameras parsed
/// from it; any other term maps to the definition in the raw map. Each case
/// changes that one field and nothing else.
pub proof fn lemma_pair_effect(s: SpecModel, k: Seq<char>, v: Seq<char>)
    ensures
        ({
            let low = lowercase_of(k);
            let r = pair_step(s, (k, v));
            if contains_seq(low, "display"@) {
                r == SpecModel { display: Some(v), ..s }
            } else if contains_seq(low, "battery"@) {
                r == SpecModel { battery: Some(v), ..s }
            } else if contains_seq(low, "camera"@) {
                r == SpecModel { cameras: Some(parse_camera_spec(CameraRule::Xiaomi, v)), ..s }
            } else {
                r == SpecModel { raw: s.raw.insert(k, v), ..s }
            }
        }),
{
}

} // verus!
