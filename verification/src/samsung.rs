//! The Samsung Malaysia product page parser.

use vstd::prelude::*;
use crate::camera::{parse_camera_spec, parse_camera_with, CameraRule};
use crate::html::{
    first_text, first_text_matching, html_attr_values, html_table_rows, opt_attrs_view,
    opt_tables_view, row_view, rows_view, select_attr_values, select_table_rows, texts_view,
    vendor_page_title, vendor_title, Page,
};
use crate::sites::{
    find_image, lower_contains, lower_has, page_image, price_from_text, price_model, source_info,
    source_model, strs_view,
};
use crate::specs::{clone_opt, opt_view, Cameras, Spec, same_identity, SpecModel};
use crate::text::{
    chars_of, contains_seq, element_text, element_text_of, lowercase_of, remove_all, remove_str,
    seq_views, split_chars, split_on, string_of, string_views, trim_chars, trim_str, trim_ws,
    TrimSet,
};

verus! {

/// Brand and model from a page title. The title is split at `|`, `–` and
/// `-` and each piece trimmed; the first piece whose lowercase form
/// mentions `galaxy` gives the model, without the word `Samsung` and
/// trimmed. When no piece does, the model is the whole title. The brand is
/// always `Samsung`.
pub open spec fn brand_model_spec(title: Seq<char>) -> (Option<Seq<char>>, Seq<char>) {
    (Some("Samsung"@), model_from_pieces(split_on(title, seq!['|', '–', '-']), title))
}

/// The model from the first piece (trimmed) that mentions `galaxy`.
pub open spec fn model_from_pieces(pieces: Seq<Seq<char>>, title: Seq<char>) -> Seq<char>
    decreases pieces.len(),
{
    if pieces.len() == 0 {
        title
    } else if lower_has(trim_ws(pieces[0]), "galaxy"@) {
        trim_ws(remove_all(trim_ws(pieces[0]), "Samsung"@))
    } else {
        model_from_pieces(pieces.drop_first(), title)
    }
}

/// Brand and model from a page title.
pub fn extract_brand_model(title: &str) -> (r: (Option<String>, String))
    ensures
        r.0 is Some,
        (Some(r.0->0@), r.1@) == brand_model_spec(title@),
{
    let v = chars_of(title);
    let seps = vec!['|', '–', '-'];
    let pieces = split_chars(v.as_slice(), seps.as_slice());
    proof {
        assert(seps@ =~= seq!['|', '–', '-']);
    }
    let ghost ps = seq_views(pieces@);
    proof {
        assert(ps.skip(0) =~= ps);
    }
    let mut i: usize = 0;
    while i < pieces.len()
        invariant
            i <= pieces@.len(),
            ps == seq_views(pieces@),
            ps == split_on(title@, seq!['|', '–', '-']),
            model_from_pieces(ps, title@) == model_from_pieces(ps.skip(i as int), title@),
        decreases pieces@.len() - i,
    {
        let p = trim_chars(pieces[i].as_slice(), TrimSet::WhiteSpace);
        let ps_str = string_of(p.as_slice());
        proof {
            assert(ps.skip(i as int)[0] == pieces@[i as int]@);
            assert(ps.skip(i as int).drop_first() =~= ps.skip(i + 1));
        }
        if lower_contains(ps_str.as_str(), "galaxy") {
            let without = remove_str(ps_str.as_str(), "Samsung");
            proof {
                assert(ps_str@ == trim_ws(ps.skip(i as int)[0]));
                assert(model_from_pieces(ps.skip(i as int), title@) == trim_ws(remove_all(ps_str@, "Samsung"@)));
            }
            return (Some(String::from_str("Samsung")), trim_str(without.as_str()));
        }
        i = i + 1;
    }
    proof {
        assert(ps.skip(i as int).len() == 0);
    }
    (Some(String::from_str("Samsung")), String::from_str(title))
}

/// Splits a camera text into roles with Samsung's keywords: `tele` or
/// `periscope`, then `ultra` or `ultrawide`, then `wide` without `ultra`;
/// the first other description is the main camera and the rest are listed
/// under `other`.
pub fn parse_camera(s: &str) -> (c: Cameras)
    ensures
        c@ == parse_camera_spec(CameraRule::Samsung, s@),
{
    parse_camera_with(CameraRule::Samsung, s)
}

/// One table row: the key is the first header cell's text, or the first
/// data cell's text when the row has no header cell; the value is the last
/// data cell's text (empty without data cells). A key mentioning display,
/// battery, chip or processor, memory or ram, or camera (in any case) sets
/// that field; any other key goes to the raw map.
pub open spec fn row_step(s: SpecModel, row: (Seq<Seq<Seq<char>>>, Seq<Seq<Seq<char>>>)) -> SpecModel {
    let (heads, cells) = row;
    let v = if cells.len() >= 1 { element_text(cells.last()) } else { Seq::<char>::empty() };
    let key = if heads.len() > 0 {
        Some(element_text(heads[0]))
    } else if cells.len() > 0 {
        Some(element_text(cells[0]))
    } else {
        None
    };
    match key {
        None => s,
        Some(k) => {
            if lower_has(k, "display"@) {
                SpecModel { display: Some(v), ..s }
            } else if lower_has(k, "battery"@) {
                SpecModel { battery: Some(v), ..s }
            } else if lower_has(k, "chip"@) || lower_has(k, "processor"@) {
                SpecModel { chipset: Some(v), ..s }
            } else if lower_has(k, "memory"@) || lower_has(k, "ram"@) {
                SpecModel { memory: Some(v), ..s }
            } else if lower_has(k, "camera"@) {
                SpecModel { cameras: Some(parse_camera_spec(CameraRule::Samsung, v)), ..s }
            } else {
                SpecModel { raw: s.raw.insert(k, v), ..s }
            }
        },
    }
}

pub open spec fn row_fold() -> spec_fn(SpecModel, (Seq<Seq<Seq<char>>>, Seq<Seq<Seq<char>>>)) -> SpecModel {
    |s: SpecModel, r: (Seq<Seq<Seq<char>>>, Seq<Seq<Seq<char>>>)| row_step(s, r)
}

pub open spec fn table_fold() -> spec_fn(SpecModel, Seq<(Seq<Seq<Seq<char>>>, Seq<Seq<Seq<char>>>)>) -> SpecModel {
    |s: SpecModel, t: Seq<(Seq<Seq<Seq<char>>>, Seq<Seq<Seq<char>>>)>| t.fold_left(s, row_fold())
}

pub open spec fn tables_css() -> Seq<char> {
    ".product-specss table, table.specss, table"@
}

pub open spec fn image_marks() -> Seq<Seq<char>> {
    seq!["/productimages/"@, "/assets/"@, "samsungcdn"@]
}

/// The price chosen from the `content` values of the
/// `meta[itemprop="price"]` elements (`metas`, no list when there is none)
/// and the first price element's text (`fallback`): when there is such a
/// meta element, its `content` if it has one (and no price otherwise);
/// without one, the fallback.
pub open spec fn price_choice_spec(metas: Option<Seq<Option<Seq<char>>>>, fallback: Option<Seq<char>>) -> Option<Seq<char>> {
    let ms = match metas {
        Some(vs) => vs,
        None => Seq::<Option<Seq<char>>>::empty(),
    };
    if ms.len() > 0 {
        ms[0]
    } else {
        fallback
    }
}

/// The price of a Samsung page (see `price_choice_spec`), with the first
/// `.product-price__price`, `.price` or `.productPrice` text as fallback.
pub open spec fn price_spec(source: Seq<char>) -> Option<Seq<char>> {
    price_choice_spec(
        html_attr_values(source, "meta[itemprop=\"price\"]"@, "content"@),
        first_text(source, ".product-price__price, .price, .productPrice"@),
    )
}

/// The record built from what a Samsung page shows: brand and model from
/// `title`; `price` as a Malaysian price; the rows of each of the `tables`;
/// `image` under the raw key `image`; and the source `samsung.my` fetched
/// from `url` at `at`.
pub open spec fn assemble_spec(
    url: Seq<char>,
    at: Seq<char>,
    title: Seq<char>,
    price: Option<Seq<char>>,
    tables: Option<Seq<Seq<(Seq<Seq<Seq<char>>>, Seq<Seq<Seq<char>>>)>>>,
    image: Option<Seq<char>>,
) -> SpecModel {
    let (brand, model) = brand_model_spec(title);
    let base = SpecModel { brand: brand, ..SpecModel::blank(model) };
    let priced = match price {
        Some(p) => SpecModel { price: Some(price_model(p)), ..base },
        None => base,
    };
    let filled = match tables {
        Some(tables) => tables.fold_left(priced, table_fold()),
        None => priced,
    };
    let imaged = match image {
        Some(src) => SpecModel { raw: filled.raw.insert("image"@, src), ..filled },
        None => filled,
    };
    SpecModel { sources: imaged.sources.push(source_model(url, at, Some("samsung.my"@))), ..imaged }
}

/// The record a Samsung page gives: its title, its price, the `tr` rows
/// (`th` and `td` cells) of its specification tables and its first product
/// image, put together by `assemble_spec`.
pub open spec fn page_spec(url: Seq<char>, source: Seq<char>, at: Seq<char>) -> SpecModel {
    assemble_spec(
        url,
        at,
        vendor_title(source),
        price_spec(source),
        html_table_rows(source, tables_css(), "tr"@, "th"@, "td"@),
        page_image(source, image_marks()),
    )
}

fn apply_row(spec: &mut Spec, row: &(Vec<Vec<String>>, Vec<Vec<String>>))
    ensures
        final(spec)@ == row_step(old(spec)@, row_view(*row)),
{
    let heads = &row.0;
    let cells = &row.1;
    let v = if cells.len() >= 1 {
        element_text_of(&cells[cells.len() - 1])
    } else {
        String::new()
    };
    proof {
        if cells@.len() >= 1 {
            assert(texts_view(cells@).last() == string_views(cells@[cells@.len() - 1]@));
        }
    }
    let key = if heads.len() > 0 {
        proof {
            assert(texts_view(heads@)[0] == string_views(heads@[0]@));
        }
        Some(element_text_of(&heads[0]))
    } else if cells.len() > 0 {
        proof {
            assert(texts_view(cells@)[0] == string_views(cells@[0]@));
        }
        Some(element_text_of(&cells[0]))
    } else {
        None
    };
    match key {
        None => {},
        Some(k) => {
            let ghost before = spec@;
            if lower_contains(k.as_str(), "display") {
                spec.display = Some(v);
            } else if lower_contains(k.as_str(), "battery") {
                spec.battery = Some(v);
            } else if lower_contains(k.as_str(), "chip") || lower_contains(k.as_str(), "processor") {
                spec.chipset = Some(v);
            } else if lower_contains(k.as_str(), "memory") || lower_contains(k.as_str(), "ram") {
                spec.memory = Some(v);
            } else if lower_contains(k.as_str(), "camera") {
                spec.cameras = Some(parse_camera(v.as_str()));
            } else {
                spec.raw.insert(k, v);
            }
            proof {
                assert(spec@ =~= row_step(before, row_view(*row)));
            }
        },
    }
}

fn apply_table(spec: &mut Spec, table: &Vec<(Vec<Vec<String>>, Vec<Vec<String>>)>)
    ensures
        final(spec)@ == rows_view(table@).fold_left(old(spec)@, row_fold()),
{
    let ghost start = spec@;
    let ghost rs = rows_view(table@);
    let mut i: usize = 0;
    while i < table.len()
        invariant
            i <= table@.len(),
            rs == rows_view(table@),
            spec@ == rs.take(i as int).fold_left(start, row_fold()),
        decreases table@.len() - i,
    {
        apply_row(spec, &table[i]);
        proof {
            assert(rs.take(i + 1).drop_last() =~= rs.take(i as int));
        }
        i = i + 1;
    }
    proof {
        assert(rs.take(table@.len() as int) =~= rs);
    }
}

/// The price chosen from the meta `content` values and the fallback text
/// (see `price_choice_spec`).
pub fn price_choice(metas: &Option<Vec<Option<String>>>, fallback: &Option<String>) -> (r: Option<String>)
    ensures
        opt_view(r) == price_choice_spec(opt_attrs_view(*metas), opt_view(*fallback)),
{
    match metas {
        Some(vs) => {
            if vs.len() > 0 {
                proof {
                    assert(crate::html::opt_strings_view(vs@)[0] == match vs@[0] { Some(x) => Some(x@), None => None::<Seq<char>> });
                }
                return match &vs[0] {
                    Some(p) => Some(p.clone()),
                    None => None,
                };
            }
        },
        None => {},
    }
    clone_opt(fallback)
}

/// The price text of a Samsung page (see `price_spec`).
pub fn find_price(page: &Page) -> (r: Option<String>)
    ensures
        opt_view(r) == price_spec(page@),
{
    let metas = select_attr_values(page, "meta[itemprop=\"price\"]", "content");
    let fallback = first_text_matching(page, ".product-price__price, .price, .productPrice");
    price_choice(&metas, &fallback)
}

/// Builds the record of a Samsung page from what the page shows (see
/// `assemble_spec`).
pub fn assemble(
    url: &str,
    scraped_at: &str,
    title: &str,
    price: &Option<String>,
    tables: &Option<Vec<Vec<(Vec<Vec<String>>, Vec<Vec<String>>)>>>,
    image: &Option<String>,
) -> (r: Spec)
    ensures
        r@ == assemble_spec(url@, scraped_at@, title@, opt_view(*price), opt_tables_view(*tables), opt_view(*image)),
{
    let (brand, model) = extract_brand_model(title);
    let mut spec = Spec::new(model);
    spec.brand = brand;
    let ghost base = spec@;
    proof {
        assert(base =~= SpecModel { brand: brand_model_spec(title@).0, ..SpecModel::blank(brand_model_spec(title@).1) });
    }
    match price {
        Some(p) => {
            spec.price = Some(price_from_text(p.as_str()));
        },
        None => {},
    }
    let ghost priced = spec@;
    proof {
        assert(priced =~= match opt_view(*price) {
            Some(p) => SpecModel { price: Some(price_model(p)), ..base },
            None => base,
        });
    }
    match tables {
        Some(tables) => {
            let ghost ts = crate::html::tables_view(tables@);
            let mut i: usize = 0;
            while i < tables.len()
                invariant
                    i <= tables@.len(),
                    ts == crate::html::tables_view(tables@),
                    spec@ == ts.take(i as int).fold_left(priced, table_fold()),
                decreases tables@.len() - i,
            {
                apply_table(&mut spec, &tables[i]);
                proof {
                    assert(ts.take(i + 1).drop_last() =~= ts.take(i as int));
                    assert(ts[i as int] == rows_view(tables@[i as int]@));
                }
                i = i + 1;
            }
            proof {
                assert(ts.take(tables@.len() as int) =~= ts);
            }
        },
        None => {},
    }
    let ghost filled = spec@;
    match image {
        Some(src) => {
            spec.raw.insert(String::from_str("image"), src.clone());
        },
        None => {},
    }
    let ghost imaged = spec@;
    proof {
        assert(imaged =~= match opt_view(*image) {
            Some(src) => SpecModel { raw: filled.raw.insert("image"@, src), ..filled },
            None => filled,
        });
    }
    let src = source_info(url, scraped_at, Some("samsung.my"));
    spec.sources.push(src);
    proof {
        assert(spec@ =~= SpecModel { sources: imaged.sources.push(source_model(url@, scraped_at@, Some("samsung.my"@))), ..imaged });
    }
    spec
}

/// Parses a Samsung product page fetched from `url` at time `scraped_at`.
pub fn parse(url: &str, body: &str, scraped_at: &str) -> (r: Spec)
    ensures
        r@ == page_spec(url@, body@, scraped_at@),
{
    let page = Page::new(body);
    let title = vendor_page_title(&page);
    let price = find_price(&page);
    let tables = select_table_rows(&page, ".product-specss table, table.specss, table", "tr", "th", "td");
    let marks = ["/productimages/", "/assets/", "samsungcdn"];
    proof {
        assert(strs_view(marks@) =~= image_marks());
    }
    let image = find_image(&page, &marks);
    assemble(url, scraped_at, title.as_str(), &price, &tables, &image)
}

/// Folding table rows into a record leaves its brand, model and sources as
/// they were.
proof fn lemma_rows_keep_identity(rows: Seq<(Seq<Seq<Seq<char>>>, Seq<Seq<Seq<char>>>)>, base: SpecModel)
    ensures
        same_identity(rows.fold_left(base, row_fold()), base),
    decreases rows.len(),
{
    if rows.len() > 0 {
        lemma_rows_keep_identity(rows.drop_last(), base);
    }
}

/// Folding tables into a record leaves its brand, model and sources as
/// they were.
pub(crate) proof fn lemma_fill_keeps_identity(
    tables: Seq<Seq<(Seq<Seq<Seq<char>>>, Seq<Seq<Seq<char>>>)>>,
    base: SpecModel,
)
    ensures
        same_identity(tables.fold_left(base, table_fold()), base),
    decreases tables.len(),
{
    if tables.len() > 0 {
        let t = tables.drop_last();
        lemma_fill_keeps_identity(t, base);
        lemma_rows_keep_identity(tables.last(), t.fold_left(base, table_fold()));
    }
}

/// What one specification-table row does to a Samsung record. The row's
/// key is its first header cell's text, or its first data cell's text when
/// it has no header cell; its value is its last data cell's text (empty
/// without data cells). Tested on the lowercased key in this order: a key
/// with `display` sets the display, else one with `battery` the battery,
/// else one with `chip` or `processor` the chipset, else one with `memory`
/// or `ram` the memory, else one with `camera` the cameras parsed from the
/// value; any other key maps to the value in the raw map. Each case changes
/// that one field and nothing else; a row without cells changes nothing.
pub proof fn lemma_row_effect(s: SpecModel, row: (Seq<Seq<Seq<char>>>, Seq<Seq<Seq<char>>>))
    ensures
        row.0.len() == 0 && row.1.len() == 0 ==> row_step(s, row) == s,
        row.0.len() > 0 || row.1.len() > 0 ==> ({
            let k = if row.0.len() > 0 { element_text(row.0[0]) } else { element_text(row.1[0]) };
            let v = if row.1.len() > 0 { element_text(row.1[row.1.len() - 1]) } else { Seq::<char>::empty() };
            let low = lowercase_of(k);
            let r = row_step(s, row);
            if contains_seq(low, "display"@) {
                r == SpecModel { display: Some(v), ..s }
            } else if contains_seq(low, "battery"@) {
                r == SpecModel { battery: Some(v), ..s }
            } else if contains_seq(low, "chip"@) || contains_seq(low, "processor"@) {
                r == SpecModel { chipset: Some(v), ..s }
            } else if contains_seq(low, "memory"@) || contains_seq(low, "ram"@) {
                r == SpecModel { memory: Some(v), ..s }
            } else if contains_seq(low, "camera"@) {
                r == SpecModel { cameras: Some(parse_camera_spec(CameraRule::Samsung, v)), ..s }
            } else {
                r == SpecModel { raw: s.raw.insert(k, v), ..s }
            }
        }),
{
    if row.1.len() > 0 {
        assert(row.1.last() == row.1[row.1.len() - 1]);
    }
}

} // verus!
