//! Queries on parsed HTML pages, answered by the `scraper` crate.

use vstd::prelude::*;
use scraper::{Html, Selector};
use crate::text::{element_text, element_text_of, string_views};
use crate::specs::opt_view;

verus! {

#[verifier::external_type_specification]
#[verifier::external_body]
pub struct ExHtml(Html);

/// Calls `scraper::Html::parse_document`. Nothing is claimed of the parsed
/// document; the queries below speak of the source text it was parsed from.
#[verifier::external_body]
fn parse_html(source: &str) -> Html {
    Html::parse_document(source)
}

/// An HTML document together with the text it was parsed from. The fields
/// are private and `Page::new` is the only constructor, so `doc` is always
/// the parse of `source`.
pub struct Page {
    doc: Html,
    source: String,
}

impl View for Page {
    type V = Seq<char>;

    /// The source text of the page.
    closed spec fn view(&self) -> Seq<char> {
        self.source@
    }
}

impl Page {
    /// Parses `source` as an HTML document.
    pub fn new(source: &str) -> (p: Page)
        ensures
            p@ == source@,
    {
        Page { doc: parse_html(source), source: String::from_str(source) }
    }
}

/// The text pieces of each element of a list.
pub open spec fn texts_view(v: Seq<Vec<String>>) -> Seq<Seq<Seq<char>>> {
    v.map_values(|e: Vec<String>| string_views(e@))
}

pub open spec fn opt_texts_view(o: Option<Vec<Vec<String>>>) -> Option<Seq<Seq<Seq<char>>>> {
    match o {
        Some(v) => Some(texts_view(v@)),
        None => None,
    }
}

/// A table row: the text pieces of each of its header cells and of each of
/// its data cells.
pub open spec fn row_view(r: (Vec<Vec<String>>, Vec<Vec<String>>)) -> (Seq<Seq<Seq<char>>>, Seq<Seq<Seq<char>>>) {
    (texts_view(r.0@), texts_view(r.1@))
}

pub open spec fn rows_view(v: Seq<(Vec<Vec<String>>, Vec<Vec<String>>)>) -> Seq<(Seq<Seq<Seq<char>>>, Seq<Seq<Seq<char>>>)> {
    v.map_values(|r: (Vec<Vec<String>>, Vec<Vec<String>>)| row_view(r))
}

pub open spec fn opt_rows_view(o: Option<Vec<(Vec<Vec<String>>, Vec<Vec<String>>)>>) -> Option<Seq<(Seq<Seq<Seq<char>>>, Seq<Seq<Seq<char>>>)>> {
    match o {
        Some(v) => Some(rows_view(v@)),
        None => None,
    }
}

pub open spec fn tables_view(v: Seq<Vec<(Vec<Vec<String>>, Vec<Vec<String>>)>>) -> Seq<Seq<(Seq<Seq<Seq<char>>>, Seq<Seq<Seq<char>>>)>> {
    v.map_values(|t: Vec<(Vec<Vec<String>>, Vec<Vec<String>>)>| rows_view(t@))
}

pub open spec fn opt_tables_view(o: Option<Vec<Vec<(Vec<Vec<String>>, Vec<Vec<String>>)>>>) -> Option<Seq<Seq<(Seq<Seq<Seq<char>>>, Seq<Seq<Seq<char>>>)>>> {
    match o {
        Some(v) => Some(tables_view(v@)),
        None => None,
    }
}

pub open spec fn opt_strings_view(v: Seq<Option<String>>) -> Seq<Option<Seq<char>>> {
    v.map_values(|o: Option<String>| match o { Some(s) => Some(s@), None => None })
}

/// For the document parsed from `source`: `None` when `css` is not a valid
/// selector, otherwise, for each element it matches, in the order
/// `Html::select` yields them (the order in which the parser created the
/// elements), the element's descendant text nodes in tree order.
pub uninterp spec fn html_text_nodes(source: Seq<char>, css: Seq<char>) -> Option<Seq<Seq<Seq<char>>>>;

/// For the document parsed from `source`: `None` when `css` is not a valid
/// selector, otherwise, for each element it matches, in the order
/// `Html::select` yields them (the order in which the parser created the
/// elements), the value of its attribute `name` if it has one.
pub uninterp spec fn html_attr_values(source: Seq<char>, css: Seq<char>, name: Seq<char>) -> Option<Seq<Option<Seq<char>>>>;

/// For the document parsed from `source`: `None` when `css` is not a valid
/// selector, otherwise the inner HTML of each element it matches, in the
/// order `Html::select` yields them (the order in which the parser created
/// the elements).
pub uninterp spec fn html_inner_html(source: Seq<char>, css: Seq<char>) -> Option<Seq<Seq<char>>>;

/// For the document parsed from `source`: `None` when `rows`, `heads` or
/// `cells` is not a valid selector, otherwise, for each element matching
/// `rows`, in the order `Html::select` yields them (the order in which the
/// parser created the elements), the text nodes of each of its descendants
/// matching `heads`, and those of each of its descendants matching `cells`
/// (descendants in tree order, as `ElementRef::select` walks them).
pub uninterp spec fn html_rows(source: Seq<char>, rows: Seq<char>, heads: Seq<char>, cells: Seq<char>) -> Option<Seq<(Seq<Seq<Seq<char>>>, Seq<Seq<Seq<char>>>)>>;

/// For the document parsed from `source`: `None` when one of the selectors
/// is not valid, otherwise, for each element matching `tables`, in the
/// order `Html::select` yields them, the rows among its descendants (in tree
/// order) as `html_rows` describes them.
pub uninterp spec fn html_table_rows(
    source: Seq<char>,
    tables: Seq<char>,
    rows: Seq<char>,
    heads: Seq<char>,
    cells: Seq<char>,
) -> Option<Seq<Seq<(Seq<Seq<Seq<char>>>, Seq<Seq<Seq<char>>>)>>>;

/// Calls `Selector::parse`, `Html::select` and `ElementRef::text`. Claims
/// that the result is `html_text_nodes` of the page's source and `css`.
#[verifier::external_body]
pub(crate) fn select_text_nodes(page: &Page, css: &str) -> (r: Option<Vec<Vec<String>>>)
    ensures
        opt_texts_view(r) == html_text_nodes(page@, css@),
{
    let sel = Selector::parse(css).ok()?;
    let mut out = Vec::new();
    for e in page.doc.select(&sel) {
        out.push(e.text().map(String::from).collect());
    }
    Some(out)
}

/// Calls `Selector::parse`, `Html::select` and `ElementRef::attr`. Claims
/// that the result is `html_attr_values` of the page's source, `css` and
/// `name`.
#[verifier::external_body]
pub(crate) fn select_attr_values(page: &Page, css: &str, name: &str) -> (r: Option<Vec<Option<String>>>)
    ensures
        opt_attrs_view(r) == html_attr_values(page@, css@, name@),
{
    let sel = Selector::parse(css).ok()?;
    let mut out = Vec::new();
    for e in page.doc.select(&sel) {
        out.push(e.attr(name).map(String::from));
    }
    Some(out)
}

/// Calls `Selector::parse`, `Html::select` and `ElementRef::inner_html`.
/// Claims that the result is `html_inner_html` of the page's source and
/// `css`.
#[verifier::external_body]
pub(crate) fn select_inner_html(page: &Page, css: &str) -> (r: Option<Vec<String>>)
    ensures
        opt_strs_view(r) == html_inner_html(page@, css@),
{
    let sel = Selector::parse(css).ok()?;
    let mut out = Vec::new();
    for e in page.doc.select(&sel) {
        out.push(e.inner_html());
    }
    Some(out)
}

/// Calls `Selector::parse`, `Html::select`, `ElementRef::select` and
/// `ElementRef::text`. Claims that the result is `html_rows` of the page's
/// source and the three selectors.
#[verifier::external_body]
pub(crate) fn select_rows(page: &Page, rows: &str, heads: &str, cells: &str) -> (r: Option<Vec<(Vec<Vec<String>>, Vec<Vec<String>>)>>)
    ensures
        opt_rows_view(r) == html_rows(page@, rows@, heads@, cells@),
{
    let (r, h, c) = (Selector::parse(rows).ok()?, Selector::parse(heads).ok()?, Selector::parse(cells).ok()?);
    let texts = |e: scraper::ElementRef| e.text().map(String::from).collect();
    let row_of = |row: scraper::ElementRef| (row.select(&h).map(texts).collect(), row.select(&c).map(texts).collect());
    Some(page.doc.select(&r).map(row_of).collect())
}

/// Calls `Selector::parse`, `Html::select`, `ElementRef::select` and
/// `ElementRef::text`. Claims that the result is `html_table_rows` of the
/// page's source and the four selectors.
#[verifier::external_body]
pub(crate) fn select_table_rows(page: &Page, tables: &str, rows: &str, heads: &str, cells: &str) -> (r: Option<Vec<Vec<(Vec<Vec<String>>, Vec<Vec<String>>)>>>)
    ensures
        opt_tables_view(r) == html_table_rows(page@, tables@, rows@, heads@, cells@),
{
    let (t, r) = (Selector::parse(tables).ok()?, Selector::parse(rows).ok()?);
    let (h, c) = (Selector::parse(heads).ok()?, Selector::parse(cells).ok()?);
    let texts = |e: scraper::ElementRef| e.text().map(String::from).collect();
    let row_of = |row: scraper::ElementRef| (row.select(&h).map(texts).collect(), row.select(&c).map(texts).collect());
    Some(page.doc.select(&t).map(|tab| tab.select(&r).map(row_of).collect()).collect())
}

/// The trimmed text of each listed element; no text when there is no list.
pub open spec fn texts_from(nodes: Option<Seq<Seq<Seq<char>>>>) -> Seq<Seq<char>> {
    match nodes {
        Some(es) => es.map_values(|e: Seq<Seq<char>>| element_text(e)),
        None => Seq::<Seq<char>>::empty(),
    }
}

/// The trimmed text of each element matching `css`; no element when `css`
/// is not a valid selector.
pub open spec fn texts_of(source: Seq<char>, css: Seq<char>) -> Seq<Seq<char>> {
    texts_from(html_text_nodes(source, css))
}

/// The trimmed texts of a list of elements.
pub fn element_texts(elems: &Vec<Vec<String>>) -> (r: Vec<String>)
    ensures
        string_views(r@) == texts_view(elems@).map_values(|e: Seq<Seq<char>>| element_text(e)),
{
    let mut out: Vec<String> = Vec::new();
    let mut i: usize = 0;
    while i < elems.len()
        invariant
            i <= elems@.len(),
            string_views(out@) == texts_view(elems@).take(i as int).map_values(|e: Seq<Seq<char>>| element_text(e)),
        decreases elems@.len() - i,
    {
        let t = element_text_of(&elems[i]);
        let ghost before = out@;
        out.push(t);
        proof {
            assert(string_views(out@) =~= string_views(before).push(t@));
            assert(texts_view(elems@).take(i + 1).map_values(|e: Seq<Seq<char>>| element_text(e))
                =~= texts_view(elems@).take(i as int).map_values(|e: Seq<Seq<char>>| element_text(e)).push(t@));
        }
        i = i + 1;
    }
    proof {
        assert(texts_view(elems@).take(elems@.len() as int) =~= texts_view(elems@));
    }
    out
}

/// The trimmed text of each listed element; none when there is no list.
pub fn texts_from_nodes(nodes: &Option<Vec<Vec<String>>>) -> (r: Vec<String>)
    ensures
        string_views(r@) == texts_from(opt_texts_view(*nodes)),
{
    match nodes {
        Some(elems) => element_texts(elems),
        None => {
            let v: Vec<String> = Vec::new();
            proof {
                assert(string_views(v@) =~= Seq::<Seq<char>>::empty());
            }
            v
        },
    }
}

/// The trimmed text of each element of the page matching `css`.
pub fn texts_matching(page: &Page, css: &str) -> (r: Vec<String>)
    ensures
        string_views(r@) == texts_of(page@, css@),
{
    let nodes = select_text_nodes(page, css);
    texts_from_nodes(&nodes)
}

/// The first of a list of texts, if any.
pub open spec fn first_of(ts: Seq<Seq<char>>) -> Option<Seq<char>> {
    if ts.len() > 0 { Some(ts[0]) } else { None }
}

/// The trimmed text of the first element matching `css`, if any.
pub open spec fn first_text(source: Seq<char>, css: Seq<char>) -> Option<Seq<char>> {
    first_of(texts_of(source, css))
}

/// The trimmed text of the first listed element, if any.
pub fn first_text_from(nodes: &Option<Vec<Vec<String>>>) -> (r: Option<String>)
    ensures
        opt_view(r) == first_of(texts_from(opt_texts_view(*nodes))),
{
    let ts = texts_from_nodes(nodes);
    if ts.len() > 0 {
        Some(ts[0].clone())
    } else {
        None
    }
}

/// The trimmed text of the first element of the page matching `css`.
pub fn first_text_matching(page: &Page, css: &str) -> (r: Option<String>)
    ensures
        opt_view(r) == first_text(page@, css@),
{
    let nodes = select_text_nodes(page, css);
    first_text_from(&nodes)
}

pub open spec fn opt_attrs_view(o: Option<Vec<Option<String>>>) -> Option<Seq<Option<Seq<char>>>> {
    match o {
        Some(v) => Some(opt_strings_view(v@)),
        None => None,
    }
}

pub open spec fn opt_strs_view(o: Option<Vec<String>>) -> Option<Seq<Seq<char>>> {
    match o {
        Some(v) => Some(string_views(v@)),
        None => None,
    }
}

/// The title from the `title` elements' inner HTML: the first one, or
/// `"unknown"`.
pub open spec fn title_only_spec(titles: Option<Seq<Seq<char>>>) -> Seq<char> {
    match titles {
        Some(ts) => if ts.len() > 0 { ts[0] } else { "unknown"@ },
        None => "unknown"@,
    }
}

/// The title from the `og:title` contents and the `title` elements' inner
/// HTML: the first `og:title` element's content when it has one, otherwise
/// the first `title`, otherwise `"unknown"`.
pub open spec fn title_spec(og: Option<Seq<Option<Seq<char>>>>, titles: Option<Seq<Seq<char>>>) -> Seq<char> {
    let first = match og {
        Some(vs) => if vs.len() > 0 { vs[0] } else { None },
        None => None,
    };
    match first {
        Some(t) => t,
        None => title_only_spec(titles),
    }
}

/// The title a vendor page announces (see `title_spec`).
pub open spec fn vendor_title(source: Seq<char>) -> Seq<char> {
    title_spec(
        html_attr_values(source, "meta[property=\"og:title\"]"@, "content"@),
        html_inner_html(source, "title"@),
    )
}

/// The title of a page without an `og:title` preference (see
/// `title_only_spec`).
pub open spec fn generic_title(source: Seq<char>) -> Seq<char> {
    title_only_spec(html_inner_html(source, "title"@))
}

/// The title from the `title` elements' inner HTML.
pub fn title_only_from(titles: &Option<Vec<String>>) -> (r: String)
    ensures
        r@ == title_only_spec(opt_strs_view(*titles)),
{
    match titles {
        Some(ts) => {
            if ts.len() > 0 {
                ts[0].clone()
            } else {
                String::from_str("unknown")
            }
        },
        None => String::from_str("unknown"),
    }
}

/// The title from the `og:title` contents and the `title` elements' inner
/// HTML.
pub fn title_from(og: &Option<Vec<Option<String>>>, titles: &Option<Vec<String>>) -> (r: String)
    ensures
        r@ == title_spec(opt_attrs_view(*og), opt_strs_view(*titles)),
{
    let first = match og {
        Some(vs) => {
            if vs.len() > 0 {
                proof {
                    assert(opt_strings_view(vs@)[0] == match vs@[0] { Some(x) => Some(x@), None => None::<Seq<char>> });
                }
                match &vs[0] {
                    Some(t) => Some(t.clone()),
                    None => None,
                }
            } else {
                None
            }
        },
        None => None,
    };
    match first {
        Some(t) => t,
        None => title_only_from(titles),
    }
}

/// The inner HTML of the first `title` element of the page, or `"unknown"`.
pub fn page_title(page: &Page) -> (r: String)
    ensures
        r@ == generic_title(page@),
{
    let titles = select_inner_html(page, "title");
    title_only_from(&titles)
}

/// The title a vendor page announces (see `vendor_title`).
pub fn vendor_page_title(page: &Page) -> (r: String)
    ensures
        r@ == vendor_title(page@),
{
    let og = select_attr_values(page, "meta[property=\"og:title\"]", "content");
    let titles = select_inner_html(page, "title");
    title_from(&og, &titles)
}

} // verus!
