//! Scraping decisions: where URLs come from, which parser a URL goes to,
//! the generic page parser, and output file names.

use vstd::prelude::*;
use crate::html::{
    generic_title, html_rows, html_table_rows, html_text_nodes, opt_rows_view, page_title,
    row_view, rows_view, select_rows, texts_matching, texts_of, texts_view, vendor_title, Page,
};
use crate::oppo;
use crate::samsung;
use crate::xiaomi;
use crate::sites::{source_info, source_model};
use crate::slug::{slug_base, slug_spec, slugify};
use crate::rawmap::RawMap;
use crate::specs::{opt_view, SourceModel, Spec, SpecModel};
use crate::text::{
    chars_of, concat_str, contains_seq, element_text, element_text_of, join,
    lemma_trim_idempotent, lemma_trim_noop, lowercase_of, seq_views, split_chars, split_on,
    starts_at, str_contains, string_of, string_views, to_lowercase, trim_chars, trim_ws,
    trimmed_nonempty, trimmed_nonempty_of, TrimSet,
};
use crate::xiaomi::term_pairs;

verus! {

/// The host of a URL as `reqwest::Url` parses it: `None` when the text is
/// not a URL, `Some(None)` when the URL has no host, otherwise the host.
pub uninterp spec fn url_host(url: Seq<char>) -> Option<Option<Seq<char>>>;

/// Calls `reqwest::Url::parse` and `Url::host_str`. Claims that the result
/// is `url_host` of the text.
#[verifier::external_body]
fn parse_url_host(url: &str) -> (r: Option<Option<String>>)
    ensures
        match r {
            None => url_host(url@) is None,
            Some(None) => url_host(url@) == Some(None::<Seq<char>>),
            Some(Some(h)) => url_host(url@) == Some(Some(h@)),
        },
{
    match reqwest::Url::parse(url) {
        Ok(u) => Some(u.host_str().map(String::from)),
        Err(_) => None,
    }
}

/// The parser a page goes to.
#[derive(Clone, Copy, PartialEq, Eq, Debug)]
pub enum Site {
    Samsung,
    Xiaomi,
    Oppo,
    Generic,
}

/// The parser for a lowercased host: a host containing `samsung` goes to
/// Samsung, `mi` or `xiaomi.com` to Xiaomi, `oppo` to OPPO, anything else to
/// the generic parser, tested in that order.
pub open spec fn site_of_host(host_lower: Seq<char>) -> Site {
    if contains_seq(host_lower, "samsung"@) {
        Site::Samsung
    } else if contains_seq(host_lower, "mi"@) || contains_seq(host_lower, "xiaomi.com"@) {
        Site::Xiaomi
    } else if contains_seq(host_lower, "oppo"@) {
        Site::Oppo
    } else {
        Site::Generic
    }
}

/// The parser for a host, decided on the host in lower case.
pub fn site_for_host(host: &str) -> (s: Site)
    ensures
        s == site_of_host(lowercase_of(host@)),
{
    let h = to_lowercase(host);
    site_for_lowercase_host(h.as_str())
}

/// The parser for a host already in lower case (see `site_of_host`).
pub fn site_for_lowercase_host(h: &str) -> (s: Site)
    ensures
        s == site_of_host(h@),
{
    if str_contains(h, "samsung") {
        Site::Samsung
    } else if str_contains(h, "mi") || str_contains(h, "xiaomi.com") {
        Site::Xiaomi
    } else if str_contains(h, "oppo") {
        Site::Oppo
    } else {
        Site::Generic
    }
}

/// Why a URL cannot be scraped.
#[derive(Clone, Copy, PartialEq, Eq, Debug)]
pub enum ScrapeError {
    /// The text is not a URL.
    InvalidUrl,
    /// The URL has no host.
    InvalidHost,
}

/// The parser for a parsed URL's host (`None` when the text was not a URL,
/// `Some(None)` when the URL has no host), or why there is none.
pub open spec fn site_of_parsed(host: Option<Option<Seq<char>>>) -> Result<Site, ScrapeError> {
    match host {
        None => Err(ScrapeError::InvalidUrl),
        Some(None) => Err(ScrapeError::InvalidHost),
        Some(Some(h)) => Ok(site_of_host(lowercase_of(h))),
    }
}

/// The parser for a URL, or why there is none.
pub open spec fn site_of_url(url: Seq<char>) -> Result<Site, ScrapeError> {
    site_of_parsed(url_host(url))
}

/// The parser for a parsed URL's host (see `site_of_parsed`).
pub fn site_for_parsed(host: &Option<Option<String>>) -> (r: Result<Site, ScrapeError>)
    ensures
        r == site_of_parsed(match host {
            None => None,
            Some(None) => Some(None::<Seq<char>>),
            Some(Some(h)) => Some(Some(h@)),
        }),
{
    match host {
        None => Err(ScrapeError::InvalidUrl),
        Some(None) => Err(ScrapeError::InvalidHost),
        Some(Some(h)) => Ok(site_for_host(h.as_str())),
    }
}

/// The parser for a URL: refused when the text is not a URL or has no host.
pub fn site_for_url(url: &str) -> (r: Result<Site, ScrapeError>)
    ensures
        r == site_of_url(url@),
{
    let host = parse_url_host(url);
    site_for_parsed(&host)
}

/// The key of a generic table row: the first header cell's text; without a
/// header cell, the first data cell's text when it is not empty.
pub open spec fn generic_key(row: (Seq<Seq<Seq<char>>>, Seq<Seq<Seq<char>>>)) -> Option<Seq<char>> {
    if row.0.len() > 0 {
        Some(element_text(row.0[0]))
    } else if row.1.len() > 0 && element_text(row.1[0]).len() > 0 {
        Some(element_text(row.1[0]))
    } else {
        None
    }
}

/// One generic table row: its key maps to the second data cell's text when
/// both are non-empty.
pub open spec fn generic_row_step(m: Map<Seq<char>, Seq<char>>, row: (Seq<Seq<Seq<char>>>, Seq<Seq<Seq<char>>>)) -> Map<Seq<char>, Seq<char>> {
    match generic_key(row) {
        Some(k) => {
            let v = if row.1.len() >= 2 { element_text(row.1[1]) } else { Seq::<char>::empty() };
            if k.len() > 0 && v.len() > 0 { m.insert(k, v) } else { m }
        },
        None => m,
    }
}

pub open spec fn generic_row_fold() -> spec_fn(Map<Seq<char>, Seq<char>>, (Seq<Seq<Seq<char>>>, Seq<Seq<Seq<char>>>)) -> Map<Seq<char>, Seq<char>> {
    |m: Map<Seq<char>, Seq<char>>, r: (Seq<Seq<Seq<char>>>, Seq<Seq<Seq<char>>>)| generic_row_step(m, r)
}

/// One `dt` term with its `dd` definition: kept when both are non-empty.
pub open spec fn generic_pair_step(m: Map<Seq<char>, Seq<char>>, kv: (Seq<char>, Seq<char>)) -> Map<Seq<char>, Seq<char>> {
    if kv.0.len() > 0 && kv.1.len() > 0 { m.insert(kv.0, kv.1) } else { m }
}

pub open spec fn generic_pair_fold() -> spec_fn(Map<Seq<char>, Seq<char>>, (Seq<char>, Seq<char>)) -> Map<Seq<char>, Seq<char>> {
    |m: Map<Seq<char>, Seq<char>>, kv: (Seq<char>, Seq<char>)| generic_pair_step(m, kv)
}

/// The key/value pairs from a page's table `rows`, or, when the rows give
/// none, from its definition list terms `dts` and definitions `dds`.
pub open spec fn generic_pairs_from(
    rows: Option<Seq<(Seq<Seq<Seq<char>>>, Seq<Seq<Seq<char>>>)>>,
    dts: Seq<Seq<char>>,
    dds: Seq<Seq<char>>,
) -> Map<Seq<char>, Seq<char>> {
    let from_tables = match rows {
        Some(rows) => rows.fold_left(Map::empty(), generic_row_fold()),
        None => Map::empty(),
    };
    if from_tables == Map::<Seq<char>, Seq<char>>::empty() {
        term_pairs(dts, dds).fold_left(from_tables, generic_pair_fold())
    } else {
        from_tables
    }
}

/// Every key and every value of the map is non-empty and has no white
/// space at either end.
pub open spec fn clean_pairs(m: Map<Seq<char>, Seq<char>>) -> bool {
    forall|k: Seq<char>| #[trigger] m.contains_key(k) ==> {
        &&& k.len() > 0
        &&& trim_ws(k) == k
        &&& m[k].len() > 0
        &&& trim_ws(m[k]) == m[k]
    }
}

/// No text of the list has white space at either end.
pub open spec fn all_trimmed(ts: Seq<Seq<char>>) -> bool {
    forall|i: int| 0 <= i < ts.len() ==> trim_ws(#[trigger] ts[i]) == ts[i]
}

/// An element's text has no white space at either end.
proof fn lemma_element_text_trimmed(nodes: Seq<Seq<char>>)
    ensures
        trim_ws(element_text(nodes)) == element_text(nodes),
{
    lemma_trim_idempotent(join(nodes, seq![' ']), TrimSet::WhiteSpace);
}

/// Folding table rows into a clean map keeps it clean.
proof fn lemma_rows_clean(rows: Seq<(Seq<Seq<Seq<char>>>, Seq<Seq<Seq<char>>>)>)
    ensures
        clean_pairs(rows.fold_left(Map::empty(), generic_row_fold())),
    decreases rows.len(),
{
    if rows.len() > 0 {
        lemma_rows_clean(rows.drop_last());
        let row = rows.last();
        if row.0.len() > 0 {
            lemma_element_text_trimmed(row.0[0]);
        }
        if row.1.len() > 0 {
            lemma_element_text_trimmed(row.1[0]);
        }
        if row.1.len() >= 2 {
            lemma_element_text_trimmed(row.1[1]);
        }
    }
}

/// Folding trimmed term/definition pairs into a clean map keeps it clean.
proof fn lemma_pairs_clean(pairs: Seq<(Seq<char>, Seq<char>)>, start: Map<Seq<char>, Seq<char>>)
    requires
        clean_pairs(start),
        forall|i: int| 0 <= i < pairs.len() ==> trim_ws((#[trigger] pairs[i]).0) == pairs[i].0 && trim_ws(pairs[i].1) == pairs[i].1,
    ensures
        clean_pairs(pairs.fold_left(start, generic_pair_fold())),
    decreases pairs.len(),
{
    if pairs.len() > 0 {
        let prev = pairs.drop_last();
        assert forall|i: int| 0 <= i < prev.len() implies trim_ws((#[trigger] prev[i]).0) == prev[i].0 && trim_ws(prev[i].1) == prev[i].1 by {
            assert(prev[i] == pairs[i]);
        }
        lemma_pairs_clean(prev, start);
        assert(pairs.last() == pairs[pairs.len() - 1]);
    }
}

/// The key/value pairs of a page's tables or definition lists, when the
/// terms and definitions are trimmed, are all non-empty and trimmed.
pub proof fn lemma_generic_pairs_clean(
    rows: Option<Seq<(Seq<Seq<Seq<char>>>, Seq<Seq<Seq<char>>>)>>,
    dts: Seq<Seq<char>>,
    dds: Seq<Seq<char>>,
)
    requires
        all_trimmed(dts),
        all_trimmed(dds),
    ensures
        clean_pairs(generic_pairs_from(rows, dts, dds)),
{
    let from_tables = match rows {
        Some(rows) => rows.fold_left(Map::empty(), generic_row_fold()),
        None => Map::empty(),
    };
    match rows {
        Some(rows) => lemma_rows_clean(rows),
        None => {},
    }
    assert(clean_pairs(from_tables));
    let pairs = term_pairs(dts, dds);
    lemma_trim_noop(Seq::<char>::empty(), TrimSet::WhiteSpace);
    assert forall|i: int| 0 <= i < pairs.len() implies trim_ws((#[trigger] pairs[i]).0) == pairs[i].0 && trim_ws(pairs[i].1) == pairs[i].1 by {
        assert(trim_ws(dts[i]) == dts[i]);
        if i < dds.len() {
            assert(trim_ws(dds[i]) == dds[i]);
        }
    }
    lemma_pairs_clean(pairs, from_tables);
}

/// Every key and every value of the raw map the generic parser gives is
/// non-empty and has no white space at either end.
pub proof fn lemma_generic_raw_clean(url: Seq<char>, source: Seq<char>, at: Seq<char>)
    ensures
        clean_pairs(generic_page_spec(url, source, at).raw),
{
    let dts = texts_of(source, "dl dt"@);
    let dds = texts_of(source, "dl dd"@);
    assert forall|i: int| 0 <= i < dts.len() implies trim_ws(#[trigger] dts[i]) == dts[i] by {
        let es = html_text_nodes(source, "dl dt"@)->0;
        lemma_element_text_trimmed(es[i]);
    }
    assert forall|i: int| 0 <= i < dds.len() implies trim_ws(#[trigger] dds[i]) == dds[i] by {
        let es = html_text_nodes(source, "dl dd"@)->0;
        lemma_element_text_trimmed(es[i]);
    }
    lemma_generic_pairs_clean(html_rows(source, "table tr"@, "th"@, "td"@), dts, dds);
}

/// Brand and model from a generic page title: when the title contains `-`,
/// the trimmed text before the first `-` is the brand and the trimmed text
/// after the last `-` the model; otherwise there is no brand and the title
/// is the model.
pub open spec fn generic_brand_model(title: Seq<char>) -> (Option<Seq<char>>, Seq<char>) {
    if contains_seq(title, "-"@) {
        let parts = split_on(title, seq!['-']);
        (Some(trim_ws(parts[0])), trim_ws(parts.last()))
    } else {
        (None, title)
    }
}

/// The record built from what a page without its own parser shows:
/// brand and model from `title`, the raw map from the table `rows` or the
/// definition lists, and a source without name fetched from `url` at `at`.
pub open spec fn generic_assemble_spec(
    url: Seq<char>,
    at: Seq<char>,
    title: Seq<char>,
    rows: Option<Seq<(Seq<Seq<Seq<char>>>, Seq<Seq<Seq<char>>>)>>,
    dts: Seq<Seq<char>>,
    dds: Seq<Seq<char>>,
) -> SpecModel {
    let (brand, model) = generic_brand_model(title);
    SpecModel {
        brand: brand,
        raw: generic_pairs_from(rows, dts, dds),
        sources: seq![source_model(url, at, None)],
        ..SpecModel::blank(model)
    }
}

/// The record the generic parser gives for a page: its `title`, its
/// `table tr` rows (`th` and `td` cells) and its `dl dt` and `dl dd`
/// texts, put together by `generic_assemble_spec`.
pub open spec fn generic_page_spec(url: Seq<char>, source: Seq<char>, at: Seq<char>) -> SpecModel {
    generic_assemble_spec(
        url,
        at,
        generic_title(source),
        html_rows(source, "table tr"@, "th"@, "td"@),
        texts_of(source, "dl dt"@),
        texts_of(source, "dl dd"@),
    )
}

fn generic_row(m: &mut RawMap, row: &(Vec<Vec<String>>, Vec<Vec<String>>))
    ensures
        final(m)@ == generic_row_step(old(m)@, row_view(*row)),
{
    let key = if row.0.len() > 0 {
        proof {
            assert(texts_view(row.0@)[0] == string_views(row.0@[0]@));
        }
        Some(element_text_of(&row.0[0]))
    } else if row.1.len() > 0 {
        proof {
            assert(texts_view(row.1@)[0] == string_views(row.1@[0]@));
        }
        let t = element_text_of(&row.1[0]);
        if t.unicode_len() > 0 { Some(t) } else { None }
    } else {
        None
    };
    match key {
        Some(k) => {
            let v = if row.1.len() >= 2 {
                proof {
                    assert(texts_view(row.1@)[1] == string_views(row.1@[1]@));
                }
                element_text_of(&row.1[1])
            } else {
                String::new()
            };
            if k.unicode_len() > 0 && v.unicode_len() > 0 {
                m.insert(k, v);
            }
        },
        None => {},
    }
}

/// Brand and model from a generic page title (see `generic_brand_model`).
pub fn generic_brand_model_of(title: &str) -> (r: (Option<String>, String))
    ensures
        (opt_view(r.0), r.1@) == generic_brand_model(title@),
{
    if str_contains(title, "-") {
        let v = chars_of(title);
        let seps = vec!['-'];
        let pieces = split_chars(v.as_slice(), seps.as_slice());
        proof {
            assert(seps@ =~= seq!['-']);
            crate::text::lemma_split_on_nonempty(title@, seq!['-']);
        }
        let first = trim_chars(pieces[0].as_slice(), TrimSet::WhiteSpace);
        let last = trim_chars(pieces[pieces.len() - 1].as_slice(), TrimSet::WhiteSpace);
        proof {
            assert(seq_views(pieces@)[0] == pieces@[0]@);
            assert(seq_views(pieces@).last() == pieces@[pieces@.len() - 1]@);
        }
        (Some(string_of(first.as_slice())), string_of(last.as_slice()))
    } else {
        (None, String::from_str(title))
    }
}

/// Builds the record of a page without its own parser from what it shows
/// (see `generic_assemble_spec`).
pub fn generic_assemble(
    url: &str,
    scraped_at: &str,
    title: &str,
    rows: &Option<Vec<(Vec<Vec<String>>, Vec<Vec<String>>)>>,
    dts: &Vec<String>,
    dds: &Vec<String>,
) -> (r: Spec)
    ensures
        r@ == generic_assemble_spec(url@, scraped_at@, title@, opt_rows_view(*rows), string_views(dts@), string_views(dds@)),
{
    let mut kv = RawMap::new();
    match rows {
        Some(rows) => {
            let ghost rs = rows_view(rows@);
            let mut i: usize = 0;
            while i < rows.len()
                invariant
                    i <= rows@.len(),
                    rs == rows_view(rows@),
                    kv@ == rs.take(i as int).fold_left(Map::empty(), generic_row_fold()),
                decreases rows@.len() - i,
            {
                generic_row(&mut kv, &rows[i]);
                proof {
                    assert(rs.take(i + 1).drop_last() =~= rs.take(i as int));
                }
                i = i + 1;
            }
            proof {
                assert(rs.take(rows@.len() as int) =~= rs);
            }
        },
        None => {},
    }
    if kv.is_empty() {
        let ghost start = kv@;
        let ghost pairs = term_pairs(string_views(dts@), string_views(dds@));
        let mut i: usize = 0;
        while i < dts.len()
            invariant
                i <= dts@.len(),
                pairs == term_pairs(string_views(dts@), string_views(dds@)),
                kv@ == pairs.take(i as int).fold_left(start, generic_pair_fold()),
            decreases dts@.len() - i,
        {
            let v = if i < dds.len() { dds[i].clone() } else { String::new() };
            proof {
                assert(pairs.take(i + 1).drop_last() =~= pairs.take(i as int));
                assert(pairs[i as int] == (dts@[i as int]@, v@));
            }
            if dts[i].unicode_len() > 0 && v.unicode_len() > 0 {
                kv.insert(dts[i].clone(), v);
            }
            i = i + 1;
        }
        proof {
            assert(pairs.take(dts@.len() as int) =~= pairs);
        }
    }
    let (brand, model) = generic_brand_model_of(title);
    let mut spec = Spec::new(model);
    spec.brand = brand;
    spec.raw = kv;
    spec.sources.push(source_info(url, scraped_at, None));
    proof {
        assert(spec@ =~= generic_assemble_spec(url@, scraped_at@, title@, opt_rows_view(*rows), string_views(dts@), string_views(dds@)));
    }
    spec
}

/// Parses a page of a site without its own parser, fetched from `url` at
/// time `scraped_at`: the title gives brand and model, the tables (or
/// definition lists) give the raw map.
pub fn generic_parse(url: &str, body: &str, scraped_at: &str) -> (r: Spec)
    ensures
        r@ == generic_page_spec(url@, body@, scraped_at@),
{
    let page = Page::new(body);
    let title = page_title(&page);
    let rows = select_rows(&page, "table tr", "th", "td");
    let dts = texts_matching(&page, "dl dt");
    let dds = texts_matching(&page, "dl dd");
    generic_assemble(url, scraped_at, title.as_str(), &rows, &dts, &dds)
}

/// The record a page gives to the parser of `site`.
pub open spec fn page_spec_for(site: Site, url: Seq<char>, source: Seq<char>, at: Seq<char>) -> SpecModel {
    match site {
        Site::Samsung => samsung::page_spec(url, source, at),
        Site::Xiaomi => xiaomi::page_spec(url, source, at),
        Site::Oppo => oppo::page_spec(url, source, at),
        Site::Generic => generic_page_spec(url, source, at),
    }
}

/// The source name the parser of `site` records: the vendor's site, or none
/// for the generic parser.
pub open spec fn site_source_name(site: Site) -> Option<Seq<char>> {
    match site {
        Site::Samsung => Some("samsung.my"@),
        Site::Xiaomi => Some("mi.com"@),
        Site::Oppo => Some("oppo.com"@),
        Site::Generic => None,
    }
}

/// Brand and model as the parser of `site` reads them from a page's title.
pub open spec fn title_brand_model(site: Site, source: Seq<char>) -> (Option<Seq<char>>, Seq<char>) {
    match site {
        Site::Samsung => samsung::brand_model_spec(vendor_title(source)),
        Site::Xiaomi => xiaomi::brand_model_spec(vendor_title(source)),
        Site::Oppo => oppo::brand_model_spec(vendor_title(source)),
        Site::Generic => generic_brand_model(generic_title(source)),
    }
}

/// Whatever else a page holds, the record its parser gives takes brand and
/// model from the page title alone, and names exactly one source: the URL
/// and time it was given, under the site's name.
pub proof fn lemma_record_identity(site: Site, url: Seq<char>, source: Seq<char>, at: Seq<char>)
    ensures
        (page_spec_for(site, url, source, at).brand, page_spec_for(site, url, source, at).model)
            == title_brand_model(site, source),
        page_spec_for(site, url, source, at).sources == seq![source_model(url, at, site_source_name(site))],
{
    match site {
        Site::Oppo => {
            let (brand, model) = oppo::brand_model_spec(vendor_title(source));
            let base = SpecModel { brand: brand, ..SpecModel::blank(model) };
            match html_text_nodes(source, oppo::list_css()) {
                Some(items) => oppo::lemma_fill_keeps_identity(
                    items.map_values(|e: Seq<Seq<char>>| element_text(e)),
                    Seq::empty(),
                    base,
                ),
                None => match html_rows(source, "table tr"@, "th"@, "td"@) {
                    Some(rows) => oppo::lemma_fill_keeps_identity(Seq::empty(), rows, base),
                    None => {},
                },
            }
            assert(Seq::<SourceModel>::empty().push(source_model(url, at, Some("oppo.com"@)))
                =~= seq![source_model(url, at, Some("oppo.com"@))]);
        },
        Site::Xiaomi => {
            let (brand, model) = xiaomi::brand_model_spec(vendor_title(source));
            let base = SpecModel { brand: brand, ..SpecModel::blank(model) };
            xiaomi::lemma_fill_keeps_identity(
                term_pairs(texts_of(source, "dt"@), texts_of(source, "dd"@)),
                base,
            );
            assert(Seq::<SourceModel>::empty().push(source_model(url, at, Some("mi.com"@)))
                =~= seq![source_model(url, at, Some("mi.com"@))]);
        },
        Site::Samsung => {
            let (brand, model) = samsung::brand_model_spec(vendor_title(source));
            let base = SpecModel { brand: brand, ..SpecModel::blank(model) };
            let priced = match samsung::price_spec(source) {
                Some(p) => SpecModel { price: Some(crate::sites::price_model(p)), ..base },
                None => base,
            };
            match html_table_rows(source, samsung::tables_css(), "tr"@, "th"@, "td"@) {
                Some(tables) => samsung::lemma_fill_keeps_identity(tables, priced),
                None => {},
            }
            assert(Seq::<SourceModel>::empty().push(source_model(url, at, Some("samsung.my"@)))
                =~= seq![source_model(url, at, Some("samsung.my"@))]);
        },
        Site::Generic => {},
    }
}

/// Parses a page with the parser of `site`.
pub fn parse_page(site: Site, url: &str, body: &str, scraped_at: &str) -> (r: Spec)
    ensures
        r@ == page_spec_for(site, url@, body@, scraped_at@),
{
    match site {
        Site::Samsung => samsung::parse(url, body, scraped_at),
        Site::Xiaomi => xiaomi::parse(url, body, scraped_at),
        Site::Oppo => oppo::parse(url, body, scraped_at),
        Site::Generic => generic_parse(url, body, scraped_at),
    }
}

/// The name of the JSON file a record is saved under: its slug and `.json`.
pub fn output_file_name(spec: &Spec) -> (r: String)
    ensures
        r@ == slug_spec(lowercase_of(slug_base(opt_view(spec.brand), spec.model@))) + ".json"@,
{
    let slug = slugify(&spec.brand, spec.model.as_str());
    concat_str(slug.as_str(), ".json")
}

/// Where the list of URLs to scrape comes from.
#[derive(Clone, Copy, PartialEq, Eq, Debug)]
pub enum UrlSource {
    /// A JSON array of URLs served by the configured endpoint.
    Endpoint,
    /// A local JSON file holding an array of URLs, named by the input.
    JsonFile,
    /// The input itself, a single URL.
    Single,
    /// A local file of URLs, one per line, named by the input.
    LinesFile,
}

pub open spec fn starts_with(s: Seq<char>, p: Seq<char>) -> bool {
    p.len() <= s.len() && s.take(p.len() as int) == p
}

pub open spec fn ends_with(s: Seq<char>, p: Seq<char>) -> bool {
    p.len() <= s.len() && s.skip(s.len() - p.len()) == p
}

/// Where the URLs come from for an input: an input starting with
/// `http://` or `https://` is read from the endpoint when one is
/// configured, else from a local JSON file when it ends with `.json`, else
/// it is the single URL; any other input names a file of lines.
pub open spec fn url_source_spec(input: Seq<char>, endpoint_set: bool) -> UrlSource {
    if starts_with(input, "http://"@) || starts_with(input, "https://"@) {
        if endpoint_set {
            UrlSource::Endpoint
        } else if ends_with(input, ".json"@) {
            UrlSource::JsonFile
        } else {
            UrlSource::Single
        }
    } else {
        UrlSource::LinesFile
    }
}

fn str_starts_with(s: &str, p: &str) -> (b: bool)
    ensures
        b == starts_with(s@, p@),
{
    let v = chars_of(s);
    let w = chars_of(p);
    let r = starts_at(v.as_slice(), w.as_slice(), 0);
    proof {
        if w@.len() <= v@.len() {
            assert(v@.subrange(0, w@.len() as int) =~= v@.take(w@.len() as int));
        }
    }
    r
}

fn str_ends_with(s: &str, p: &str) -> (b: bool)
    ensures
        b == ends_with(s@, p@),
{
    let v = chars_of(s);
    let w = chars_of(p);
    if w.len() > v.len() {
        return false;
    }
    let r = starts_at(v.as_slice(), w.as_slice(), v.len() - w.len());
    proof {
        assert(v@.subrange(v@.len() - w@.len(), v@.len() as int) =~= v@.skip(v@.len() - w@.len()));
    }
    r
}

/// Where the URLs come from for an input (see `url_source_spec`).
pub fn url_source(input: &str, endpoint_set: bool) -> (r: UrlSource)
    ensures
        r == url_source_spec(input@, endpoint_set),
{
    if str_starts_with(input, "http://") || str_starts_with(input, "https://") {
        if endpoint_set {
            UrlSource::Endpoint
        } else if str_ends_with(input, ".json") {
            UrlSource::JsonFile
        } else {
            UrlSource::Single
        }
    } else {
        UrlSource::LinesFile
    }
}

#[verifier::external_type_specification]
#[verifier::external_body]
pub struct ExJsonError(serde_json::Error);

/// What `serde_json::from_str::<Vec<String>>` reads from a text: the
/// strings of a JSON array of strings, or nothing when the text is not one.
pub uninterp spec fn json_string_array(text: Seq<char>) -> Option<Seq<Seq<char>>>;

/// Calls `serde_json::from_str::<Vec<String>>`. Claims that it succeeds
/// exactly when `json_string_array` of the text is something, and then
/// returns those strings.
#[verifier::external_body]
fn parse_string_array(text: &str) -> (r: Result<Vec<String>, serde_json::Error>)
    ensures
        match r {
            Ok(v) => json_string_array(text@) == Some(string_views(v@)),
            Err(_) => json_string_array(text@) is None,
        },
{
    serde_json::from_str::<Vec<String>>(text)
}

/// Calls `serde_json::Error`'s `Display`. Nothing is claimed of the
/// message.
#[verifier::external_body]
fn json_error_message(e: &serde_json::Error) -> String {
    format!("{}", e)
}

/// Why a list of URLs could not be read.
#[derive(Clone, PartialEq, Eq, Debug)]
pub enum UrlListError {
    /// The text is not a JSON array of strings; the parser's message.
    NotAStringArray(String),
}

/// The URLs of a JSON text holding an array of strings.
pub fn urls_from_json(text: &str) -> (r: Result<Vec<String>, UrlListError>)
    ensures
        match r {
            Ok(v) => json_string_array(text@) == Some(string_views(v@)),
            Err(_) => json_string_array(text@) is None,
        },
{
    match parse_string_array(text) {
        Ok(v) => Ok(v),
        Err(e) => Err(UrlListError::NotAStringArray(json_error_message(&e))),
    }
}

/// The URLs of a file of lines: each line trimmed, empty lines dropped. A
/// `\r` before a line break is white space and goes with the trim, so this
/// is what `str::lines`, `str::trim` and the filter give.
pub open spec fn urls_from_lines_spec(text: Seq<char>) -> Seq<Seq<char>> {
    trimmed_nonempty(split_on(text, seq!['\n']))
}

/// The URLs of a file of lines.
pub fn urls_from_lines(text: &str) -> (r: Vec<String>)
    ensures
        string_views(r@) == urls_from_lines_spec(text@),
{
    let v = chars_of(text);
    let seps = vec!['\n'];
    let pieces = split_chars(v.as_slice(), seps.as_slice());
    proof {
        assert(seps@ =~= seq!['\n']);
    }
    trimmed_nonempty_of(&pieces)
}


/// Every URL read from a file of lines is non-empty and has no white space
/// at either end.
pub proof fn lemma_urls_clean(text: Seq<char>)
    ensures
        forall|i: int| 0 <= i < urls_from_lines_spec(text).len() ==> {
            let u = #[trigger] urls_from_lines_spec(text)[i];
            &&& u.len() > 0
            &&& !crate::text::is_white_space(u[0])
            &&& !crate::text::is_white_space(u.last())
        },
{
    crate::text::lemma_trimmed_nonempty_clean(split_on(text, seq!['\n']));
}

} // verus!
