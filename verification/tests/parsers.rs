use rust_pipeline::camera::CameraRule;
use rust_pipeline::oppo;
use rust_pipeline::samsung;
use rust_pipeline::html::{first_text_from, texts_from_nodes, title_from, title_only_from};
use rust_pipeline::scrub::{generic_assemble, generic_brand_model_of, generic_parse, output_file_name, parse_page, site_for_url, ScrapeError, Site};
use rust_pipeline::sites::first_marked_src;
use rust_pipeline::specs::{Cameras, Spec};
use rust_pipeline::xiaomi;

fn roles(c: &Cameras) -> [Option<&str>; 5] {
    [c.main.as_deref(), c.wide.as_deref(), c.ultra_wide.as_deref(), c.telephoto.as_deref(), c.other.as_deref()]
}

#[test]
fn oppo_camera_roles() {
    let c = oppo::parse_camera("50MP main + 8MP ultra wide, 2MP macro");
    assert_eq!(roles(&c), [Some("50MP main"), None, Some("8MP ultra wide"), None, Some("2MP macro")]);
    let c = oppo::parse_camera("64MP telephoto, 12MP wide, 5MP depth, 2MP macro");
    assert_eq!(roles(&c), [None, Some("12MP wide"), None, Some("64MP telephoto"), Some("5MP depth, 2MP macro")]);
    let c = oppo::parse_camera("200MP, 10MP periscope");
    assert_eq!(roles(&c), [Some("200MP"), None, None, None, Some("10MP periscope")]);
    assert!(c.macro_camera.is_none() && c.selfie_camera.is_none());
}

#[test]
fn samsung_camera_roles() {
    let c = samsung::parse_camera("200MP Wide, 10MP Periscope , ,12MP UltraWide");
    assert_eq!(roles(&c), [None, Some("200MP Wide"), Some("12MP UltraWide"), Some("10MP Periscope"), None]);
}

#[test]
fn xiaomi_camera_roles() {
    let c = xiaomi::parse_camera("50MP wide + 50MP telephoto + 12MP ultra wide + 2MP depth");
    assert_eq!(roles(&c), [None, Some("50MP wide"), Some("12MP ultra wide"), Some("50MP telephoto"), Some("2MP depth")]);
    let c = xiaomi::parse_camera("");
    assert_eq!(roles(&c), [None, None, None, None, None]);
}

#[test]
fn brand_and_model_from_titles() {
    let (b, m) = oppo::extract_brand_model("OPPO Find N5 OPPO ");
    assert_eq!((b.as_deref(), m.as_str()), (Some("OPPO"), "Find N5"));
    let (b, m) = xiaomi::extract_brand_model("Xiaomi 15T Pro - Specifications");
    assert_eq!((b.as_deref(), m.as_str()), (Some("Xiaomi"), "Xiaomi 15T Pro -"));
    let (b, m) = xiaomi::extract_brand_model("Redmi Note specs");
    assert_eq!((b.as_deref(), m.as_str()), (Some("Xiaomi"), "Redmi Note"));
    let (b, m) = samsung::extract_brand_model("Samsung Galaxy S25 FE White 256GB | Samsung Malaysia");
    assert_eq!((b.as_deref(), m.as_str()), (Some("Samsung"), "Galaxy S25 FE White 256GB"));
    let (b, m) = samsung::extract_brand_model("Buy Phones – Samsung MY");
    assert_eq!((b.as_deref(), m.as_str()), (Some("Samsung"), "Buy Phones – Samsung MY"));
}

const OPPO_PAGE: &str = r#"<html><head><meta property="og:title" content="OPPO Find N5"><title>ignored</title></head>
<body><ul class="specs-list"><li>Display: 8.12 inch</li><li>Battery : 5600mAh</li>
<li>Camera: 50MP main, 8MP ultra wide</li><li>Weight: 229 g</li><li>no colon</li></ul>
<span class="price">RM 7,999.00</span></body></html>"#;

#[test]
fn oppo_page() {
    let s = oppo::parse("https://www.oppo.com/my/find-n5/specs", OPPO_PAGE, "2025-01-01T00:00:00+00:00");
    assert_eq!(s.brand.as_deref(), Some("OPPO"));
    assert_eq!(s.model, "Find N5");
    assert_eq!(s.display.as_deref(), Some("8.12 inch"));
    assert_eq!(s.battery.as_deref(), Some("5600mAh"));
    let c = s.cameras.as_ref().unwrap();
    assert_eq!(c.main.as_deref(), Some("50MP main"));
    assert_eq!(c.ultra_wide.as_deref(), Some("8MP ultra wide"));
    assert_eq!(s.raw.get("Weight"), Some("229 g".to_string()));
    assert_eq!(s.raw.get("no colon"), None);
    let p = s.price.as_ref().unwrap();
    assert_eq!(p.raw.as_deref(), Some("RM 7,999.00"));
    assert_eq!(p.amount_text, "7999.00");
    assert_eq!(p.country.as_deref(), Some("MY"));
    assert_eq!(s.sources.len(), 1);
    assert_eq!(s.sources[0].url, "https://www.oppo.com/my/find-n5/specs");
    assert_eq!(s.sources[0].scraped_at, "2025-01-01T00:00:00+00:00");
    assert_eq!(s.sources[0].source_name.as_deref(), Some("oppo.com"));
}

const XIAOMI_PAGE: &str = r#"<html><head><title>Xiaomi 15T Pro Specifications</title></head><body>
<dl><dt>Display</dt><dd>6.83" AMOLED</dd><dt>Camera</dt><dd>50MP wide + 50MP telephoto + 12MP ultra wide</dd>
<dt>Chip</dt><dd>Dimensity 9400+</dd><dt>Extra</dt></dl>
<div class="product__price">RM 3,299</div><img src="/a.png"><img src="https://cdn.mi.com/x.png"></body></html>"#;

#[test]
fn xiaomi_page() {
    let s = xiaomi::parse("https://www.mi.com/my/product/x/specs", XIAOMI_PAGE, "t");
    assert_eq!(s.brand.as_deref(), Some("Xiaomi"));
    assert_eq!(s.model, "Xiaomi 15T Pro");
    assert_eq!(s.display.as_deref(), Some("6.83\" AMOLED"));
    let c = s.cameras.as_ref().unwrap();
    assert_eq!(c.wide.as_deref(), Some("50MP wide"));
    assert_eq!(c.telephoto.as_deref(), Some("50MP telephoto"));
    assert_eq!(c.ultra_wide.as_deref(), Some("12MP ultra wide"));
    assert_eq!(s.raw.get("Chip"), Some("Dimensity 9400+".to_string()));
    assert_eq!(s.raw.get("Extra"), Some(String::new()));
    assert_eq!(s.raw.get("image"), Some("https://cdn.mi.com/x.png".to_string()));
    assert_eq!(s.price.as_ref().unwrap().amount_text, "3299");
    assert_eq!(s.sources[0].source_name.as_deref(), Some("mi.com"));
}

const SAMSUNG_PAGE: &str = r#"<html><head><title>Samsung Galaxy S25 FE | Samsung Malaysia</title>
<meta itemprop="price" content="RM2,999.00"></head><body>
<table><tr><th>Display</th><td>6.7"</td></tr><tr><th>Processor</th><td>Exynos 2400</td></tr>
<tr><td>RAM</td><td>8 GB</td></tr><tr><th>Colour</th><td>Navy</td></tr>
<tr><th>Camera</th><td>50MP Wide + 12MP Ultra Wide + 8MP Telephoto</td></tr><tr></tr></table>
<span class="price">RM 1</span><img src="/x/productimages/s25.png"></body></html>"#;

#[test]
fn samsung_page() {
    let s = samsung::parse("https://www.samsung.com/my/s25fe", SAMSUNG_PAGE, "t");
    assert_eq!(s.brand.as_deref(), Some("Samsung"));
    assert_eq!(s.model, "Galaxy S25 FE");
    assert_eq!(s.display.as_deref(), Some("6.7\""));
    assert_eq!(s.chipset.as_deref(), Some("Exynos 2400"));
    assert_eq!(s.memory.as_deref(), Some("8 GB"));
    assert_eq!(s.raw.get("Colour"), Some("Navy".to_string()));
    assert_eq!(s.raw.get("image"), Some("/x/productimages/s25.png".to_string()));
    let c = s.cameras.as_ref().unwrap();
    assert_eq!(roles(c), [None, Some("50MP Wide"), Some("12MP Ultra Wide"), Some("8MP Telephoto"), None]);
    let p = s.price.as_ref().unwrap();
    assert_eq!(p.raw.as_deref(), Some("RM2,999.00"));
    assert_eq!(p.amount_text, "2999.00");
    assert_eq!(s.sources[0].source_name.as_deref(), Some("samsung.my"));
}

#[test]
fn samsung_price_meta_without_content_gives_no_price() {
    let page = r#"<html><head><meta itemprop="price"></head><body><span class="price">RM 5</span></body></html>"#;
    let s = samsung::parse("u", page, "t");
    assert!(s.price.is_none());
    let page = r#"<html><body><span class="productPrice"> RM 5 </span></body></html>"#;
    let s = samsung::parse("u", page, "t");
    assert_eq!(s.price.as_ref().unwrap().raw.as_deref(), Some("RM 5"));
    assert_eq!(s.model, "unknown");
}

#[test]
fn oppo_page_without_list_items_keeps_defaults() {
    let page = r#"<html><head><title>OPPO Reno</title></head><body><table><tr><th>Camera</th><td>50MP</td></tr></table></body></html>"#;
    let s = oppo::parse("u", page, "t");
    assert_eq!(s.model, "Reno");
    assert!(s.cameras.is_none());
    assert!(s.raw.is_empty());
    assert!(s.price.is_none());
}

const GENERIC_PAGE: &str = r#"<html><head><title>Acme - Rocket X</title></head><body>
<table><tr><th>OS</th><td>ignored</td><td>Android 15</td></tr><tr><td>Weight</td><td>180 g</td></tr>
<tr><td></td><td>x</td></tr><tr><th>Empty</th><td>only one</td></tr></table>
<dl><dt>Never</dt><dd>used</dd></dl></body></html>"#;

#[test]
fn generic_page_tables() {
    let s = generic_parse("https://example.com/rocket", GENERIC_PAGE, "t");
    assert_eq!(s.brand.as_deref(), Some("Acme"));
    assert_eq!(s.model, "Rocket X");
    assert_eq!(s.raw.get("OS"), Some("Android 15".to_string()));
    assert_eq!(s.raw.get("Weight"), Some("180 g".to_string()));
    assert_eq!(s.raw.get("Empty"), None);
    assert_eq!(s.raw.get("Never"), None);
    assert_eq!(s.sources[0].source_name, None);
}

#[test]
fn generic_page_definition_lists() {
    let page = r#"<html><head><title>Plain Phone</title></head><body><dl><dt>A</dt><dd>1</dd><dt>B</dt></dl></body></html>"#;
    let s = generic_parse("u", page, "t");
    assert_eq!(s.brand, None);
    assert_eq!(s.model, "Plain Phone");
    assert_eq!(s.raw.get("A"), Some("1".to_string()));
    assert_eq!(s.raw.get("B"), None);
    let s = generic_parse("u", "<p>no title</p>", "t");
    assert_eq!(s.model, "unknown");
}

#[test]
fn site_dispatch() {
    assert_eq!(site_for_url("https://www.oppo.com/my/x"), Ok(Site::Oppo));
    assert_eq!(site_for_url("https://www.MI.com/my"), Ok(Site::Xiaomi));
    assert_eq!(site_for_url("https://www.samsung.com/my/smartphones/galaxy-s25/"), Ok(Site::Samsung));
    assert_eq!(site_for_url("https://SAMSUNG.com.my/"), Ok(Site::Samsung));
    assert_eq!(site_for_url("https://gsmarena.com/x"), Ok(Site::Generic));
    assert_eq!(site_for_url("not a url"), Err(ScrapeError::InvalidUrl));
    assert_eq!(site_for_url("data:text/plain,hi"), Err(ScrapeError::InvalidHost));
}

#[test]
fn parse_page_dispatches_and_names_output() {
    let s: Spec = parse_page(Site::Oppo, "u", OPPO_PAGE, "t");
    assert_eq!(output_file_name(&s), "oppo-find-n5.json");
    let s = parse_page(Site::Generic, "u", GENERIC_PAGE, "t");
    assert_eq!(output_file_name(&s), "acme-rocket-x.json");
    let _ = CameraRule::Oppo;
}

fn nodes(parts: &[&[&str]]) -> Vec<Vec<String>> {
    parts.iter().map(|e| e.iter().map(|t| t.to_string()).collect()).collect()
}

fn strings(parts: &[&str]) -> Vec<String> {
    parts.iter().map(|t| t.to_string()).collect()
}

#[test]
fn oppo_assemble_uses_rows_only_without_list() {
    let rows = Some(vec![
        (nodes(&[&[" Main ", "Camera"]]), nodes(&[&["50MP tele + 8MP"]])),
        (nodes(&[&["Weight"]]), nodes(&[])),
        (nodes(&[]), nodes(&[&["ignored"]])),
    ]);
    let s = oppo::assemble("u", "t", "OPPO Reno 13 OPPO", &None, &rows, &None);
    assert_eq!(s.model, "Reno 13");
    let c = s.cameras.as_ref().unwrap();
    assert_eq!(roles(c), [None, None, None, Some("50MP tele"), Some("8MP")]);
    assert_eq!(s.raw.get("Weight"), Some(String::new()));
    assert_eq!(s.raw.get("ignored"), None);
    assert!(s.price.is_none());
    let items = Some(nodes(&[&["Battery:", " 5000mAh "]]));
    let s = oppo::assemble("u", "t", "OPPO A5", &items, &rows, &Some("RM 1,099".to_string()));
    assert_eq!(s.battery.as_deref(), Some("5000mAh"));
    assert!(s.cameras.is_none());
    assert!(s.raw.is_empty());
    assert_eq!(s.price.as_ref().unwrap().amount_text, "1099");
}

#[test]
fn xiaomi_assemble_pairs_terms_in_order() {
    let s = xiaomi::assemble(
        "u",
        "t",
        "Redmi Note 14 specs",
        &strings(&["Battery", "Screen", "Weight"]),
        &strings(&["5500mAh", "6.67\""]),
        &None,
        &Some("/images/n14.png".to_string()),
    );
    assert_eq!(s.model, "Redmi Note 14");
    assert_eq!(s.battery.as_deref(), Some("5500mAh"));
    assert_eq!(s.raw.get("Screen"), Some("6.67\"".to_string()));
    assert_eq!(s.raw.get("Weight"), Some(String::new()));
    assert_eq!(s.raw.get("image"), Some("/images/n14.png".to_string()));
    assert!(s.price.is_none());
}

#[test]
fn samsung_price_choice_and_assemble() {
    let fallback = Some("RM 9".to_string());
    assert_eq!(samsung::price_choice(&None, &fallback), fallback);
    assert_eq!(samsung::price_choice(&Some(vec![]), &fallback), fallback);
    assert_eq!(samsung::price_choice(&Some(vec![None, Some("RM 1".to_string())]), &fallback), None);
    assert_eq!(samsung::price_choice(&Some(vec![Some("RM 2".to_string())]), &fallback), Some("RM 2".to_string()));
    let tables = Some(vec![
        vec![(nodes(&[&["Memory"]]), nodes(&[&["a"], &["12 GB"]]))],
        vec![(nodes(&[]), nodes(&[&["Chipset"], &["Snapdragon"]])), (nodes(&[]), nodes(&[]))],
    ]);
    let s = samsung::assemble("u", "t", "Buy - Galaxy Z Fold7 Samsung | Shop", &Some("RM 8,299".to_string()), &tables, &None);
    assert_eq!(s.model, "Galaxy Z Fold7");
    assert_eq!(s.memory.as_deref(), Some("12 GB"));
    assert_eq!(s.chipset.as_deref(), Some("Snapdragon"));
    assert_eq!(s.price.as_ref().unwrap().amount_text, "8299");
    assert!(s.raw.get("image").is_none());
}

#[test]
fn generic_assemble_falls_back_to_definition_lists() {
    let rows = Some(vec![(nodes(&[&["OS"]]), nodes(&[&["x"]]))]);
    let s = generic_assemble("u", "t", "A - B - C", &rows, &strings(&["K"]), &strings(&["V"]));
    assert_eq!(s.brand.as_deref(), Some("A"));
    assert_eq!(s.model, "C");
    assert_eq!(s.raw.get("OS"), None);
    assert_eq!(s.raw.get("K"), Some("V".to_string()));
    let rows = Some(vec![(nodes(&[&["OS"]]), nodes(&[&["x"], &["Android"]]))]);
    let s = generic_assemble("u", "t", "Solo", &rows, &strings(&["K"]), &strings(&["V"]));
    assert_eq!(s.brand, None);
    assert_eq!(s.raw.get("OS"), Some("Android".to_string()));
    assert_eq!(s.raw.get("K"), None);
}

#[test]
fn titles_texts_and_images_from_query_results() {
    let og = Some(vec![None, Some("Second".to_string())]);
    let titles = Some(strings(&["From title"]));
    assert_eq!(title_from(&og, &titles), "From title");
    assert_eq!(title_from(&Some(vec![Some("OG".to_string())]), &titles), "OG");
    assert_eq!(title_only_from(&None), "unknown");
    assert_eq!(title_only_from(&Some(vec![])), "unknown");
    let n = Some(nodes(&[&["  a", "b  "], &[" c "]]));
    assert_eq!(texts_from_nodes(&n), strings(&["a b", "c"]));
    assert_eq!(first_text_from(&n), Some("a b".to_string()));
    assert_eq!(first_text_from(&None), None);
    let srcs = Some(vec![None, Some("/x.png".to_string()), Some("/assets/y.png".to_string())]);
    assert_eq!(first_marked_src(&srcs, &["/assets/", "cdn"]), Some("/assets/y.png".to_string()));
    assert_eq!(first_marked_src(&srcs, &["nothing"]), None);
    assert_eq!(first_marked_src(&None, &["/"]), None);
}

#[test]
fn records_name_one_source_and_take_identity_from_title() {
    let pages = [
        (Site::Oppo, OPPO_PAGE, Some("oppo.com"), Some("OPPO"), "Find N5"),
        (Site::Xiaomi, XIAOMI_PAGE, Some("mi.com"), Some("Xiaomi"), "Xiaomi 15T Pro"),
        (Site::Samsung, SAMSUNG_PAGE, Some("samsung.my"), Some("Samsung"), "Galaxy S25 FE"),
        (Site::Generic, GENERIC_PAGE, None, Some("Acme"), "Rocket X"),
    ];
    for (site, page, name, brand, model) in pages {
        let s = parse_page(site, "https://example.com/p", page, "2025-02-03T04:05:06Z");
        assert_eq!(s.sources.len(), 1);
        assert_eq!(s.sources[0].url, "https://example.com/p");
        assert_eq!(s.sources[0].scraped_at, "2025-02-03T04:05:06Z");
        assert_eq!(s.sources[0].source_name.as_deref(), name);
        assert_eq!(s.brand.as_deref(), brand);
        assert_eq!(s.model, model);
    }
}

#[test]
fn generic_titles_split_at_dashes() {
    let (b, m) = generic_brand_model_of(" Acme - Phone - X1 ");
    assert_eq!((b.as_deref(), m.as_str()), (Some("Acme"), "X1"));
    let (b, m) = generic_brand_model_of("Acme-");
    assert_eq!((b.as_deref(), m.as_str()), (Some("Acme"), ""));
    let (b, m) = generic_brand_model_of("-");
    assert_eq!((b.as_deref(), m.as_str()), (Some(""), ""));
    let (b, m) = generic_brand_model_of(" No dash ");
    assert_eq!((b, m.as_str()), (None, " No dash "));
}

#[test]
fn generic_raw_keys_and_values_are_trimmed_and_non_empty() {
    let page = r#"<html><head><title>T</title></head><body><table>
<tr><th>  Key  A </th><td>x</td><td>  val  </td></tr><tr><td> </td><td>y</td></tr>
<tr><th>Blank</th><td>a</td><td>   </td></tr></table></body></html>"#;
    let s = generic_parse("u", page, "t");
    for (k, v) in s.raw.entries() {
        assert!(!k.is_empty() && !v.is_empty());
        assert_eq!(k.trim(), k);
        assert_eq!(v.trim(), v);
    }
    assert_eq!(s.raw.get("Key  A"), Some("val".to_string()));
    assert_eq!(s.raw.get("Blank"), None);
}
