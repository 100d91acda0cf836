use rust_pipeline::bucket::{object_key_of, upload_target, UploadError, UploadManifest, UploadedManifest};
use rust_pipeline::cleaner::{expired_keys, StoredObject, Timestamp};
use rust_pipeline::ingest::{file_extension, should_push};
use rust_pipeline::markdown::render_to_markdown;
use rust_pipeline::optimizer::{variant_names, variant_outputs};
use rust_pipeline::scrub::{url_source, urls_from_json, urls_from_lines, UrlListError, UrlSource};
use rust_pipeline::specs::{Cameras, Spec};
use rust_pipeline::transcribe::{choose_provider, extract_candidate_quotes, poll_action, stitch_transcripts, PollAction, Provider};

#[test]
fn markdown_without_cameras() {
    let mut s = Spec::new("S25".to_string());
    s.brand = Some("Samsung".to_string());
    s.display = Some("6.7".to_string());
    assert_eq!(
        render_to_markdown(&s),
        "# Samsung S25\n\n| Field | Value |\n|---|---|\n| Display | 6.7 |\n| Memory | N/A |\n| Storage | N/A |\n| Cameras | N/A |\n"
    );
}

#[test]
fn markdown_with_cameras() {
    let mut s = Spec::new("X".to_string());
    s.memory = Some("8 GB".to_string());
    s.storage = Some("256 GB".to_string());
    let mut c = Cameras::empty();
    c.telephoto = Some("10MP".to_string());
    s.cameras = Some(c);
    assert_eq!(
        render_to_markdown(&s),
        "#  X\n\n| Field | Value |\n|---|---|\n| Display | N/A |\n| Memory | 8 GB |\n| Storage | 256 GB |\n| Main camera | N/A |\n| Telephoto | 10MP |\n"
    );
}

#[test]
fn quotes_longest_first() {
    let q = extract_candidate_quotes("Short one. A much longer sentence here! Mid size? x", 2);
    assert_eq!(q, vec!["A much longer sentence here", "Short one"]);
    let q = extract_candidate_quotes("ab. cd. e", 2);
    assert_eq!(q, vec!["cd", "ab"]);
    let q = extract_candidate_quotes("one. two", 5);
    assert_eq!(q, vec!["two", "one"]);
    assert!(extract_candidate_quotes("...", 3).is_empty());
    assert!(extract_candidate_quotes("a. b", 0).is_empty());
}

#[test]
fn quotes_rank_by_bytes() {
    // "é" is two bytes, so "éé" (4 bytes) outranks "abc" (3 bytes)
    let q = extract_candidate_quotes("abc. éé", 1);
    assert_eq!(q, vec!["éé"]);
}

#[test]
fn provider_and_polling() {
    assert_eq!(choose_provider("AssemblyAI"), Provider::AssemblyAi);
    assert_eq!(choose_provider("openai"), Provider::OpenAi);
    assert_eq!(choose_provider(""), Provider::OpenAi);
    assert_eq!(poll_action("completed"), PollAction::Done);
    assert_eq!(poll_action("error"), PollAction::Fail);
    assert_eq!(poll_action("queued"), PollAction::Wait);
    assert_eq!(poll_action(""), PollAction::Wait);
}

#[test]
fn url_sources() {
    assert_eq!(url_source("https://x/urls.json", false), UrlSource::JsonFile);
    assert_eq!(url_source("https://x/urls.json", true), UrlSource::Endpoint);
    assert_eq!(url_source("http://x/p", false), UrlSource::Single);
    assert_eq!(url_source("urls.txt", true), UrlSource::LinesFile);
    assert_eq!(url_source("HTTP://x", false), UrlSource::LinesFile);
}

#[test]
fn url_lines() {
    assert_eq!(urls_from_lines(" a \r\n\nb\n  "), vec!["a", "b"]);
    assert!(urls_from_lines("").is_empty());
    let text = "x\r\ny\n";
    let expected: Vec<String> = text.lines().map(str::trim).filter(|l| !l.is_empty()).map(String::from).collect();
    assert_eq!(urls_from_lines(text), expected);
}

#[test]
fn s3_keys_and_urls() {
    assert_eq!(object_key_of("phones/images//", "a.png"), "phones/images/a.png");
    assert_eq!(object_key_of("", "a.png"), "/a.png");
    let t = upload_target("bkt", "us-east-1", "phones/images", Some("a.png")).unwrap();
    assert_eq!(t.key, "phones/images/a.png");
    assert_eq!(t.url, "https://bkt.s3.us-east-1.amazonaws.com/phones/images/a.png");
    assert_eq!(upload_target("b", "r", "p", None).err(), Some(UploadError::MissingFileName));
    let m = UploadManifest { items: vec!["x".to_string()] };
    let u = UploadedManifest { files: vec![t.url.clone()] };
    assert_eq!(m.items.len(), u.files.len());
}

#[test]
fn ingest_selects_json_files() {
    assert!(should_push(true, Some("x.json")));
    assert!(!should_push(false, Some("x.json")));
    assert!(!should_push(true, Some(".json")));
    assert!(!should_push(true, Some("a.JSON")));
    assert!(!should_push(true, None));
    assert!(should_push(true, Some("a.b.json")));
    assert_eq!(file_extension(".a.b"), Some("b".to_string()));
    assert_eq!(file_extension("a."), Some(String::new()));
    assert_eq!(file_extension(".."), None);
    for name in ["x.json", ".json", "a.b.c", "noext", "a.", ".a.b"] {
        let std_ext = std::path::Path::new(name).extension().map(|e| e.to_str().unwrap().to_string());
        assert_eq!(file_extension(name), std_ext, "{}", name);
    }
}

#[test]
fn cleaner_selects_old_objects() {
    let t = |s, n| Some(Timestamp { secs: s, nanos: n });
    let objs = vec![
        StoredObject { key: Some("a".to_string()), last_modified: t(10, 0) },
        StoredObject { key: Some("b".to_string()), last_modified: t(100, 0) },
        StoredObject { key: None, last_modified: t(1, 0) },
        StoredObject { key: Some("c".to_string()), last_modified: None },
        StoredObject { key: Some("d".to_string()), last_modified: t(50, 4) },
        StoredObject { key: Some("e".to_string()), last_modified: t(50, 5) },
    ];
    assert_eq!(expired_keys(&objs, Timestamp { secs: 50, nanos: 5 }), vec!["a", "d"]);
}

#[test]
fn image_variant_names() {
    let (a, b, c) = variant_names(320);
    assert_eq!((a.as_str(), b.as_str(), c.as_str()), ("320w.jpg", "320w-prog.jpg", "320w.webp"));
    assert_eq!(variant_names(0).0, "0w.jpg");
    assert_eq!(variant_names(u32::MAX).2, format!("{}w.webp", u32::MAX));
    assert_eq!(variant_outputs(1600, true), vec!["1600w-prog.jpg", "1600w.webp"]);
    assert_eq!(variant_outputs(1600, false), vec!["1600w.jpg", "1600w.webp"]);
}

#[test]
fn url_lists_from_json() {
    assert_eq!(urls_from_json(r#"["https://a", "https://b"]"#), Ok(vec!["https://a".to_string(), "https://b".to_string()]));
    assert_eq!(urls_from_json(" [] "), Ok(vec![]));
    assert!(matches!(urls_from_json(r#"["a", 1]"#), Err(UrlListError::NotAStringArray(_))));
    assert!(matches!(urls_from_json("https://a"), Err(UrlListError::NotAStringArray(_))));
    assert!(matches!(urls_from_json(r#"["a"] x"#), Err(UrlListError::NotAStringArray(_))));
}

#[test]
fn transcripts_stitched_per_provider() {
    let texts = vec!["One.".to_string(), "".to_string(), "Two.".to_string()];
    assert_eq!(stitch_transcripts(Provider::AssemblyAi, &texts), "\n\nOne.\n\n\n\nTwo.");
    assert_eq!(stitch_transcripts(Provider::OpenAi, &texts), "One.Two.");
    assert_eq!(stitch_transcripts(Provider::AssemblyAi, &vec![]), "");
}
