use liteclaw::images::{
    has_image_results, hits_payload, references_from_catalog, CatalogItem, Hit, ImageEvent,
    ImageEventTracker, ImageRef, ImageReference, JsonAtom,
};
use serde_json::Value;

fn atom(v: &Value) -> JsonAtom {
    match v {
        Value::String(s) => JsonAtom::Str(s.clone()),
        _ => match v.as_u64() {
            Some(n) => JsonAtom::UInt(n),
            None => JsonAtom::Other(v.to_string()),
        },
    }
}

fn image_ref(v: &Value) -> ImageRef {
    ImageRef { id: atom(&v["id"]), role: atom(&v["role"]), priority: atom(&v["priority"]) }
}

fn hits_of(values: &[Value]) -> Vec<Hit> {
    values
        .iter()
        .map(|h| Hit { images: h["images"].as_array().map(|a| a.iter().map(image_ref).collect()) })
        .collect()
}

/// The hits a tool summary parses to: the first JSON array after the
/// skill runner's `(exit 0)` line.
fn parse_hits(summary: &str) -> Option<Vec<Hit>> {
    let payload = hits_payload(summary);
    serde_json::Deserializer::from_str(&payload)
        .into_iter::<Vec<Value>>()
        .next()
        .and_then(Result::ok)
        .map(|v| hits_of(&v))
}

fn catalog_of(values: &[Value]) -> Vec<CatalogItem> {
    values
        .iter()
        .map(|i| CatalogItem {
            id: atom(&i["id"]),
            pdf_page: atom(&i["pdf_page"]),
            alt_text: atom(&i["alt_text"]),
            kind: atom(&i["kind"]),
            source_file: atom(&i["source_file"]),
            file: atom(&i["file"]),
        })
        .collect()
}

fn refs(summary: &str, catalog: &[Value]) -> Vec<ImageReference> {
    references_from_catalog(&parse_hits(summary), &catalog_of(catalog))
}

fn event(v: &Value) -> ImageEvent {
    ImageEvent {
        kind: atom(&v["type"]),
        tool: atom(&v["tool"]),
        argument_id: atom(&v["arguments"]["id"]),
        ok: atom(&v["ok"]),
        hits: parse_hits(v["summary"].as_str().unwrap_or_default()),
    }
}

/// What the tracker hands out for an event, against an empty catalog.
fn consume(t: &mut ImageEventTracker, v: Value) -> Option<Vec<ImageReference>> {
    let e = event(&v);
    if t.consume(&e) {
        Some(references_from_catalog(&e.hits, &Vec::new()))
    } else {
        None
    }
}

fn is_str(a: &JsonAtom, s: &str) -> bool {
    matches!(a, JsonAtom::Str(x) if x == s)
}

#[test]
fn only_manual_skill_results_update_images_including_empty_results() {
    let mut events = ImageEventTracker::default();
    consume(&mut events, serde_json::from_str(r#"{"type":"tool_start","tool":"bash","arguments":{}}"#).unwrap());
    assert!(consume(
        &mut events,
        serde_json::from_str(r#"{"type":"tool_result","tool":"bash","ok":true,"summary":"[{\"images\":[]}]"}"#).unwrap()
    )
    .is_none());
    consume(
        &mut events,
        serde_json::from_str(r#"{"type":"tool_start","tool":"skill_run","arguments":{"id":"other"}}"#).unwrap(),
    );
    assert!(consume(
        &mut events,
        serde_json::from_str(r#"{"type":"tool_result","tool":"skill_run","ok":true,"summary":"[]"}"#).unwrap()
    )
    .is_none());
    consume(
        &mut events,
        serde_json::from_str(r#"{"type":"tool_start","tool":"skill_run","arguments":{"id":"manual-rag"}}"#).unwrap(),
    );
    let got = consume(
        &mut events,
        serde_json::from_str(r#"{"type":"tool_result","tool":"skill_run","ok":true,"summary":"(exit 0)\n[]"}"#)
            .unwrap(),
    );
    assert!(matches!(got, Some(ref v) if v.is_empty()));
    consume(
        &mut events,
        serde_json::from_str(r#"{"type":"tool_start","tool":"skill_run","arguments":{"id":"manual-rag"}}"#).unwrap(),
    );
    assert!(consume(
        &mut events,
        serde_json::from_str(r#"{"type":"tool_result","tool":"skill_run","ok":true,"summary":"not JSON"}"#).unwrap()
    )
    .is_none());
}

#[test]
fn selected_crop_is_not_replaced_by_other_figures_on_same_page() {
    let catalog: Vec<Value> = serde_json::from_str(
        r#"[{"id":"manual-beam","source_file":"manual.pdf","pdf_page":145,"kind":"illustration"},
            {"id":"auto-beam","source_file":"manual.pdf","pdf_page":145,"kind":"illustration"},
            {"id":"whole-page","source_file":"manual.pdf","pdf_page":145,"kind":"source_page"}]"#,
    )
    .unwrap();
    let out = refs(
        r#"[{"images":[{"id":"manual-beam","role":"primary"},{"id":"whole-page","role":"reference"}]}]"#,
        &catalog,
    );
    assert_eq!(out[0].id, "manual-beam");
    assert_eq!(out[0].role, "primary");
    assert_eq!(out[1].role, "reference");
    assert!(has_image_results(&parse_hits(r#"[{"images":[]}]"#)));
    assert!(has_image_results(&parse_hits("[]")));
    assert!(!has_image_results(&parse_hits("ordinary tool output")));
}

#[test]
fn catalog_is_authoritative_and_references_are_bounded() {
    let catalog: Vec<Value> = (0..10)
        .map(|i| serde_json::from_str(&format!(r#"{{"id":"image-{i}","pdf_page":{i},"alt_text":"trusted"}}"#)).unwrap())
        .collect();
    let listed: Vec<String> = (0..10).map(|i| format!(r#"{{"id":"image-{i}","caption":"untrusted"}}"#)).collect();
    let summary = format!(r#"[{{"images":[{{"id":"unknown"}},{{"id":"image-0"}}]}},{{"images":[{}]}}]"#, listed.join(","));
    let out = refs(&summary, &catalog);
    assert_eq!(out.len(), 6);
    assert_eq!(out[0].id, "image-0");
    assert_eq!(out[5].id, "image-5");
    assert!(out.iter().all(|i| is_str(&i.caption, "trusted")));
}

#[test]
fn malformed_ids_do_not_create_image_urls() {
    let catalog: Vec<Value> = serde_json::from_str(r#"[{"file":"no-id.png"},{"id":"../secret"}]"#).unwrap();
    let out = refs(r#"[{"images":[{}, {"id":"../secret"}]}]"#, &catalog);
    assert!(out.is_empty());
}

#[test]
fn topic_matched_page_is_not_crowded_out_by_earlier_generic_figures() {
    let catalog: Vec<Value> =
        (0..8).map(|i| serde_json::from_str(&format!(r#"{{"id":"image-{i}"}}"#)).unwrap()).collect();
    let listed: Vec<String> = (0..8)
        .map(|i| format!(r#"{{"id":"image-{i}","priority":{}}}"#, if i == 7 { 2 } else { 0 }))
        .collect();
    let out = refs(&format!(r#"[{{"images":[{}]}}]"#, listed.join(",")), &catalog);
    assert_eq!(out[0].id, "image-7");
    assert_eq!(out.len(), 6);
}

#[test]
fn many_crops_from_one_page_do_not_hide_other_source_pages() {
    let mut catalog: Vec<Value> = (0..8)
        .map(|i| {
            serde_json::from_str(&format!(r#"{{"id":"crop-{i}","source_file":"manual.pdf","pdf_page":35}}"#)).unwrap()
        })
        .collect();
    catalog.push(serde_json::from_str(r#"{"id":"charging","source_file":"manual.pdf","pdf_page":43}"#).unwrap());
    let listed: Vec<String> = catalog.iter().map(|i| format!(r#"{{"id":{}}}"#, i["id"])).collect();
    let out = refs(&format!(r#"[{{"images":[{}]}}]"#, listed.join(",")), &catalog);
    assert!(out.iter().any(|i| i.id == "charging"));
}

#[test]
fn payload_drops_the_exit_line_only() {
    assert_eq!(hits_payload("(exit 0)\n[1]"), "[1]");
    assert_eq!(hits_payload("[1]"), "[1]");
    assert_eq!(hits_payload("(exit 1)\n[1]"), "(exit 1)\n[1]");
    let hits = parse_hits("(exit 0)\n[{\"images\":[{\"id\":\"test\"}]}]\n[stderr]\nwarning").unwrap();
    assert!(is_str(&hits[0].images.as_ref().unwrap()[0].id, "test"));
    assert!(parse_hits("(exit 0)\n[{truncated").is_none());
}

#[test]
fn roles_are_limited_and_urls_follow_ids() {
    let catalog: Vec<Value> =
        (0..6).map(|i| serde_json::from_str(&format!(r#"{{"id":"p-{i}","pdf_page":{i}}}"#)).unwrap()).collect();
    let listed: Vec<String> = (0..6)
        .map(|i| format!(r#"{{"id":"p-{i}","role":"{}"}}"#, if i < 3 { "primary" } else { "supporting" }))
        .collect();
    let out = refs(&format!(r#"[{{"images":[{}]}}]"#, listed.join(",")), &catalog);
    let ids: Vec<&str> = out.iter().map(|r| r.id.as_str()).collect();
    assert_eq!(ids, vec!["p-0", "p-3", "p-4"]);
    assert_eq!(out[0].url, "/api/manual-images/p-0");
    assert!(matches!(out[1].page, JsonAtom::UInt(3)));
}

#[test]
fn a_page_with_several_illustrations_is_shown_whole() {
    let catalog: Vec<Value> = serde_json::from_str(
        r#"[{"id":"a","source_file":"m.pdf","pdf_page":9,"kind":"illustration"},
            {"id":"b","source_file":"m.pdf","pdf_page":9,"kind":"illustration"},
            {"id":"page-9","source_file":"m.pdf","pdf_page":9,"kind":"source_page","alt_text":"whole"}]"#,
    )
    .unwrap();
    let out = refs(r#"[{"images":[{"id":"a"},{"id":"b"}]}]"#, &catalog);
    assert_eq!(out.len(), 1);
    assert_eq!(out[0].id, "page-9");
    assert_eq!(out[0].role, "reference");
    assert!(is_str(&out[0].caption, "whole"));
}

#[test]
fn failed_or_other_results_show_no_images() {
    let mut t = ImageEventTracker::default();
    consume(&mut t, serde_json::from_str(r#"{"type":"tool_start","tool":"skill_run","arguments":{"id":"manual-rag"}}"#).unwrap());
    assert!(consume(&mut t, serde_json::from_str(r#"{"type":"tool_result","tool":"skill_run","ok":false,"summary":"[]"}"#).unwrap()).is_none());
    consume(&mut t, serde_json::from_str(r#"{"type":"tool_start","tool":"skill_run","arguments":{"id":"manual-rag"}}"#).unwrap());
    consume(&mut t, serde_json::from_str(r#"{"type":"text_delta","text":"x"}"#).unwrap());
    assert!(consume(&mut t, serde_json::from_str(r#"{"type":"tool_result","tool":"skill_run","ok":true,"summary":"[]"}"#).unwrap()).is_some());
    assert!(consume(&mut t, serde_json::from_str(r#"{"type":"tool_result","tool":"skill_run","ok":true,"summary":"[]"}"#).unwrap()).is_none());
}
