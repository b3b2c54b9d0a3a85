use sqwok::tui::mention::{
    extract_mentioned_names, is_uuid_like, mentions_user, render_body, split_body_spans, NameCache,
};

#[test]
fn test_mentions_user() {
    let uuid = "a1b2c3d4-e5f6-7890-abcd-ef1234567890";
    let body = format!("hey <@{}>Alice</@> how are you", uuid);
    assert!(mentions_user(&body, uuid));
    assert!(!mentions_user(&body, "00000000-0000-0000-0000-000000000000"));
}

#[test]
fn test_render_body_resolves_name() {
    let uuid = "a1b2c3d4-e5f6-7890-abcd-ef1234567890";
    let mut cache = NameCache::new();
    cache.insert(uuid.to_string(), "Alice".to_string());
    let body = format!("hey <@{}>fallback</@> how are you", uuid);
    let rendered = render_body(&body, &cache);
    assert_eq!(rendered, "hey @Alice how are you");
}

#[test]
fn test_render_body_fallback_name() {
    let uuid = "a1b2c3d4-e5f6-7890-abcd-ef1234567890";
    let body = format!("hey <@{}>Alice</@>!", uuid);
    let rendered = render_body(&body, &NameCache::new());
    assert_eq!(rendered, "hey @Alice!");
}

#[test]
fn test_render_body_passthrough() {
    let body = "no mentions here <@notauuid> or </@> this";
    let rendered = render_body(body, &NameCache::new());
    assert_eq!(rendered, body);
}

#[test]
fn test_is_uuid_like() {
    assert!(is_uuid_like("a1b2c3d4-e5f6-7890-abcd-ef1234567890"));
    assert!(!is_uuid_like("not-a-uuid"));
    assert!(!is_uuid_like("a1b2c3d4-e5f6-7890-abcd-ef123456789")); // 35 chars
    assert!(!is_uuid_like("a1b2c3d4-e5f6-7890-abcd-ef12345678901")); // 37 chars
}

#[test]
fn uuid_like_rejects_misplaced_dash_and_non_hex() {
    assert!(!is_uuid_like("a1b2c3d4ee5f6-7890-abcd-ef1234567890"));
    assert!(!is_uuid_like("g1b2c3d4-e5f6-7890-abcd-ef1234567890"));
    assert!(is_uuid_like("A1B2C3D4-E5F6-7890-ABCD-EF1234567890"));
}

#[test]
fn name_cache_insert_replaces() {
    let mut cache = NameCache::new();
    let uuid = "a1b2c3d4-e5f6-7890-abcd-ef1234567890".to_string();
    assert!(cache.get(&uuid).is_none());
    cache.insert(uuid.clone(), "Alice".to_string());
    cache.insert(uuid.clone(), "Alicia".to_string());
    assert_eq!(cache.get(&uuid).unwrap(), "Alicia");
}

#[test]
fn render_body_multiple_and_unclosed_tags() {
    let a = "a1b2c3d4-e5f6-7890-abcd-ef1234567890";
    let b = "00000000-0000-0000-0000-000000000000";
    let mut cache = NameCache::new();
    cache.insert(b.to_string(), "Bob".to_string());
    let body = format!("<@{}>Al</@> and <@{}>x</@>, <@{}>open", a, b, a);
    let rendered = render_body(&body, &cache);
    assert_eq!(rendered, format!("@Al and @Bob, <@{}>open", a));
}

#[test]
fn extract_names_resolves_and_skips_empty() {
    let a = "a1b2c3d4-e5f6-7890-abcd-ef1234567890";
    let b = "00000000-0000-0000-0000-000000000000";
    let mut cache = NameCache::new();
    cache.insert(b.to_string(), "Bob".to_string());
    let body = format!("<@{}>Al</@> <@{}></@> <@{}>ignored</@> <@bad>x</@>", a, a, b);
    let names = extract_mentioned_names(&body, &cache);
    assert_eq!(names, vec!["Al".to_string(), "Bob".to_string()]);
}

#[test]
fn split_spans_marks_mentions_case_insensitively() {
    let names = vec!["alice".to_string()];
    let spans = split_body_spans("hi @Alice, and @bob!", &names);
    assert_eq!(
        spans,
        vec![
            ("hi ".to_string(), false),
            ("@Alice".to_string(), true),
            (", and @bob!".to_string(), false),
        ]
    );
    let joined: String = spans.iter().map(|(t, _)| t.as_str()).collect();
    assert_eq!(joined, "hi @Alice, and @bob!");
}

#[test]
fn split_spans_without_names_is_one_plain_span() {
    let spans = split_body_spans("hey @alice", &[]);
    assert_eq!(spans, vec![("hey @alice".to_string(), false)]);
    let spans = split_body_spans("", &["alice".to_string()]);
    assert_eq!(spans, vec![("".to_string(), false)]);
}

#[test]
fn split_spans_mention_at_end() {
    let names = vec!["bob".to_string()];
    let spans = split_body_spans("@bob", &names);
    assert_eq!(spans, vec![("@bob".to_string(), true)]);
}

#[test]
fn mention_spans_ignore_unicode_case() {
    assert_eq!(
        split_body_spans("@émile", &["Émile".to_string()]),
        vec![("@émile".to_string(), true)]
    );
    assert_eq!(
        split_body_spans("hi @ÉMILE!", &["émile".to_string()]),
        vec![("hi ".to_string(), false), ("@ÉMILE".to_string(), true), ("!".to_string(), false)]
    );
}

#[test]
fn extracted_names_show_in_the_render() {
    let mut cache = NameCache::new();
    cache.insert("11111111-2222-3333-4444-555555555555".to_string(), "alice".to_string());
    let body = "hi <@11111111-2222-3333-4444-555555555555>old</@> and <@aaaaaaaa-bbbb-cccc-dddd-eeeeeeeeeeee>bob</@> <@broken";
    let names = extract_mentioned_names(body, &cache);
    let shown = render_body(body, &cache);
    assert_eq!(names, vec!["alice".to_string(), "bob".to_string()]);
    for n in &names {
        assert!(!n.is_empty());
        assert!(shown.contains(&format!("@{}", n)));
    }
    assert!(extract_mentioned_names("no tags here", &cache).is_empty());
}

#[test]
fn no_more_names_than_tags() {
    let cache = NameCache::new();
    let body = "<@ <@11111111-2222-3333-4444-555555555555>ann</@> <@x";
    let names = extract_mentioned_names(body, &cache);
    assert!(names.len() <= body.matches("<@").count());
    assert_eq!(names, vec!["ann".to_string()]);
}
