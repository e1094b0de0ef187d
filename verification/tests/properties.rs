use jsonld_context::{Context, JsonLdError, JsonValue, LanguageMapping};

fn s(x: &str) -> JsonValue {
    JsonValue::Str(String::from(x))
}

fn obj(entries: Vec<(&str, JsonValue)>) -> JsonValue {
    JsonValue::Object(entries.into_iter().map(|(k, v)| (String::from(k), v)).collect())
}

struct NoLoader;

impl jsonld_context::DocumentLoader for NoLoader {
    fn load(
        &mut self,
        _url: &String,
    ) -> Result<jsonld_context::RemoteDocument, JsonLdError> {
        Err(JsonLdError::LoadingRemoteContextFailed)
    }
}

fn run(ctx: Context, fragment: JsonValue) -> Result<Context, JsonLdError> {
    ctx.process(fragment, Vec::new(), &mut NoLoader)
}

#[test]
fn idempotent_reprocessing() {
    let frag = || {
        obj(vec![
            ("@vocab", s("http://example.com/")),
            ("name", obj(vec![])),
            ("foaf", s("http://xmlns.com/foaf/0.1/")),
        ])
    };
    let once = run(Context::new(), frag()).unwrap();
    let twice = run(run(Context::new(), frag()).unwrap(), frag()).unwrap();
    assert_eq!(once.base(), twice.base());
    assert_eq!(once.vocab(), twice.vocab());
    assert_eq!(once.default_language(), twice.default_language());
    assert_eq!(once.term_count(), twice.term_count());
    assert_eq!(once.term("name"), twice.term("name"));
    assert_eq!(once.term("foaf"), twice.term("foaf"));
}

#[test]
fn cycle_between_two_terms() {
    let frag = obj(vec![
        ("a", obj(vec![("@id", s("b"))])),
        ("b", obj(vec![("@id", s("a:x"))])),
    ]);
    let r = run(Context::new(), frag);
    assert_eq!(r.err(), Some(JsonLdError::CyclicIdentifierMapping));
}

#[test]
fn cycle_self_prefix() {
    let frag = obj(vec![("a", obj(vec![("@id", s("a:x"))]))]);
    let r = run(Context::new(), frag);
    assert_eq!(r.err(), Some(JsonLdError::CyclicIdentifierMapping));
}

#[test]
fn keyword_redefinition_object_form() {
    let frag = obj(vec![("@type", obj(vec![("@id", s("http://example.com/t"))]))]);
    let r = run(Context::new(), frag);
    assert_eq!(r.err(), Some(JsonLdError::KeywordRedefinition));
}

#[test]
fn keyword_redefinition_string_form() {
    let frag = obj(vec![("@type", s("http://example.com/t"))]);
    let r = run(Context::new(), frag);
    assert_eq!(r.err(), Some(JsonLdError::KeywordRedefinition));
}

#[test]
fn null_reset_keeps_base() {
    let ctx = Context::from_base(Some(String::from("http://example.com/doc")));
    let filled = run(
        ctx,
        obj(vec![
            ("@vocab", s("http://example.com/")),
            ("@language", s("en")),
            ("name", obj(vec![])),
        ]),
    )
    .unwrap();
    assert_eq!(filled.term_count(), 1);
    let reset = run(filled, JsonValue::Null).unwrap();
    assert_eq!(reset.base().map(|b| b.as_str()), Some("http://example.com/doc"));
    assert!(reset.vocab().is_none());
    assert!(reset.default_language().is_none());
    assert_eq!(reset.term_count(), 0);
}

#[test]
fn null_reset_in_fragment_list() {
    let frags = JsonValue::Array(vec![
        obj(vec![("@vocab", s("http://example.com/")), ("name", obj(vec![]))]),
        JsonValue::Null,
    ]);
    let out = run(Context::new(), frags).unwrap();
    assert!(out.vocab().is_none());
    assert_eq!(out.term_count(), 0);
}

#[test]
fn compact_identifier_resolution() {
    let ctx = run(
        Context::new(),
        obj(vec![("foaf", s("http://xmlns.com/foaf/0.1/"))]),
    )
    .unwrap();
    assert!(ctx.vocab().is_none());
    let r = ctx.resolve("foaf:Person", false, false);
    assert_eq!(r.as_deref(), Some("http://xmlns.com/foaf/0.1/Person"));
    let r2 = ctx.resolve("foaf:Person", false, true);
    assert_eq!(r2.as_deref(), Some("http://xmlns.com/foaf/0.1/Person"));
}

#[test]
fn vocabulary_defaulting() {
    let ctx = run(
        Context::new(),
        obj(vec![("@vocab", s("http://example.com/")), ("name", obj(vec![]))]),
    )
    .unwrap();
    let t = ctx.term("name").unwrap();
    assert_eq!(t.iri_mapping.as_deref(), Some("http://example.com/name"));
    assert!(!t.reverse);
    // the resolver completes unknown bare tokens the same way
    assert_eq!(
        ctx.resolve("age", false, true).as_deref(),
        Some("http://example.com/age")
    );
}

#[test]
fn forward_reference() {
    let ctx = run(
        Context::new(),
        obj(vec![
            ("a", obj(vec![("@id", s("b"))])),
            ("b", obj(vec![("@id", s("http://example.com/B"))])),
        ]),
    )
    .unwrap();
    assert_eq!(
        ctx.term("a").unwrap().iri_mapping.as_deref(),
        Some("http://example.com/B")
    );
    assert_eq!(
        ctx.term("b").unwrap().iri_mapping.as_deref(),
        Some("http://example.com/B")
    );
}

#[test]
fn reverse_short_circuit() {
    let ctx = run(
        Context::new(),
        obj(vec![(
            "r",
            obj(vec![
                ("@type", s("http://example.com/T")),
                ("@language", s("en")),
                ("@reverse", s("http://example.com/prop")),
                ("@container", s("@set")),
            ]),
        )]),
    )
    .unwrap();
    let t = ctx.term("r").unwrap();
    assert!(t.reverse);
    assert_eq!(t.iri_mapping.as_deref(), Some("http://example.com/prop"));
    assert!(t.type_mapping.is_none());
    assert!(t.language_mapping.is_none());
    assert_eq!(t.container_mapping.as_deref(), Some("@set"));
}

#[test]
fn term_language_and_container_stored() {
    let ctx = run(
        Context::new(),
        obj(vec![(
            "notes",
            obj(vec![
                ("@id", s("http://example.com/notes")),
                ("@language", JsonValue::Null),
                ("@container", s("@list")),
            ]),
        )]),
    )
    .unwrap();
    let t = ctx.term("notes").unwrap();
    assert_eq!(t.language_mapping, Some(LanguageMapping::Null));
    assert_eq!(t.container_mapping.as_deref(), Some("@list"));
    let ctx2 = run(
        Context::new(),
        obj(vec![(
            "title",
            obj(vec![
                ("@id", s("http://example.com/title")),
                ("@language", s("de")),
            ]),
        )]),
    )
    .unwrap();
    assert_eq!(
        ctx2.term("title").unwrap().language_mapping,
        Some(LanguageMapping::Tag(String::from("de")))
    );
}

#[test]
fn default_language_is_lowercased() {
    let ctx = run(Context::new(), obj(vec![("@language", s("EN-us"))])).unwrap();
    assert_eq!(ctx.default_language().map(|l| l.as_str()), Some("en-us"));
}

#[test]
fn later_fragments_override() {
    let frags = JsonValue::Array(vec![
        obj(vec![
            ("@vocab", s("http://one.example/")),
            ("name", s("http://one.example/name")),
        ]),
        obj(vec![
            ("@vocab", s("http://two.example/")),
            ("name", s("http://two.example/other")),
        ]),
    ]);
    let ctx = run(Context::new(), frags).unwrap();
    assert_eq!(ctx.vocab().map(|v| v.as_str()), Some("http://two.example/"));
    assert_eq!(
        ctx.term("name").unwrap().iri_mapping.as_deref(),
        Some("http://two.example/other")
    );
    assert_eq!(ctx.term_count(), 1);
}

#[test]
fn type_mapping_keywords_and_absolute() {
    let ctx = run(
        Context::new(),
        obj(vec![
            (
                "home",
                obj(vec![("@id", s("http://example.com/home")), ("@type", s("@id"))]),
            ),
            (
                "age",
                obj(vec![
                    ("@id", s("http://example.com/age")),
                    ("@type", s("http://www.w3.org/2001/XMLSchema#integer")),
                ]),
            ),
        ]),
    )
    .unwrap();
    assert_eq!(ctx.term("home").unwrap().type_mapping.as_deref(), Some("@id"));
    assert_eq!(
        ctx.term("age").unwrap().type_mapping.as_deref(),
        Some("http://www.w3.org/2001/XMLSchema#integer")
    );
}

#[test]
fn null_definition_suppresses_vocabulary() {
    let ctx = run(
        Context::new(),
        obj(vec![
            ("@vocab", s("http://example.com/")),
            ("name", obj(vec![])),
            ("gone", JsonValue::Null),
        ]),
    )
    .unwrap();
    let t = ctx.term("gone").unwrap();
    assert!(t.iri_mapping.is_none());
    assert!(!t.reverse);
    assert!(t.type_mapping.is_none());
    // intentionally undefined: the resolver answers no mapping at all,
    // where an absent term would be completed against the vocabulary
    assert_eq!(ctx.resolve("gone", false, true), None);
    assert_eq!(
        ctx.resolve("other", false, true).as_deref(),
        Some("http://example.com/other")
    );
}

#[test]
fn empty_fragments_change_nothing() {
    let ctx = Context::from_base(Some(String::from("http://example.com/")));
    let out = run(ctx, obj(vec![])).unwrap();
    assert_eq!(out.base().map(|b| b.as_str()), Some("http://example.com/"));
    assert_eq!(out.term_count(), 0);
    let out2 = run(out, JsonValue::Array(vec![])).unwrap();
    assert_eq!(out2.base().map(|b| b.as_str()), Some("http://example.com/"));
}

#[test]
fn id_equal_to_term_counts_as_absent() {
    let ctx = run(
        Context::new(),
        obj(vec![
            ("@vocab", s("http://example.com/")),
            ("name", obj(vec![("@id", s("name"))])),
        ]),
    )
    .unwrap();
    assert_eq!(
        ctx.term("name").unwrap().iri_mapping.as_deref(),
        Some("http://example.com/name")
    );
}

#[test]
fn unexpandable_compact_term_stands_verbatim() {
    let ctx = run(
        Context::new(),
        obj(vec![("urn:example:thing", obj(vec![]))]),
    )
    .unwrap();
    assert_eq!(
        ctx.term("urn:example:thing").unwrap().iri_mapping.as_deref(),
        Some("urn:example:thing")
    );
}

#[test]
fn keyword_predicates() {
    assert!(jsonld_context::is_keyword("@type"));
    assert!(jsonld_context::is_keyword("@base"));
    assert!(!jsonld_context::is_keyword("@frame"));
    assert!(!jsonld_context::is_keyword("type"));
    assert!(jsonld_context::is_absolute_iri("http://example.com/x"));
    assert!(jsonld_context::is_absolute_iri("urn:isbn:123"));
    assert!(!jsonld_context::is_absolute_iri("relative/path"));
    assert!(!jsonld_context::is_absolute_iri("_:blank"));
    assert!(!jsonld_context::is_absolute_iri(":nocolonprefix"));
    assert!(jsonld_context::is_relative_iri("relative/path"));
    assert!(!jsonld_context::is_relative_iri("http://example.com/"));
}

#[test]
fn resolver_on_keywords_and_blanks() {
    let ctx = Context::new();
    assert_eq!(ctx.resolve("@type", false, true).as_deref(), Some("@type"));
    assert_eq!(ctx.resolve("_:b0", true, true).as_deref(), Some("_:b0"));
    assert_eq!(
        ctx.resolve("http://example.com/a", false, false).as_deref(),
        Some("http://example.com/a")
    );
}

#[test]
fn resolver_document_relative() {
    let ctx = Context::from_base(Some(String::from("http://example.com/dir/doc")));
    assert_eq!(
        ctx.resolve("other", true, false).as_deref(),
        Some("http://example.com/dir/other")
    );
    // without the document-relative flag the token stands unchanged
    assert_eq!(ctx.resolve("other", false, false).as_deref(), Some("other"));
}
