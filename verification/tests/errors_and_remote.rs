use jsonld_context::{
    Context, DocumentLoader, JsonLdError, JsonLdOptions, JsonValue, RemoteDocument,
};

fn s(x: &str) -> JsonValue {
    JsonValue::Str(String::from(x))
}

fn obj(entries: Vec<(&str, JsonValue)>) -> JsonValue {
    JsonValue::Object(entries.into_iter().map(|(k, v)| (String::from(k), v)).collect())
}

struct NoLoader;

impl DocumentLoader for NoLoader {
    fn load(&mut self, _url: &String) -> Result<RemoteDocument, JsonLdError> {
        Err(JsonLdError::LoadingRemoteContextFailed)
    }
}

fn run(ctx: Context, fragment: JsonValue) -> Result<Context, JsonLdError> {
    ctx.process(fragment, Vec::new(), &mut NoLoader)
}

fn err_of(fragment: JsonValue) -> JsonLdError {
    run(Context::new(), fragment).err().unwrap()
}

#[test]
fn options_base_validated() {
    let good = JsonLdOptions {
        base: Some(String::from("HTTP://EXAMPLE.com/a/b")),
        compact_arrays: true,
        expand_context: None,
        processing_mode: None,
    };
    let ctx = Context::from_options(good).unwrap();
    // the parse normalizes scheme and host
    assert_eq!(ctx.base().map(|b| b.as_str()), Some("http://example.com/a/b"));

    let bad = JsonLdOptions {
        base: Some(String::from("not an absolute identifier")),
        compact_arrays: true,
        expand_context: None,
        processing_mode: None,
    };
    assert_eq!(
        Context::from_options(bad).err(),
        Some(JsonLdError::InvalidBaseIRI)
    );

    let none = JsonLdOptions {
        base: None,
        compact_arrays: false,
        expand_context: None,
        processing_mode: None,
    };
    assert!(Context::from_options(none).unwrap().base().is_none());
}

#[test]
fn base_directive_shapes() {
    // absolute replaces, normalized by the parse
    let ctx = run(Context::new(), obj(vec![("@base", s("HTTP://EXAMPLE.com/x"))])).unwrap();
    assert_eq!(ctx.base().map(|b| b.as_str()), Some("http://example.com/x"));

    // relative resolves against the current base
    let ctx2 = Context::from_base(Some(String::from("http://example.com/a/b/")));
    let ctx2 = run(ctx2, obj(vec![("@base", s("child/doc"))])).unwrap();
    assert_eq!(
        ctx2.base().map(|b| b.as_str()),
        Some("http://example.com/a/b/child/doc")
    );

    // relative without a current base is ignored
    let ctx3 = run(Context::new(), obj(vec![("@base", s("child/doc"))])).unwrap();
    assert!(ctx3.base().is_none());

    // null clears
    let ctx4 = Context::from_base(Some(String::from("http://example.com/")));
    let ctx4 = run(ctx4, obj(vec![("@base", JsonValue::Null)])).unwrap();
    assert!(ctx4.base().is_none());

    // anything else is invalid
    assert_eq!(
        err_of(obj(vec![("@base", JsonValue::Bool(true))])),
        JsonLdError::InvalidBaseIRI
    );
}

#[test]
fn vocab_directive_errors() {
    assert_eq!(
        err_of(obj(vec![("@vocab", s("relative"))])),
        JsonLdError::InvalidVocabMapping
    );
    assert_eq!(
        err_of(obj(vec![("@vocab", JsonValue::Number)])),
        JsonLdError::InvalidVocabMapping
    );
    let cleared = run(
        Context::new(),
        JsonValue::Array(vec![
            obj(vec![("@vocab", s("http://example.com/"))]),
            obj(vec![("@vocab", JsonValue::Null)]),
        ]),
    )
    .unwrap();
    assert!(cleared.vocab().is_none());
}

#[test]
fn language_directive_errors() {
    assert_eq!(
        err_of(obj(vec![("@language", JsonValue::Number)])),
        JsonLdError::InvalidDefaultLanguage
    );
    let cleared = run(
        Context::new(),
        JsonValue::Array(vec![
            obj(vec![("@language", s("en"))]),
            obj(vec![("@language", JsonValue::Null)]),
        ]),
    )
    .unwrap();
    assert!(cleared.default_language().is_none());
}

#[test]
fn invalid_local_context_shapes() {
    assert_eq!(err_of(JsonValue::Bool(false)), JsonLdError::InvalidLocalContext);
    assert_eq!(err_of(JsonValue::Number), JsonLdError::InvalidLocalContext);
    // an array nested inside an array is no fragment
    assert_eq!(
        err_of(JsonValue::Array(vec![JsonValue::Array(vec![])])),
        JsonLdError::InvalidLocalContext
    );
}

#[test]
fn invalid_term_definitions() {
    assert_eq!(
        err_of(obj(vec![("a", JsonValue::Number)])),
        JsonLdError::InvalidTermDefinition
    );
    assert_eq!(
        err_of(obj(vec![(
            "a",
            obj(vec![("@id", s("http://x.example/a")), ("@language", JsonValue::Number)]),
        )])),
        JsonLdError::InvalidTermDefinition
    );
    assert_eq!(
        err_of(obj(vec![(
            "a",
            obj(vec![("@id", s("http://x.example/a")), ("@container", s("@nonsense"))]),
        )])),
        JsonLdError::InvalidTermDefinition
    );
}

#[test]
fn invalid_type_mappings() {
    assert_eq!(
        err_of(obj(vec![("a", obj(vec![("@type", JsonValue::Number)]))])),
        JsonLdError::InvalidTypeMapping
    );
    // no vocabulary, so the type value cannot resolve to an absolute identifier
    assert_eq!(
        err_of(obj(vec![("a", obj(vec![("@type", s("relative"))]))])),
        JsonLdError::InvalidTypeMapping
    );
}

#[test]
fn invalid_reverse_properties() {
    assert_eq!(
        err_of(obj(vec![(
            "r",
            obj(vec![("@reverse", s("http://x.example/p")), ("@id", s("http://x.example/q"))]),
        )])),
        JsonLdError::InvalidReverseProperty
    );
    assert_eq!(
        err_of(obj(vec![(
            "r",
            obj(vec![("@reverse", s("http://x.example/p")), ("@container", s("@list"))]),
        )])),
        JsonLdError::InvalidReverseProperty
    );
}

#[test]
fn invalid_identifier_mappings() {
    assert_eq!(
        err_of(obj(vec![("a", obj(vec![("@id", JsonValue::Number)]))])),
        JsonLdError::InvalidIdentifierMapping
    );
    // a bare term with no vocabulary has nothing to map it to
    assert_eq!(
        err_of(obj(vec![("name", obj(vec![]))])),
        JsonLdError::InvalidIdentifierMapping
    );
    // a reverse value that stays relative
    assert_eq!(
        err_of(obj(vec![("r", obj(vec![("@reverse", s("relative"))]))])),
        JsonLdError::InvalidIdentifierMapping
    );
    // an @id value that stays relative
    assert_eq!(
        err_of(obj(vec![("a", obj(vec![("@id", s("relative"))]))])),
        JsonLdError::InvalidIdentifierMapping
    );
}

struct OneDocLoader {
    url: String,
    document: Option<JsonValue>,
    calls: usize,
}

impl DocumentLoader for OneDocLoader {
    fn load(&mut self, url: &String) -> Result<RemoteDocument, JsonLdError> {
        self.calls += 1;
        if url == &self.url {
            match self.document.take() {
                Some(document) => Ok(RemoteDocument {
                    document,
                    document_url: url.clone(),
                    context_url: None,
                }),
                None => Err(JsonLdError::LoadingRemoteContextFailed),
            }
        } else {
            Err(JsonLdError::LoadingRemoteContextFailed)
        }
    }
}

#[test]
fn remote_context_loaded() {
    let mut loader = OneDocLoader {
        url: String::from("http://remote.example/ctx"),
        document: Some(obj(vec![(
            "@context",
            obj(vec![("t", obj(vec![("@id", s("http://x.example/t"))]))]),
        )])),
        calls: 0,
    };
    let ctx = Context::new()
        .process(s("http://remote.example/ctx"), Vec::new(), &mut loader)
        .unwrap();
    assert_eq!(loader.calls, 1);
    assert_eq!(
        ctx.term("t").unwrap().iri_mapping.as_deref(),
        Some("http://x.example/t")
    );
}

#[test]
fn remote_base_directive_ignored() {
    let mut loader = OneDocLoader {
        url: String::from("http://remote.example/ctx"),
        document: Some(obj(vec![(
            "@context",
            obj(vec![("@base", s("http://other.example/"))]),
        )])),
        calls: 0,
    };
    let ctx = Context::new()
        .process(s("http://remote.example/ctx"), Vec::new(), &mut loader)
        .unwrap();
    assert!(ctx.base().is_none());
}

#[test]
fn remote_inclusion_cycle_rejected() {
    let mut loader = OneDocLoader {
        url: String::from("http://remote.example/ctx"),
        document: Some(obj(vec![("@context", obj(vec![]))])),
        calls: 0,
    };
    let r = Context::new().process(
        s("http://remote.example/ctx"),
        vec![String::from("http://remote.example/ctx")],
        &mut loader,
    );
    assert_eq!(r.err(), Some(JsonLdError::RecursiveContextInclusion));
    assert_eq!(loader.calls, 0);
}

#[test]
fn remote_loader_failure_propagates() {
    let r = Context::new().process(s("http://remote.example/missing"), Vec::new(), &mut NoLoader);
    assert_eq!(r.err(), Some(JsonLdError::LoadingRemoteContextFailed));
}

#[test]
fn remote_document_without_context_rejected() {
    let mut loader = OneDocLoader {
        url: String::from("http://remote.example/ctx"),
        document: Some(obj(vec![("unrelated", s("x"))])),
        calls: 0,
    };
    let r = Context::new().process(s("http://remote.example/ctx"), Vec::new(), &mut loader);
    assert_eq!(r.err(), Some(JsonLdError::InvalidLocalContext));
}
