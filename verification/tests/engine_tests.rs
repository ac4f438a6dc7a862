use crawler_template::dom::Document;
use crawler_template::script::CrawlerScript;
use crawler_template::template::{RawNode, Template};
use crawler_template::vars::VarStore;
use crawler_template::CrawlerErr;

fn node(script: &str) -> RawNode {
    RawNode::leaf(script.to_string())
}

fn request_node(script: &str, children: Vec<(String, RawNode)>) -> RawNode {
    RawNode { script: script.to_string(), request: true, children }
}

fn values_of(vars: &VarStore, name: &str) -> Option<Vec<String>> {
    vars.get(name).cloned()
}

#[test]
fn test_single_page_extract() {
    let template = Template::load(
        "http://host/p".to_string(),
        None,
        vec![("title".to_string(), node("selector(\"h1\").val()"))],
        vec![],
    )
    .unwrap();
    let mut session = template.start_session(vec![]).unwrap();
    assert_eq!(session.next_url(), Some("http://host/p".to_string()));
    session.provide_document("<html><body><h1>X</h1></body></html>").unwrap();
    assert!(session.done());
    assert_eq!(values_of(session.variables(), "title"), Some(vec!["X".to_string()]));
}

#[test]
fn test_two_stage_follow() {
    let template = Template::load(
        "http://host/s?q=${q}".to_string(),
        None,
        vec![(
            "detail_url".to_string(),
            request_node(
                "selector(\"a.detail\").attr(\"href\")",
                vec![("name".to_string(), node("selector(\"h1\").val()"))],
            ),
        )],
        vec![],
    )
    .unwrap();
    let mut session = template
        .start_session(vec![("q".to_string(), "TEST-001".to_string())])
        .unwrap();
    assert_eq!(session.next_url(), Some("http://host/s?q=TEST-001".to_string()));
    session
        .provide_document("<html><body><a class=\"detail\" href=\"/d/1\">go</a></body></html>")
        .unwrap();
    assert_eq!(session.next_url(), Some("/d/1".to_string()));
    session.provide_document("<html><body><h1>Hello</h1></body></html>").unwrap();
    assert!(session.done());
    assert_eq!(
        values_of(session.variables(), "detail_url"),
        Some(vec!["/d/1".to_string()])
    );
    assert_eq!(values_of(session.variables(), "name"), Some(vec!["Hello".to_string()]));
}

#[test]
fn test_multi_value_append() {
    let template = Template::load(
        "http://host/p".to_string(),
        None,
        vec![("tags".to_string(), node("selector(\"span.tag\").val()"))],
        vec![],
    )
    .unwrap();
    let mut session = template.start_session(vec![]).unwrap();
    session
        .provide_document(
            "<html><body><span class=\"tag\">A</span><span class=\"tag\">B</span><span class=\"tag\">C</span></body></html>",
        )
        .unwrap();
    assert_eq!(
        values_of(session.variables(), "tags"),
        Some(vec!["A".to_string(), "B".to_string(), "C".to_string()])
    );
}

#[test]
fn test_dynamic_parameter_prefix() {
    let template = Template::load(
        "http://host/p".to_string(),
        None,
        vec![
            (
                "base".to_string(),
                node("selector(\"meta.base\").attr(\"content\")"),
            ),
            (
                "link".to_string(),
                node("selector(\"a\").attr(\"href\").prepend(${base})"),
            ),
        ],
        vec![],
    )
    .unwrap();
    let mut session = template.start_session(vec![]).unwrap();
    session
        .provide_document(
            "<html><body><meta class=\"base\" content=\"http://cdn\"><a href=\"/x\">x</a><a href=\"/y\">y</a></body></html>",
        )
        .unwrap();
    assert_eq!(
        values_of(session.variables(), "link"),
        Some(vec!["http://cdn/x".to_string(), "http://cdn/y".to_string()])
    );
}

#[test]
fn test_soft_miss_does_not_error() {
    let template = Template::load(
        "http://host/p".to_string(),
        None,
        vec![("maybe".to_string(), node("selector(\".missing\").val()"))],
        vec![],
    )
    .unwrap();
    let mut session = template.start_session(vec![]).unwrap();
    session
        .provide_document("<html><body><p>nothing to see</p></body></html>")
        .unwrap();
    assert!(session.done());
    let maybe = values_of(session.variables(), "maybe");
    assert!(maybe.is_none() || maybe == Some(vec![]));
}

#[test]
fn test_regex_replace_chain() {
    let script = CrawlerScript::new(
        "regex_replace(\"^\\s*\\[[^\\]]*\\]\\s*\", \"\").regex_replace(\"\\s+$\", \"\")",
        true,
    )
    .unwrap();
    let vars = VarStore::new();
    let out = script.get_text_value("  [HD] Title 2024  ", &vars).unwrap();
    assert_eq!(out, "Title 2024");
}

#[test]
fn test_parent_overflow_reports_counts() {
    let doc = Document::parse("<html><body><div>x</div></body></html>");
    let vars = VarStore::new();
    let script = CrawlerScript::new("selector(\"div\").parent(3)", false).unwrap();
    let result = script.get_elements(&doc, &vec![0], &vars);
    assert!(matches!(result, Err(CrawlerErr::ParentNodeOverflow(3, 2))));
}

#[test]
fn test_prev_overflow_on_first_child() {
    let doc = Document::parse("<html><body><span>first</span><span>second</span></body></html>");
    let vars = VarStore::new();
    // the first span has no earlier element sibling, so prev(1) overflows there
    let script = CrawlerScript::new("selector(\"span\").prev(1)", false).unwrap();
    let result = script.get_elements(&doc, &vec![0], &vars);
    assert!(matches!(result, Err(CrawlerErr::PrevNodeOverflow(1, 0))));
}

#[test]
fn test_nth_moves_to_following_sibling() {
    let doc = Document::parse("<html><body><b>one</b><i>two</i></body></html>");
    let vars = VarStore::new();
    let script = CrawlerScript::new("selector(\"b\").nth(1).val()", false).unwrap();
    let values = script.get_values(&doc, &vec![0], &vars).unwrap();
    assert_eq!(values, vec!["two".to_string()]);
    // the last element has no following sibling, so nth(1) overflows there
    let over = CrawlerScript::new("selector(\"i\").nth(1)", false).unwrap();
    let result = over.get_elements(&doc, &vec![0], &vars);
    assert!(matches!(result, Err(CrawlerErr::PrevNodeOverflow(1, 0))));
}

#[test]
fn test_regex_extract_no_match_is_empty() {
    let script = CrawlerScript::new("regex_extract(\"z+\")", true).unwrap();
    let vars = VarStore::new();
    let out = script.get_text_value("abc", &vars).unwrap();
    assert_eq!(out, "");
}

#[test]
fn test_attr_missing_is_empty_string() {
    let doc = Document::parse("<html><body><h1 id=\"t\">X</h1></body></html>");
    let vars = VarStore::new();
    let script = CrawlerScript::new("selector(\"h1\").attr(\"nonexistent\")", false).unwrap();
    let values = script.get_values(&doc, &vec![0], &vars).unwrap();
    assert_eq!(values, vec!["".to_string()]);
}

#[test]
fn test_duplicate_keys_rejected() {
    let result = Template::load(
        "http://host/p".to_string(),
        None,
        vec![
            (
                "outer".to_string(),
                RawNode {
                    script: "selector(\"div\")".to_string(),
                    request: false,
                    children: vec![("title".to_string(), node("selector(\"h1\").val()"))],
                },
            ),
            ("title".to_string(), node("selector(\"h2\").val()")),
        ],
        vec![],
    );
    assert!(matches!(result, Err(CrawlerErr::DuplicateKey(name)) if name == "title"));
}

#[test]
fn test_value_node_with_children_needs_request() {
    let result = Template::load(
        "http://host/p".to_string(),
        None,
        vec![(
            "bad".to_string(),
            RawNode {
                script: "selector(\"a\").attr(\"href\")".to_string(),
                request: false,
                children: vec![("child".to_string(), node("selector(\"h1\").val()"))],
            },
        )],
        vec![],
    );
    assert!(matches!(result, Err(CrawlerErr::RootElementAccessNotAllowed(name)) if name == "bad"));
}

#[test]
fn test_multi_valued_entry_parameter_rejected() {
    let template = Template::load(
        "http://host/p?q=${q}".to_string(),
        None,
        vec![("title".to_string(), node("selector(\"h1\").val()"))],
        vec![("q".to_string(), vec!["one".to_string(), "two".to_string()])],
    )
    .unwrap();
    let result = template.start_session(vec![]);
    assert!(
        matches!(result, Err(CrawlerErr::MultipleEntrypointParameterError(name)) if name == "q")
    );
}

#[test]
fn test_uppercase_twice_equals_once() {
    let vars = VarStore::new();
    let once = CrawlerScript::new("uppercase()", true).unwrap();
    let twice = CrawlerScript::new("uppercase().uppercase()", true).unwrap();
    let input = "mixed Case 123";
    assert_eq!(
        once.get_text_value(input, &vars).unwrap(),
        twice.get_text_value(input, &vars).unwrap()
    );
    assert_eq!(once.get_text_value(input, &vars).unwrap(), "MIXED CASE 123");
}

#[test]
fn test_replace_same_is_identity() {
    let vars = VarStore::new();
    let script = CrawlerScript::new("replace(\"ab\", \"ab\")", true).unwrap();
    let input = "xxabxxabx";
    assert_eq!(script.get_text_value(input, &vars).unwrap(), input);
}

#[test]
fn test_entry_text_script_post_processing() {
    let template = Template::load(
        "HTTP://HOST/P".to_string(),
        Some("lowercase()".to_string()),
        vec![("title".to_string(), node("selector(\"h1\").val()"))],
        vec![],
    )
    .unwrap();
    let session = template.start_session(vec![]).unwrap();
    assert_eq!(session.next_url(), Some("http://host/p".to_string()));
}

#[test]
fn test_equals_filter_and_delete() {
    let doc = Document::parse(
        "<html><body><b>keep</b><b>drop</b><b>keep</b></body></html>",
    );
    let vars = VarStore::new();
    let script = CrawlerScript::new(
        "selector(\"b\").val().equals(\"keep\")",
        false,
    )
    .unwrap();
    let values = script.get_values(&doc, &vec![0], &vars).unwrap();
    assert_eq!(values, vec!["keep".to_string(), "keep".to_string()]);

    let del = CrawlerScript::new("delete(\"l\")", true).unwrap();
    assert_eq!(del.get_text_value("hello world", &vars).unwrap(), "heo word");
}

#[test]
fn test_insert_and_append_and_prepend() {
    let vars = VarStore::new();
    let script = CrawlerScript::new(
        "insert(2, \"-\").prepend(\"<\").append(\">\")",
        true,
    )
    .unwrap();
    assert_eq!(script.get_text_value("abcd", &vars).unwrap(), "<ab-cd>");
}

#[test]
fn test_dyn_errors_at_use_time() {
    let vars = VarStore::new();
    let script = CrawlerScript::new("append(${missing})", true).unwrap();
    let r = script.get_text_value("x", &vars);
    assert!(matches!(r, Err(CrawlerErr::DynNotYetInitialised(name)) if name == "missing"));

    let mut vars2 = VarStore::new();
    vars2.set("v", vec![]);
    let script2 = CrawlerScript::new("append(${v})", true).unwrap();
    assert!(matches!(
        script2.get_text_value("x", &vars2),
        Err(CrawlerErr::DynNoValidData(name)) if name == "v"
    ));

    let mut vars3 = VarStore::new();
    vars3.set("v", vec!["a".to_string(), "b".to_string()]);
    assert!(matches!(
        script2.get_text_value("x", &vars3),
        Err(CrawlerErr::DynMultipleResults(name)) if name == "v"
    ));
}

#[test]
fn test_bad_regex_is_an_error() {
    let vars = VarStore::new();
    let script = CrawlerScript::new("regex_extract(\"(\")", true).unwrap();
    assert!(matches!(
        script.get_text_value("x", &vars),
        Err(CrawlerErr::RegexParseError(_))
    ));
}

#[test]
fn test_html_accessor_outer_html() {
    let doc = Document::parse("<html><body><p id=\"a\">hi</p></body></html>");
    let vars = VarStore::new();
    let script = CrawlerScript::new("selector(\"p\").html()", false).unwrap();
    let values = script.get_values(&doc, &vec![0], &vars).unwrap();
    assert_eq!(values, vec!["<p id=\"a\">hi</p>".to_string()]);
}

#[test]
fn test_determinism_same_inputs_same_outputs() {
    let body = "<html><body><h1>X</h1><span class=\"tag\">A</span><span class=\"tag\">B</span></body></html>";
    let make = || {
        Template::load(
            "http://host/p".to_string(),
            None,
            vec![
                ("title".to_string(), node("selector(\"h1\").val()")),
                ("tags".to_string(), node("selector(\"span.tag\").val()")),
            ],
            vec![],
        )
        .unwrap()
    };
    let mut s1 = make().start_session(vec![]).unwrap();
    let mut s2 = make().start_session(vec![]).unwrap();
    s1.provide_document(body).unwrap();
    s2.provide_document(body).unwrap();
    assert_eq!(values_of(s1.variables(), "title"), values_of(s2.variables(), "title"));
    assert_eq!(values_of(s1.variables(), "tags"), values_of(s2.variables(), "tags"));
    assert_eq!(s1.variables().names(), s2.variables().names());
}

#[test]
fn test_regex_match_filter() {
    let doc = Document::parse(
        "<html><body><b>alpha1</b><b>beta</b><b>alpha2</b></body></html>",
    );
    let vars = VarStore::new();
    let script = CrawlerScript::new(
        "selector(\"b\").val().regex_match(\"^alpha\")",
        false,
    )
    .unwrap();
    let values = script.get_values(&doc, &vec![0], &vars).unwrap();
    assert_eq!(values, vec!["alpha1".to_string(), "alpha2".to_string()]);
}

#[test]
fn test_invalid_selector_is_an_error() {
    let doc = Document::parse("<html><body><p>x</p></body></html>");
    let vars = VarStore::new();
    let script = CrawlerScript::new("selector(\"p[\")", false).unwrap();
    let result = script.get_elements(&doc, &vec![0], &vars);
    assert!(matches!(result, Err(CrawlerErr::SelectorError(_))));
}

#[test]
fn test_lowercase_and_uppercase_transform() {
    let vars = VarStore::new();
    let lower = CrawlerScript::new("lowercase()", true).unwrap();
    assert_eq!(lower.get_text_value("AbC-9", &vars).unwrap(), "abc-9");
    let upper = CrawlerScript::new("uppercase()", true).unwrap();
    assert_eq!(upper.get_text_value("AbC-9", &vars).unwrap(), "ABC-9");
}

#[test]
fn test_get_all_fields_lists_value_nodes() {
    let template = Template::load(
        "http://host/p".to_string(),
        None,
        vec![
            (
                "outer".to_string(),
                RawNode {
                    script: "selector(\"div\")".to_string(),
                    request: false,
                    children: vec![
                        ("title".to_string(), node("selector(\"h1\").val()")),
                        ("tags".to_string(), node("selector(\"span\").val()")),
                    ],
                },
            ),
            ("plain".to_string(), node("selector(\"a\").attr(\"href\")")),
        ],
        vec![],
    )
    .unwrap();
    let fields = template.workflows[0].get_all_fields();
    assert_eq!(
        fields,
        vec!["title".to_string(), "tags".to_string(), "plain".to_string()]
    );
}
