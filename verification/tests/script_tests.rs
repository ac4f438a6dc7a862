use crawler_template::script::{Command, CrawlerScript, Param, ScriptMode};
use crawler_template::CrawlerErr;

#[test]
fn test_new_element_access_selector() {
    let script = r#"selector("div.content")"#;
    let crawler_script = CrawlerScript::new(script, false).unwrap();

    assert!(matches!(crawler_script.rule, ScriptMode::Element));
    assert_eq!(crawler_script.commands.len(), 1);

    match &crawler_script.commands[0] {
        Command::Selector(Param::StaticStr(selector_str)) => {
            assert_eq!(selector_str, "div.content");
        }
        _ => panic!("Unexpected command type"),
    }
}

#[test]
fn test_new_element_access_with_multiple_commands() {
    let script = r#"selector("div.content").parent(1).attr("href")"#;
    let crawler_script = CrawlerScript::new(script, false).unwrap();

    assert!(matches!(crawler_script.rule, ScriptMode::Value));
    assert_eq!(crawler_script.commands.len(), 3);

    match &crawler_script.commands[0] {
        Command::Selector(Param::StaticStr(selector_str)) => {
            assert_eq!(selector_str, "div.content");
        }
        _ => panic!("Unexpected first command type"),
    }

    match &crawler_script.commands[1] {
        Command::Parent(index) => {
            assert_eq!(*index, 1);
        }
        _ => panic!("Unexpected second command type"),
    }

    match &crawler_script.commands[2] {
        Command::Attr(Param::StaticStr(param)) => {
            assert_eq!(param, "href");
        }
        _ => panic!("Unexpected third command type"),
    }
}

#[test]
fn test_new_value_access() {
    let script = r#"selector("div.content").val().uppercase()"#;
    let crawler_script = CrawlerScript::new(script, false).unwrap();

    assert!(matches!(crawler_script.rule, ScriptMode::Value));
    assert_eq!(crawler_script.commands.len(), 3);

    match &crawler_script.commands[0] {
        Command::Selector(Param::StaticStr(selector_str)) => {
            assert_eq!(selector_str, "div.content");
        }
        _ => panic!("Unexpected first command type"),
    }

    match &crawler_script.commands[1] {
        Command::Val => {}
        _ => panic!("Unexpected second command type"),
    }

    match &crawler_script.commands[2] {
        Command::Uppercase => {}
        _ => panic!("Unexpected third command type"),
    }
}

#[test]
fn test_new_text_access() {
    let script = r#"replace("old", "new").uppercase()"#;
    let crawler_script = CrawlerScript::new(script, true).unwrap();

    assert!(matches!(crawler_script.rule, ScriptMode::Text));
    assert_eq!(crawler_script.commands.len(), 2);

    match &crawler_script.commands[0] {
        Command::Replace(Param::StaticStr(from), Param::StaticStr(to)) => {
            assert_eq!(from, "old");
            assert_eq!(to, "new");
        }
        _ => panic!("Unexpected first command type"),
    }

    match &crawler_script.commands[1] {
        Command::Uppercase => {}
        _ => panic!("Unexpected second command type"),
    }
}

#[test]
fn test_new_invalid_text_script_for_element_access() {
    let script = r#"replace("old", "new")"#;
    let result = CrawlerScript::new(script, false);

    assert!(matches!(result, Err(CrawlerErr::CharProcessAlone)));
}

#[test]
fn test_new_complex_access_with_conditions() {
    let script = r#"selector("div.content").html().replace("old", "new").equals("result")"#;
    let crawler_script = CrawlerScript::new(script, false).unwrap();

    assert!(matches!(crawler_script.rule, ScriptMode::Value));
    assert_eq!(crawler_script.commands.len(), 4);

    match &crawler_script.commands[0] {
        Command::Selector(Param::StaticStr(selector_str)) => {
            assert_eq!(selector_str, "div.content");
        }
        _ => panic!("Unexpected first command type"),
    }

    match &crawler_script.commands[1] {
        Command::Html => {}
        _ => panic!("Unexpected second command type"),
    }

    match &crawler_script.commands[2] {
        Command::Replace(Param::StaticStr(from), Param::StaticStr(to)) => {
            assert_eq!(from, "old");
            assert_eq!(to, "new");
        }
        _ => panic!("Unexpected third command type"),
    }

    match &crawler_script.commands[3] {
        Command::Equals(Param::StaticStr(param)) => {
            assert_eq!(param, "result");
        }
        _ => panic!("Unexpected fourth command type"),
    }
}

#[test]
fn test_canonical_round_trip() {
    let script = r#"selector("div.video > a").attr("href").regex_replace("^\s+", "").prepend(${base})"#;
    let parsed = CrawlerScript::new(script, false).unwrap();
    let canon = parsed.to_script_string().expect("canonical text must re-parse");
    let back = CrawlerScript::new(canon.as_str(), false).unwrap();
    assert_eq!(back.commands.len(), parsed.commands.len());
    let canon2 = back.to_script_string().expect("canonical text must re-parse");
    assert_eq!(canon, canon2);
}

#[test]
fn test_canonical_round_trip_text_script() {
    let script = r#"replace("a", "b").insert(3, "x").lowercase()"#;
    let parsed = CrawlerScript::new(script, true).unwrap();
    let canon = parsed.to_script_string().expect("canonical text must re-parse");
    assert_eq!(canon, r#"replace("a","b").insert(3,"x").lowercase()"#);
}

#[test]
fn test_parse_rejects_garbage() {
    assert!(CrawlerScript::new("selector(", false).is_err());
    assert!(CrawlerScript::new("", false).is_err());
    assert!(CrawlerScript::new("unknown(\"x\")", false).is_err());
    assert!(CrawlerScript::new("selector(\"a\").", false).is_err());
    // an accessor may not come first
    assert!(CrawlerScript::new("val()", false).is_err());
    // a selector may not follow an accessor
    assert!(CrawlerScript::new("selector(\"a\").val().selector(\"b\")", false).is_err());
}
