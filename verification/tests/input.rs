use tali::input::{
    prompt_text, resolve_answer, secret_values, strip_line_end, unknown_provided, InputCollector,
    InputRequest,
};
use tali::manifest::InputSpec;

fn input(name: &str, secret: bool, required: bool, default: Option<&str>) -> InputSpec {
    InputSpec {
        name: name.to_string(),
        prompt: format!("{name}?"),
        secret,
        required,
        default: default.map(str::to_string),
    }
}

#[test]
fn secret_values_are_the_nonempty_secret_ones() {
    let inputs = vec![input("token", true, true, None), input("name", false, false, None), input("empty", true, false, None)];
    let values = vec![
        ("name".to_string(), "tali".to_string()),
        ("token".to_string(), "abc".to_string()),
        ("empty".to_string(), "".to_string()),
    ];
    assert_eq!(secret_values(&inputs, &values), vec!["abc".to_string()]);
}

#[test]
fn answers_fall_back_to_defaults() {
    let with_default = input("mode", false, true, Some("safe"));
    assert_eq!(resolve_answer(&with_default, ""), Some("safe".to_string()));
    assert_eq!(resolve_answer(&with_default, "fast"), Some("fast".to_string()));
    let required = input("token", true, true, None);
    assert_eq!(resolve_answer(&required, ""), None);
    let optional = input("note", false, false, None);
    assert_eq!(resolve_answer(&optional, ""), Some(String::new()));
    assert_eq!(prompt_text(&with_default), "mode? [safe]: ");
    assert_eq!(prompt_text(&required), "token?: ");
    assert_eq!(strip_line_end("value\r\n"), "value");
    assert_eq!(strip_line_end("  spaced \n"), "  spaced ");
}

#[test]
fn collector_takes_provided_values_and_asks_for_the_rest() {
    let inputs = vec![input("a", false, false, None), input("b", false, true, None), input("c", false, false, Some("d"))];
    let provided = vec![("a".to_string(), "1".to_string())];
    let mut collector = InputCollector::new();
    assert_eq!(collector.next_request(&inputs, &provided), InputRequest::Ask(1));
    assert!(!collector.answer(&inputs, &provided, ""));
    assert_eq!(collector.next_request(&inputs, &provided), InputRequest::Ask(1));
    assert!(collector.answer(&inputs, &provided, "2"));
    assert_eq!(collector.next_request(&inputs, &provided), InputRequest::Ask(2));
    assert!(collector.answer(&inputs, &provided, ""));
    assert_eq!(collector.next_request(&inputs, &provided), InputRequest::Finished);
    assert_eq!(
        collector.values(),
        &vec![
            ("a".to_string(), "1".to_string()),
            ("b".to_string(), "2".to_string()),
            ("c".to_string(), "d".to_string()),
        ]
    );
}

#[test]
fn refuses_values_for_unknown_inputs() {
    let inputs = vec![input("a", false, false, None)];
    let provided = vec![("a".to_string(), "1".to_string()), ("zz".to_string(), "2".to_string())];
    assert_eq!(unknown_provided(&inputs, &provided), Some("zz".to_string()));
    assert_eq!(unknown_provided(&inputs, &provided[..1]), None);
}
