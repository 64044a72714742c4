use tali::interpolate::{interpolate, mask_secrets, InterpolateError};

#[test]
fn interpolates_inputs() {
    let values = vec![
        ("name".to_string(), "tali".to_string()),
        ("mode".to_string(), "safe".to_string()),
    ];
    assert_eq!(interpolate("hello {{ name }} in {{mode}}", &values).unwrap(), "hello tali in safe");
}

#[test]
fn masks_secret_values() {
    assert_eq!(
        mask_secrets("token abc123 appears twice abc123", &["abc123".to_string()]),
        "token ******** appears twice ********"
    );
}

#[test]
fn interpolation_errors() {
    let values = vec![("a".to_string(), "1".to_string())];
    assert_eq!(interpolate("x {{ a", &values), Err(InterpolateError::Unterminated));
    assert_eq!(interpolate("x {{  }} y", &values), Err(InterpolateError::EmptyExpression));
    assert_eq!(interpolate("{{b}}", &values), Err(InterpolateError::MissingValue("b".to_string())));
    assert_eq!(interpolate("no placeholders", &values).unwrap(), "no placeholders");
}

#[test]
fn empty_secrets_are_not_masked() {
    assert_eq!(mask_secrets("abc", &["".to_string()]), "abc");
    assert_eq!(mask_secrets("aaa", &["aa".to_string()]), "********a");
}

#[test]
fn masking_twice_changes_nothing_more() {
    let secrets = vec!["abc".to_string(), "bca".to_string(), String::new(), "c1".to_string()];
    for t in ["abcabca", "xx abc1 bcab c1c1", "", "bcabc"].iter() {
        let once = mask_secrets(t, &secrets);
        assert_eq!(mask_secrets(&once, &secrets), once);
        for s in secrets.iter().filter(|s| !s.is_empty()) {
            assert!(!once.contains(s.as_str()));
        }
    }
    assert_eq!(mask_secrets("a b", &[String::new()]), "a b");
}
