use scudo::options::compile_options;
use scudo::options::default_options_symbol;
use scudo::options::is_valid_key;
use scudo::options::is_valid_value;
use scudo::options::parse_entry;
use scudo::options::OptionEntry;
use scudo::options::OptionsError;

fn entry(key: &str, value: &str) -> OptionEntry {
    OptionEntry { key: key.as_bytes().to_vec(), value: value.as_bytes().to_vec() }
}

fn main_fn() -> Vec<u8> {
    b"main".to_vec()
}

#[test]
fn test_exact_options_string() {
    let pairs = vec![
        entry("delete_size_mismatch", "false"),
        entry("release_to_os_interval_ms", "-1"),
    ];
    let out = compile_options(&main_fn(), pairs).unwrap();
    let mut expected = b"delete_size_mismatch=false:release_to_os_interval_ms=-1:".to_vec();
    expected.push(0u8);
    assert_eq!(out, expected);
}

#[test]
fn test_single_trailing_nul() {
    let out = compile_options(&main_fn(), vec![entry("quarantine_size_kb", "256")]).unwrap();
    assert_eq!(out.iter().filter(|&&b| b == 0).count(), 1);
    assert_eq!(*out.last().unwrap(), 0u8);
}

#[test]
fn test_empty_option_list_is_just_the_terminator() {
    let out = compile_options(&main_fn(), Vec::new()).unwrap();
    assert_eq!(out, vec![0u8]);
}

#[test]
fn test_malformed_numeric_value_is_refused() {
    let r = compile_options(&main_fn(), vec![entry("foo", "3.14x")]);
    assert_eq!(r, Err(OptionsError::InvalidValue));
    assert_eq!(
        OptionsError::InvalidValue.message(),
        "Expect a valid value like '3.14' or 'true'"
    );
}

#[test]
fn test_non_entry_point_is_refused() {
    let r = compile_options(&b"not_main".to_vec(), vec![entry("invalid", "true")]);
    assert_eq!(r, Err(OptionsError::NotEntryPoint));
    assert_eq!(
        OptionsError::NotEntryPoint.message(),
        "This macro is only allowed to be used on the main method"
    );
}

#[test]
fn test_bare_minus_is_refused() {
    let r = compile_options(&main_fn(), vec![entry("release_to_os_interval_ms", "-")]);
    assert_eq!(r, Err(OptionsError::InvalidValue));
}

#[test]
fn test_negative_values_are_accepted() {
    let out = compile_options(
        &main_fn(),
        vec![entry("release_to_os_interval_ms", "-1"), entry("ratio", "-3.14")],
    )
    .unwrap();
    let mut expected = b"release_to_os_interval_ms=-1:ratio=-3.14:".to_vec();
    expected.push(0u8);
    assert_eq!(out, expected);
}

#[test]
fn test_boolean_values_are_accepted() {
    assert!(is_valid_value(&b"true".to_vec()));
    assert!(is_valid_value(&b"false".to_vec()));
    assert!(!is_valid_value(&b"maybe".to_vec()));
    assert!(!is_valid_value(&b"True".to_vec()));
}

#[test]
fn test_numeric_value_shapes() {
    assert!(is_valid_value(&b"0".to_vec()));
    assert!(is_valid_value(&b"4242".to_vec()));
    assert!(is_valid_value(&b"3.14".to_vec()));
    assert!(!is_valid_value(&b"".to_vec()));
    assert!(!is_valid_value(&b"3.".to_vec()));
    assert!(!is_valid_value(&b".5".to_vec()));
    assert!(!is_valid_value(&b"3.1.4".to_vec()));
    assert!(!is_valid_value(&b"--1".to_vec()));
    assert!(!is_valid_value(&b"- 1".to_vec()));
}

#[test]
fn test_invalid_key_is_refused() {
    let r = compile_options(&main_fn(), vec![entry("3abc", "1")]);
    assert_eq!(r, Err(OptionsError::InvalidKey));
    assert!(!is_valid_key(&b"".to_vec()));
    assert!(!is_valid_key(&b"with-dash".to_vec()));
    assert!(is_valid_key(&b"_quarantine2".to_vec()));
}

#[test]
fn test_first_refusal_wins() {
    let r = compile_options(
        &main_fn(),
        vec![entry("ok_key", "true"), entry("9bad", "3.14x"), entry("later", "oops")],
    );
    assert_eq!(r, Err(OptionsError::InvalidKey));
}

#[test]
fn test_repeated_keys_are_kept_in_order() {
    let out = compile_options(&main_fn(), vec![entry("k", "1"), entry("k", "2")]).unwrap();
    let mut expected = b"k=1:k=2:".to_vec();
    expected.push(0u8);
    assert_eq!(out, expected);
}

#[test]
fn test_parse_entry_keeps_the_pair() {
    let e = parse_entry(b"delete_size_mismatch".to_vec(), b"false".to_vec()).unwrap();
    assert_eq!(e.key, b"delete_size_mismatch".to_vec());
    assert_eq!(e.value, b"false".to_vec());
    match parse_entry(b"k".to_vec(), b"'1'".to_vec()) {
        Err(err) => assert_eq!(err, OptionsError::InvalidValue),
        Ok(_) => panic!("a quoted literal is not a valid value"),
    }
}

#[test]
fn test_default_options_symbol_name() {
    assert_eq!(default_options_symbol(), "__scudo_default_options");
}
