use brainfuck_redox_scheme::program::{
    find_matching_close, find_matching_open, is_well_nested, program_of,
};

fn chars(text: &str) -> Vec<char> {
    text.chars().collect()
}

#[test]
fn nesting_is_recognised() {
    assert!(is_well_nested(&chars("")));
    assert!(is_well_nested(&chars("+-<>.,")));
    assert!(is_well_nested(&chars("[]")));
    assert!(is_well_nested(&chars("[[][[]]]x[]")));
    assert!(!is_well_nested(&chars("[")));
    assert!(!is_well_nested(&chars("]")));
    assert!(!is_well_nested(&chars("][")));
    assert!(!is_well_nested(&chars("[[]")));
    assert!(!is_well_nested(&chars("[]]")));
    assert!(!is_well_nested(&chars("[]][")));
}

#[test]
fn closing_partner_respects_nesting() {
    let code = chars("[a[b]c[d[e]]f]g");
    assert_eq!(find_matching_close(&code, 0), Some(13));
    assert_eq!(find_matching_close(&code, 2), Some(4));
    assert_eq!(find_matching_close(&code, 6), Some(11));
    assert_eq!(find_matching_close(&code, 8), Some(10));
}

#[test]
fn opening_partner_respects_nesting() {
    let code = chars("[a[b]c[d[e]]f]g");
    assert_eq!(find_matching_open(&code, 13), Some(0));
    assert_eq!(find_matching_open(&code, 4), Some(2));
    assert_eq!(find_matching_open(&code, 11), Some(6));
    assert_eq!(find_matching_open(&code, 10), Some(8));
}

#[test]
fn missing_partner_is_reported() {
    assert_eq!(find_matching_close(&chars("["), 0), None);
    assert_eq!(find_matching_close(&chars("[[]"), 0), None);
    assert_eq!(find_matching_close(&chars("[[]"), 1), Some(2));
    assert_eq!(find_matching_open(&chars("]"), 0), None);
    assert_eq!(find_matching_open(&chars("[]]"), 2), None);
    assert_eq!(find_matching_open(&chars("[]]"), 1), Some(0));
}

#[test]
fn index_past_the_end_has_no_partner() {
    assert_eq!(find_matching_close(&chars("[]"), 2), None);
    assert_eq!(find_matching_close(&chars("[]"), usize::MAX), None);
    assert_eq!(find_matching_open(&chars("[]"), 2), None);
    assert_eq!(find_matching_open(&chars(""), 0), None);
}

#[test]
fn program_text_is_taken_symbol_by_symbol() {
    assert_eq!(program_of(""), Vec::<char>::new());
    assert_eq!(program_of("+[-]"), vec!['+', '[', '-', ']']);
    assert_eq!(program_of("a\u{fc}+"), vec!['a', '\u{fc}', '+']);
}
