use xbind::bindings::{parse_key_binding, KeyCode, MASK_ALT, MASK_CONTROL, MASK_SHIFT, MASK_SUPER};
use xbind::keymap::CodeMap;

fn table() -> CodeMap {
    let mut t = CodeMap::new();
    t.insert("j".to_string(), 44);
    t.insert("Return".to_string(), 36);
    t.insert("semicolon".to_string(), 47);
    t
}

#[test]
fn super_j_is_mod4_and_code_44() {
    let t = table();
    let kc = parse_key_binding("M-j", &t).unwrap().unwrap();
    assert_eq!(kc, KeyCode { mask: MASK_SUPER, code: 44 });
    assert_eq!(kc.mask, 64);
}

#[test]
fn each_modifier_has_its_own_bit() {
    let t = table();
    assert_eq!(parse_key_binding("A-j", &t).unwrap().unwrap().mask, MASK_ALT);
    assert_eq!(parse_key_binding("S-j", &t).unwrap().unwrap().mask, MASK_SHIFT);
    assert_eq!(parse_key_binding("C-j", &t).unwrap().unwrap().mask, MASK_CONTROL);
    assert_eq!(MASK_SHIFT, 1);
    assert_eq!(MASK_CONTROL, 4);
    assert_eq!(MASK_ALT, 8);
    assert_eq!(MASK_SUPER, 64);
}

#[test]
fn modifier_order_does_not_matter() {
    let t = table();
    let a = parse_key_binding("M-S-Return", &t).unwrap().unwrap();
    let b = parse_key_binding("S-M-Return", &t).unwrap().unwrap();
    assert_eq!(a.mask, MASK_SUPER | MASK_SHIFT);
    assert_eq!(a, b);
}

#[test]
fn repeated_modifier_is_idempotent() {
    let t = table();
    let a = parse_key_binding("M-M-j", &t).unwrap().unwrap();
    assert_eq!(a.mask, MASK_SUPER);
}

#[test]
fn bare_key_name_has_empty_mask() {
    let t = table();
    let kc = parse_key_binding("semicolon", &t).unwrap().unwrap();
    assert_eq!(kc, KeyCode { mask: 0, code: 47 });
}

#[test]
fn unknown_key_name_is_no_binding() {
    let t = table();
    assert_eq!(parse_key_binding("M-nonexistent_key", &t).unwrap(), None);
}

#[test]
fn unknown_modifier_is_an_error() {
    let t = table();
    let e = parse_key_binding("Q-j", &t).unwrap_err();
    assert_eq!(e.token, "Q");
    assert_eq!(e.message(), "invalid key binding prefix: Q");
}

#[test]
fn first_unknown_modifier_is_reported() {
    let t = table();
    let e = parse_key_binding("M-Q-Z-j", &t).unwrap_err();
    assert_eq!(e.token, "Q");
}

#[test]
fn unknown_key_wins_over_unknown_modifier() {
    // the key name is looked up first, so a bad prefix on an unknown key is
    // still only "no binding"
    let t = table();
    assert_eq!(parse_key_binding("Q-nonexistent_key", &t).unwrap(), None);
}

#[test]
fn empty_modifier_token_is_an_error() {
    let t = table();
    let e = parse_key_binding("-j", &t).unwrap_err();
    assert_eq!(e.token, "");
}

#[test]
fn empty_key_name_is_no_binding() {
    let t = table();
    assert_eq!(parse_key_binding("M-", &t).unwrap(), None);
    assert_eq!(parse_key_binding("", &t).unwrap(), None);
}
