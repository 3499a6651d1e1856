use litcrypt2::error::LitcryptError;
use litcrypt2::escape::unescape_literal;
use litcrypt2::litcrypt::{
    decrypt_bytes, encrypt_string, get_magic_spell, lc, lc_env, use_litcrypt, Session,
    RANDOM_KEY_LEN,
};
use litcrypt2::literal::{resolve_literal, resolve_literal_text, Token};

fn spell_session() -> Session {
    let spell = get_magic_spell(Some("MY-SECRET-SPELL".to_string())).unwrap();
    use_litcrypt(&spell)
}

fn lit(text: &str) -> Vec<Token> {
    vec![Token::Literal(text.to_string())]
}

fn round_trip(tokens: &Vec<Token>, session: &Session) -> String {
    let encrypted = lc(tokens, session).unwrap();
    decrypt_bytes(&encrypted, &session.encrypt_key).unwrap()
}

#[test]
pub fn test_literal1() {
    let s = spell_session();
    assert_eq!(round_trip(&lit("\"Kucing Garong\""), &s), "Kucing Garong");
}

#[test]
pub fn test_literal2() {
    let s = spell_session();
    assert_eq!(round_trip(&lit("\"Very secret word\""), &s), "Very secret word");
}

#[test]
pub fn test_env() {
    let s = spell_session();
    let encrypted = lc_env(Some("Shhhhhh".to_string()), &s);
    assert_eq!(decrypt_bytes(&encrypted, &s.encrypt_key).unwrap(), "Shhhhhh");
}

#[test]
pub fn test_raw1() {
    let s = spell_session();
    assert_eq!(round_trip(&lit(r#"r"c:\windows\system32""#), &s), r"c:\windows\system32");
}

#[test]
pub fn test_raw2() {
    let s = spell_session();
    assert_eq!(round_trip(&lit(r##"r#"\\machine\share"#"##), &s), r#"\\machine\share"#);
}

#[test]
pub fn test_raw3() {
    let s = spell_session();
    assert_eq!(
        round_trip(&lit(r####"r###"String with ##"###"####), &s),
        r###"String with ##"###
    );
}

#[test]
fn env_override_is_used_verbatim() {
    assert_eq!(get_magic_spell(Some("abc".to_string())), Ok(vec![97, 98, 99]));
    assert_eq!(get_magic_spell(Some(String::new())), Ok(vec![]));
}

#[test]
fn random_key_has_fixed_length() {
    match get_magic_spell(None) {
        Ok(k) => {
            assert_eq!(k.len(), RANDOM_KEY_LEN);
            assert!(k.iter().any(|&b| b != 0));
            if let Ok(other) = get_magic_spell(None) {
                assert_ne!(k, other);
            }
        }
        Err(e) => assert_eq!(e, LitcryptError::RandomSource),
    }
}

#[test]
fn session_key_is_scrambled_with_mask() {
    // "MY-S" XOR "l33t"
    let s = use_litcrypt(b"MY-S");
    assert_eq!(s.encrypt_key, vec![77 ^ 108, 89 ^ 51, 45 ^ 51, 83 ^ 116]);
    assert_ne!(s.encrypt_key, b"MY-S".to_vec());
    let long = use_litcrypt(&[0u8; 6]);
    assert_eq!(long.encrypt_key, vec![108, 51, 51, 116, 108, 51]);
}

#[test]
fn literal_is_encrypted_with_session_key() {
    let s = spell_session();
    let encrypted = lc(&lit("\"Kucing Garong\""), &s).unwrap();
    assert_ne!(encrypted, b"Kucing Garong".to_vec());
    assert_eq!(encrypted, encrypt_string(b"Kucing Garong", &s));
}

#[test]
fn pipeline_round_trips_with_random_key() {
    if let Ok(key) = get_magic_spell(None) {
        let s = use_litcrypt(&key);
        for text in ["", "a", "héllo wörld", "Kucing Garong", "日本語のテキスト"] {
            let encrypted = encrypt_string(text.as_bytes(), &s);
            assert_eq!(decrypt_bytes(&encrypted, &s.encrypt_key).unwrap(), text);
        }
    }
}

#[test]
fn pipeline_round_trips_with_empty_key() {
    let s = use_litcrypt(&[]);
    assert_eq!(s.encrypt_key, Vec::<u8>::new());
    let encrypted = lc(&lit("\"plain\""), &s).unwrap();
    assert_eq!(encrypted, b"plain".to_vec());
    assert_eq!(decrypt_bytes(&encrypted, &s.encrypt_key).unwrap(), "plain");
}

#[test]
fn two_literals_share_one_session() {
    let s = spell_session();
    let a = lc(&lit("\"first\""), &s).unwrap();
    let b = lc(&lit("\"second\""), &s).unwrap();
    assert_eq!(decrypt_bytes(&a, &s.encrypt_key).unwrap(), "first");
    assert_eq!(decrypt_bytes(&b, &s.encrypt_key).unwrap(), "second");
}

#[test]
fn literal_from_another_session_does_not_round_trip() {
    let s1 = spell_session();
    let s2 = use_litcrypt(b"MY-SECRET-SPELX");
    let encrypted = lc(&lit("\"Very secret word\""), &s1).unwrap();
    match decrypt_bytes(&encrypted, &s2.encrypt_key) {
        Ok(text) => assert_ne!(text, "Very secret word"),
        Err(e) => assert_eq!(e, LitcryptError::InvalidText),
    }
}

#[test]
fn mismatched_key_gives_invalid_text() {
    // 0xc3 0xa9 is "é"; flipping the second byte leaves an invalid sequence.
    let encrypted = vec![0xc3u8, 0xa9];
    assert_eq!(decrypt_bytes(&encrypted, &[0, 0]).unwrap(), "é");
    assert_eq!(decrypt_bytes(&encrypted, &[0, 0x80]), Err(LitcryptError::InvalidText));
}

#[test]
fn unset_env_variable_gives_placeholder() {
    let s = spell_session();
    let encrypted = lc_env(None, &s);
    assert_ne!(encrypted, b"unknown".to_vec());
    assert_eq!(decrypt_bytes(&encrypted, &s.encrypt_key).unwrap(), "unknown");
    let empty = use_litcrypt(&[]);
    assert_eq!(lc_env(None, &empty), b"unknown".to_vec());
}

#[test]
fn wrong_argument_count_is_rejected() {
    let s = spell_session();
    assert_eq!(lc(&vec![], &s), Err(LitcryptError::ArgumentCount));
    let two = vec![Token::Literal("\"a\"".to_string()), Token::Literal("\"b\"".to_string())];
    assert_eq!(lc(&two, &s), Err(LitcryptError::ArgumentCount));
    assert_eq!(resolve_literal(&vec![]), Err(LitcryptError::ArgumentCount));
}

#[test]
fn wrong_argument_kind_is_rejected() {
    let s = spell_session();
    assert_eq!(lc(&vec![Token::Other], &s), Err(LitcryptError::ArgumentKind));
    assert_eq!(lc(&lit("42"), &s), Err(LitcryptError::ArgumentKind));
    assert_eq!(lc(&lit("b\"bytes\""), &s), Err(LitcryptError::ArgumentKind));
    assert_eq!(lc(&lit("'c'"), &s), Err(LitcryptError::ArgumentKind));
}

#[test]
fn literal_text_forms() {
    assert_eq!(resolve_literal_text(b"\"\""), Some(vec![]));
    assert_eq!(resolve_literal_text(b"\"ab\""), Some(b"ab".to_vec()));
    assert_eq!(resolve_literal_text(b"\"a\\nb\""), Some(b"a\nb".to_vec()));
    assert_eq!(resolve_literal_text(b"r\"\""), Some(vec![]));
    assert_eq!(resolve_literal_text(b"r#\"a\"b\"#"), Some(b"a\"b".to_vec()));
    assert_eq!(resolve_literal_text(b"r##\"x\"#"), None);
    assert_eq!(resolve_literal_text(b"r#\"x\"##"), None);
    assert_eq!(resolve_literal_text(b"r#x\"#"), None);
    assert_eq!(resolve_literal_text(b"\""), None);
    assert_eq!(resolve_literal_text(b""), None);
    assert_eq!(resolve_literal(&lit("r\"q\"")), Ok(b"q".to_vec()));
}

#[test]
fn plain_and_raw_forms_give_the_same_text() {
    let s = spell_session();
    let plain = round_trip(&lit(r#""c:\\windows\\system32""#), &s);
    let raw = round_trip(&lit(r#"r"c:\windows\system32""#), &s);
    assert_eq!(plain, r"c:\windows\system32");
    assert_eq!(plain, raw);
}

#[test]
fn simple_escapes_are_resolved() {
    assert_eq!(
        unescape_literal(br#"a\n\r\t\\\0\'\"z"#),
        Some(b"a\n\r\t\\\0'\"z".to_vec())
    );
    assert_eq!(unescape_literal(b""), Some(vec![]));
    assert_eq!(unescape_literal(b"no escapes"), Some(b"no escapes".to_vec()));
}

#[test]
fn hex_and_unicode_escapes_are_resolved() {
    assert_eq!(unescape_literal(br"\x41\x7f"), Some(vec![0x41, 0x7f]));
    assert_eq!(unescape_literal(br"\u{e9}"), Some("é".as_bytes().to_vec()));
    assert_eq!(unescape_literal(br"\u{1F600}!"), Some("😀!".as_bytes().to_vec()));
    assert_eq!(unescape_literal(br"\u{41}"), Some(b"A".to_vec()));
    let s = spell_session();
    assert_eq!(round_trip(&lit(r#""caf\u{e9} \x41""#), &s), "café A");
}

#[test]
fn line_continuation_drops_break_and_indent() {
    assert_eq!(unescape_literal(b"one \\\n     two"), Some(b"one two".to_vec()));
    assert_eq!(unescape_literal(b"end\\\n"), Some(b"end".to_vec()));
}

#[test]
fn bad_escapes_are_rejected() {
    assert_eq!(unescape_literal(br"\q"), None);
    assert_eq!(unescape_literal(b"\\"), None);
    assert_eq!(unescape_literal(br"\x80"), None);
    assert_eq!(unescape_literal(br"\x4"), None);
    assert_eq!(unescape_literal(br"\u{D800}"), None);
    assert_eq!(unescape_literal(br"\u{110000}"), None);
    assert_eq!(unescape_literal(br"\u{}"), None);
    assert_eq!(unescape_literal(br"\u{1234567}"), None);
    assert_eq!(unescape_literal(br"\u{41"), None);
    assert_eq!(unescape_literal(br"\u41"), None);
    let s = spell_session();
    assert_eq!(lc(&lit(r#""\q""#), &s), Err(LitcryptError::ArgumentKind));
}
