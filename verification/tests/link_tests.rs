use std::io::Write;

use base64::Engine;
use input_overlay::layout::{decode_json_config, decode_key_layout, value_to_string, JsonScalar};
use input_overlay::link::{
    decode_base64url_zlib, decode_link_params, extract_query, get_bool_flag, get_str,
    label_arity, normalize_color_value, parse_query, percent_decode,
};

fn compress_url_safe(text: &str) -> String {
    let mut enc = flate2::write::ZlibEncoder::new(Vec::new(), flate2::Compression::default());
    enc.write_all(text.as_bytes()).unwrap();
    let bytes = enc.finish().unwrap();
    base64::engine::general_purpose::URL_SAFE_NO_PAD.encode(bytes)
}

#[test]
fn percent_decode_escapes_and_plus() {
    assert_eq!(percent_decode("a%20b+c"), "a b c");
    assert_eq!(percent_decode("%23ff00ff"), "#ff00ff");
    assert_eq!(percent_decode("%E2%96%B2"), "▲");
}

#[test]
fn percent_decode_keeps_bad_escapes() {
    assert_eq!(percent_decode("100%"), "100%");
    assert_eq!(percent_decode("%zz"), "%zz");
    assert_eq!(percent_decode("%2"), "%2");
}

#[test]
fn percent_decode_plain_text_unchanged() {
    assert_eq!(percent_decode("hello-world_1.2"), "hello-world_1.2");
    assert_eq!(percent_decode("ünïcödé"), "ünïcödé");
}

#[test]
fn percent_decode_invalid_utf8_is_replaced() {
    assert_eq!(percent_decode("%FF"), "\u{FFFD}");
}

#[test]
fn extract_query_cuts_at_question_and_hash() {
    assert_eq!(extract_query("https://x.y/overlay?a=1&b=2#frag"), "a=1&b=2");
    assert_eq!(extract_query("a=1#x"), "a=1");
    assert_eq!(extract_query("no-query"), "no-query");
    assert_eq!(extract_query("p?a=1?b=2"), "a=1?b=2");
}

#[test]
fn parse_query_last_value_wins() {
    let p = parse_query("?a=1&b=x%20y&&a=2&flag");
    assert_eq!(p.get("a"), Some("2".to_string()));
    assert_eq!(p.get("b"), Some("x y".to_string()));
    assert_eq!(p.get("flag"), Some(String::new()));
    assert_eq!(p.get("missing"), None);
    assert_eq!(p.entries.len(), 4);
}

#[test]
fn parse_query_splits_key_at_first_equals() {
    let p = parse_query("k=a=b");
    assert_eq!(p.get("k"), Some("a=b".to_string()));
}

#[test]
fn settings_lookups() {
    let p = parse_query("fontfamily=&mousetrailmode=pan&boldfont=1&hidemouse=true");
    assert_eq!(get_str(&p, "fontfamily", "dflt"), "dflt");
    assert_eq!(get_str(&p, "mousetrailmode", "wrap"), "pan");
    assert_eq!(get_str(&p, "absent", "wrap"), "wrap");
    assert!(get_bool_flag(&p, "boldfont"));
    assert!(!get_bool_flag(&p, "hidemouse"));
    assert!(!get_bool_flag(&p, "absent"));
}

#[test]
fn color_values_are_normalized() {
    assert_eq!(normalize_color_value(""), None);
    assert_eq!(normalize_color_value("#FFAA00"), Some("#ffaa00".to_string()));
    assert_eq!(normalize_color_value("%23ABCDEF"), Some("#abcdef".to_string()));
    assert_eq!(normalize_color_value("1A1A1AD1"), Some("#1a1a1ad1".to_string()));
}

#[test]
fn label_arity_by_base_type() {
    assert_eq!(label_arity("scroller"), 3);
    assert_eq!(label_arity("scroll_updown"), 2);
    assert_eq!(label_arity("scroll_up"), 1);
    assert_eq!(label_arity("scroll_down"), 1);
    assert_eq!(label_arity("mouse_side"), 2);
    assert_eq!(label_arity("mouse_pad"), 0);
    assert_eq!(label_arity("input_history"), 0);
    assert_eq!(label_arity("$"), 0);
    assert_eq!(label_arity("gp_joystick_ls|x"), 0);
    assert_eq!(label_arity("key_a|key_b"), 1);
    assert_eq!(label_arity("key_w"), 1);
}

#[test]
fn compressed_cfg_round_trip() {
    let text = "activecolor=%23ff0000&keyLayout=%5B%5D";
    let enc = compress_url_safe(text);
    assert_eq!(decode_base64url_zlib(&enc), Some(text.to_string()));
}

#[test]
fn compressed_cfg_rejects_garbage() {
    assert_eq!(decode_base64url_zlib("!!!"), None);
    let not_zlib = base64::engine::general_purpose::URL_SAFE_NO_PAD.encode(b"plain text");
    assert_eq!(decode_base64url_zlib(&not_zlib), None);
}

#[test]
fn link_params_from_cfg() {
    let inner = "fontcolor=%23abcdef&keyLayout=inner";
    let link = format!("https://o.example/?cfg={}&keyLayout=outer", compress_url_safe(inner));
    let lp = decode_link_params(&link);
    assert_eq!(lp.settings.get("fontcolor"), Some("#abcdef".to_string()));
    assert_eq!(lp.key_layout, Some("inner".to_string()));
}

#[test]
fn link_params_cfg_falls_back_to_outer_layout() {
    let inner = "fontcolor=%23abcdef";
    let link = format!("https://o.example/?cfg={}&keyLayout=outer", compress_url_safe(inner));
    let lp = decode_link_params(&link);
    assert_eq!(lp.key_layout, Some("outer".to_string()));
    assert_eq!(lp.settings.get("keyLayout"), None);
}

#[test]
fn link_params_without_cfg() {
    let lp = decode_link_params("https://o.example/?scale=120&keyLayout=abc#x");
    assert_eq!(lp.settings.get("scale"), Some("120".to_string()));
    assert_eq!(lp.key_layout, Some("abc".to_string()));
    let bad = decode_link_params("https://o.example/?cfg=@@@&scale=90");
    assert_eq!(bad.settings.get("scale"), Some("90".to_string()));
    assert_eq!(bad.key_layout, None);
}

#[test]
fn lowercase_and_lossy_decoding() {
    assert_eq!(normalize_color_value("#ÄBC"), Some("#äbc".to_string()));
    assert_eq!(percent_decode("a%FFb"), "a\u{FFFD}b");
    assert_eq!(percent_decode("ok"), "ok");
}

#[test]
fn percent_decode_accepts_signed_hex() {
    assert_eq!(percent_decode("%+f"), "\u{f}");
}

fn texts(tuples: &[Vec<JsonScalar>]) -> Vec<Vec<String>> {
    tuples.iter().map(|t| t.iter().map(value_to_string).collect()).collect()
}

#[test]
fn key_layout_plain_json() {
    let raw = r#"[["key_a","A",1,1.5,0,0],5,["mouse_pad",2,true,null]]"#;
    let t = decode_key_layout(raw).unwrap();
    assert_eq!(
        texts(&t),
        vec![
            vec!["key_a".to_string(), "A".to_string(), "1".to_string(), "1.5".to_string(), "0".to_string(), "0".to_string()],
            vec!["mouse_pad".to_string(), "2".to_string(), "true".to_string(), String::new()],
        ]
    );
    assert!(matches!(t[1][3], JsonScalar::Other));
}

#[test]
fn key_layout_compressed() {
    let json = r#"[["scroller","a","b","c",1,1,0,0]]"#;
    let t = decode_key_layout(&compress_url_safe(json)).unwrap();
    assert_eq!(t.len(), 1);
    assert_eq!(t[0].len(), 8);
    assert!(matches!(&t[0][0], JsonScalar::Str(x) if x == "scroller"));
    assert!(matches!(&t[0][4], JsonScalar::Num(x) if x == "1"));
}

#[test]
fn key_layout_unreadable() {
    assert!(decode_key_layout("").is_none());
    assert!(decode_key_layout("not json").is_none());
    assert!(decode_key_layout("{\"a\":1}").is_none());
}

#[test]
fn json_config_members_and_layout() {
    let json = r##"{"activecolor":"#fff","scale":120,"boldfont":true,"hidemouse":false,"keyLayout":[["key_a","A"],7],"nested":{"a":1},"arr":[1]}"##;
    let (p, layout) = decode_json_config(json).unwrap();
    assert_eq!(p.get("activecolor"), Some("#fff".to_string()));
    assert_eq!(p.get("scale"), Some("120".to_string()));
    assert_eq!(p.get("boldfont"), Some("1".to_string()));
    assert_eq!(p.get("hidemouse"), Some("0".to_string()));
    assert_eq!(p.get("nested"), None);
    assert_eq!(p.get("arr"), None);
    assert_eq!(p.get("keyLayout"), None);
    assert_eq!(texts(&layout.unwrap()), vec![vec!["key_a".to_string(), "A".to_string()]]);
    let (_, none) = decode_json_config(r#"{"scale":1}"#).unwrap();
    assert!(none.is_none());
    assert!(decode_json_config("[1,2]").is_none());
    assert!(decode_json_config("{").is_none());
}
