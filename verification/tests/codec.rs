use dashboard_backend::codec::{decode_kpis, encode_kpis};
use dashboard_backend::kpi::{get_dashboard_kpis, Kpi};

fn record(title: &str, value: &str, icon: &str, color: &str) -> Kpi {
    Kpi {
        title: title.to_string(),
        value: value.to_string(),
        icon: icon.to_string(),
        color: color.to_string(),
    }
}

#[test]
fn encode_exact_frame() {
    let v = vec![record("a", "", "ab", "x")];
    let s = encode_kpis(&v);
    assert_eq!(s, "{title:1:a;value:0:;icon:2:ab;color:1:x;}");
}

#[test]
fn encode_empty_list() {
    let v: Vec<Kpi> = vec![];
    assert_eq!(encode_kpis(&v), "");
}

#[test]
fn dashboard_roundtrip() {
    let v = get_dashboard_kpis();
    let s = encode_kpis(&v);
    let d = decode_kpis(&s).expect("an encoded list must decode");
    assert_eq!(d, v);
}

#[test]
fn roundtrip_keeps_delimiters_in_text() {
    let v = vec![
        record("ti:tle;", "{12:3}", "", ";;;"),
        record("", "", "", ""),
        record("0:", "9;", "{", "}"),
    ];
    let s = encode_kpis(&v);
    let d = decode_kpis(&s).expect("an encoded list must decode");
    assert_eq!(d, v);
}

#[test]
fn roundtrip_keeps_wide_characters() {
    let v = vec![record("Receita Mensal", "R$ 45,8 mil", "Gr\u{e1}fico", "\u{1f4c8}")];
    let s = encode_kpis(&v);
    let d = decode_kpis(&s).expect("an encoded list must decode");
    assert_eq!(d, v);
}

#[test]
fn decode_empty_is_empty_list() {
    let d = decode_kpis("").expect("the empty string is the empty list");
    assert_eq!(d, vec![]);
}

#[test]
fn decode_rejects_malformed_text() {
    assert!(decode_kpis("nonsense").is_none());
    assert!(decode_kpis("{title:1:a;").is_none());
    assert!(decode_kpis("{title:9999999999999999999999:a;").is_none());
    assert!(decode_kpis("{title:2:a;value:0:;icon:0:;color:0:;}").is_none());
}

#[test]
fn decode_rejects_trailing_text() {
    let v = vec![record("a", "b", "c", "d")];
    let mut s = encode_kpis(&v);
    s.push('x');
    assert!(decode_kpis(&s).is_none());
}
