use gguf_recast::json::Json;
use gguf_recast::remix::card::{card_in, load_model_card, read_front_matter};
use gguf_recast::remix::plan::Refusal;
use gguf_recast::yaml::parse_as_json;

#[test]
fn json_values() {
    let v = Json::parse(
        b"{\"s\": \"x\", \"n\": 7, \"m\": -7, \"r\": 1.5, \"t\": true, \"z\": null, \"a\": [1]}",
    )
    .unwrap();
    assert_eq!(v.str_at("s"), Some("x"));
    assert_eq!(v.unsigned_at("n"), Some(7));
    assert_eq!(v.signed_at("n"), Some(7));
    assert_eq!(v.real_at("n"), Some(7.0f64.to_bits()));
    assert_eq!(v.unsigned_at("m"), None);
    assert_eq!(v.signed_at("m"), Some(-7));
    assert_eq!(v.real_at("r"), Some(1.5f64.to_bits()));
    assert_eq!(v.unsigned_at("r"), None);
    assert_eq!(v.bool_at("t"), Some(true));
    assert_eq!(v.bool_at("s"), None);
    assert!(matches!(v.get("z"), Some(Json::Null)));
    assert!(v.get("none").is_none());
    assert_eq!(v.arr_at("a").unwrap()[0].as_unsigned(), Some(1));
    assert!(Json::parse(b"{\"a\":}").is_err());
    assert_eq!(Json::parse(b"\"text\"").unwrap().as_str(), Some("text"));
}

#[test]
fn yaml_as_json() {
    let v = parse_as_json("a: 1\nb: [x, 2.5]\nc: {d: no}\n").unwrap();
    assert_eq!(v.unsigned_at("a"), Some(1));
    assert_eq!(v.arr_at("b").unwrap()[0].as_str(), Some("x"));
    assert_eq!(v.arr_at("b").unwrap()[1].as_real(), Some(2.5f64.to_bits()));
    assert_eq!(v.get("c").unwrap().str_at("d"), Some("no"));
    assert!(parse_as_json("a: [").is_none());
    assert!(parse_as_json("? [1, 2]\n: x\n").is_none());
}

#[test]
fn front_matter() {
    assert_eq!(read_front_matter("no card"), None);
    assert_eq!(
        read_front_matter("---\nlicense: mit\nlang:\n- no\n\tx: 1\n---\nrest\n").as_deref(),
        Some("license: mit\nlang:\n- \"no\"\n  x: 1\n")
    );
    assert_eq!(read_front_matter("---\r\na: 1\r\n---\r\n").as_deref(), Some("a: 1\n"));
}

#[test]
fn model_cards() {
    assert!(load_model_card(None).unwrap().is_none());
    assert!(load_model_card(Some("# title\n")).unwrap().is_none());
    let card = load_model_card(Some("---\nname: X\ntags:\n- no\n---\n")).unwrap().unwrap();
    assert_eq!(card.str_at("name"), Some("X"));
    assert_eq!(card.arr_at("tags").unwrap()[0].as_str(), Some("no"));
    assert!(load_model_card(Some("---\n- a\n---\n")).unwrap().is_none());
    assert_eq!(
        load_model_card(Some("---\na: [\n---\n")).unwrap_err().what,
        Refusal::BadCard
    );
}

#[test]
fn only_an_object_is_a_card() {
    let card = card_in(Json::parse(b"{\"license\": \"mit\"}").unwrap()).unwrap();
    assert_eq!(card.str_at("license"), Some("mit"));
    assert!(card_in(Json::parse(b"[\"license\"]").unwrap()).is_none());
    assert!(card_in(Json::Null).is_none());
}
