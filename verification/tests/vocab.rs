use gguf_recast::json::Json;
use gguf_recast::remix::vocab::{
    chat_template, load_vocab, looks_special, special_ids, special_token_ids, template_in,
    template_in_config, template_in_files, template_under, AddedToken, Template, VocabError, TOKTYPE_CONTROL, TOKTYPE_NORMAL,
    TOKTYPE_UNUSED, TOKTYPE_USER_DEFINED,
};

fn json(s: &str) -> Json {
    Json::parse(s.as_bytes()).unwrap()
}

fn merges(s: &str) -> Vec<Json> {
    match json(s) {
        Json::Arr(a) => a,
        _ => panic!("not a list"),
    }
}

#[test]
fn special_looking_tokens() {
    assert!(looks_special("<|fim_prefix|>"));
    assert!(looks_special("<pad>"));
    assert!(looks_special("<unused42>"));
    assert!(!looks_special("<tool_call>"));
    assert!(!looks_special("<think>"));
    assert!(looks_special("<\u{ff5c}end\u{ff5c}>"));
    assert!(looks_special("[@BOS@]"));
    assert!(!looks_special("<|open"));
}

#[test]
fn tokens_by_id() {
    let vocab = vec![("a".to_string(), 0), ("b".to_string(), 1), ("gone".to_string(), 9)];
    let added = vec![
        AddedToken { id: 1, content: "<|x|>".to_string(), special: false },
        AddedToken { id: 2, content: "s\u{2581}t".to_string(), special: false },
        AddedToken { id: 3, content: "p\u{2581}q".to_string(), special: true },
    ];
    let v = load_vocab(&vocab, &added, &merges("[\"a b\", [\"c d\", \"e\"], [1, \"f\"]]"), 5).unwrap();
    assert_eq!(v.tokens, ["a", "<|x|>", "s t", "p\u{2581}q", "[PAD4]"]);
    assert_eq!(
        v.token_types,
        [TOKTYPE_NORMAL, TOKTYPE_CONTROL, TOKTYPE_USER_DEFINED, TOKTYPE_CONTROL, TOKTYPE_UNUSED]
    );
    assert_eq!(v.merges, ["a b", "c\u{120}d e", " f"]);
}

#[test]
fn merges_of_another_form_are_refused() {
    for m in ["[5]", "[[\"a\"]]", "[{\"a\": 1}]"] {
        assert_eq!(load_vocab(&[], &[], &merges(m), 0).err(), Some(VocabError::UnknownMerges));
    }
}

const TOKENIZER: &str = "{\"added_tokens\": [{\"id\": 7, \"content\": \"<e>\"}, \
                         {\"id\": 8, \"content\": \"<p>\"}]}";

#[test]
fn special_ids_are_found_in_order() {
    let t = json(TOKENIZER);
    let tc = json("{\"eos_token\": \"<e>\", \"pad_token\": {\"content\": \"<p>\"}, \"unk_token\": \"<u>\"}");
    let c = json(
        "{\"eos_token_id\": 99, \"text_config\": {\"bos_token_id\": 5, \"eos_token_id\": 98}}",
    );
    assert_eq!(special_ids(&t, Some(&tc), Some(&c)), [("eos", 7), ("pad", 8), ("bos", 5)]);
    assert_eq!(special_ids(&t, None, Some(&c)), [("bos", 5), ("eos", 99)]);
    assert_eq!(special_ids(&t, None, None), []);
}

#[test]
fn special_ids_out_of_files() {
    let ids = special_token_ids(
        TOKENIZER.as_bytes(),
        Some(b"{\"eos_token\": \"<e>\"}"),
        Some(b"{\"bos_token_id\": 1}"),
    );
    assert_eq!(ids, Ok(vec![("eos", 7), ("bos", 1)]));
    // A tokenizer configuration that is no JSON counts as absent.
    assert_eq!(
        special_token_ids(TOKENIZER.as_bytes(), Some(b"{"), Some(b"{\"bos_token_id\": 1}")),
        Ok(vec![("bos", 1)])
    );
    assert_eq!(special_token_ids(b"{", None, None), Err(VocabError::BadJson));
    assert_eq!(
        special_token_ids(TOKENIZER.as_bytes(), None, Some(b"[")),
        Err(VocabError::BadJson)
    );
}

#[test]
fn chat_templates() {
    assert!(matches!(template_in_config(None), Template::Absent));
    assert!(matches!(template_in_config(Some(b"{")), Template::Absent));
    assert!(matches!(template_in_config(Some(b"{\"chat_template\": 5}")), Template::NotText));
    assert!(matches!(template_in_config(Some(b"{\"chat_template\": null}")), Template::InFiles));
    match template_in_config(Some(b"{\"chat_template\": \"T\"}")) {
        Template::Found(s) => assert_eq!(s, "T"),
        _ => panic!("not found"),
    }
    let jinja = || Some("J".to_string());
    let file: Option<&[u8]> = Some(b"{\"chat_template\": \"F\"}");
    assert_eq!(template_in_files(jinja(), false, file), Ok(jinja()));
    assert_eq!(template_in_files(jinja(), true, file), Err(VocabError::AdditionalTemplates));
    assert_eq!(template_in_files(None, true, file), Ok(Some("F".to_string())));
    assert_eq!(template_in_files(None, false, Some(b"{}")), Ok(None));
    assert_eq!(template_in_files(None, false, Some(b"x")), Err(VocabError::BadJson));
    assert_eq!(template_in_files(None, false, None), Ok(None));
    assert_eq!(chat_template(None, jinja(), false, None), Ok(None));
    assert_eq!(chat_template(Some(b"{}"), jinja(), false, None), Ok(jinja()));
    assert_eq!(
        chat_template(Some(b"{\"chat_template\": []}"), None, false, None),
        Err(VocabError::TemplateNotText)
    );
}

#[test]
fn templates_in_parsed_files() {
    assert!(matches!(template_in(None), Template::Absent));
    assert!(matches!(template_in(Some(&json("{}"))), Template::InFiles));
    assert!(matches!(template_in(Some(&json("{\"chat_template\": null}"))), Template::InFiles));
    assert!(matches!(template_in(Some(&json("{\"chat_template\": []}"))), Template::NotText));
    assert!(matches!(
        template_in(Some(&json("{\"chat_template\": \"T\"}"))),
        Template::Found(t) if t == "T"
    ));
    assert_eq!(template_under(&json("{\"chat_template\": \"T\"}")).as_deref(), Some("T"));
    assert_eq!(template_under(&json("{\"chat_template\": 1}")), None);
    assert_eq!(template_under(&json("[]")), None);
}
