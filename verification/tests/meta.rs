use gguf_recast::remix::meta::{get_model_id_components, id_to_title, size_label_from_params};

#[test]
fn title_of_snapshot_sha() {
    assert_eq!(
        id_to_title("abc86de19eb1ebbf6a7df4582341325c22ddcb7d"),
        "Abc86De19Eb1Ebbf6A7Df4582341325C22Ddcb7D"
    );
}

#[test]
fn title_keeps_mixed_case_and_versions() {
    assert_eq!(id_to_title("Qwen3.6-27B"), "Qwen3.6 27B");
    assert_eq!(id_to_title("v1.5-chat"), "v1.5 Chat");
}

#[test]
fn a_title_is_its_own_title() {
    for (id, title) in [
        ("  tiny-llama\t-chat--v2 ", "Tiny Llama Chat v2"),
        ("v1x-2nd.try-x7b-A-v", "V1X 2nd.try X7B A V"),
        ("--- ", ""),
        ("12-3.5b", "12 3.5b"),
    ] {
        assert_eq!(id_to_title(id), title);
        assert_eq!(id_to_title(title), title);
    }
}

#[test]
fn qwen_base_model_components() {
    let c = get_model_id_components("Qwen/Qwen3.6-27B", 28_000_000_000);
    assert_eq!(c.model_full_name.as_deref(), Some("Qwen3.6-27B"));
    assert_eq!(c.org.as_deref(), Some("Qwen"));
    assert_eq!(c.basename.as_deref(), Some("Qwen3.6"));
    assert_eq!(c.size_label.as_deref(), Some("27B"));
    assert_eq!(c.finetune, None);
    assert_eq!(c.version, None);
}

#[test]
fn sha_dirname_components_too_ambiguous() {
    let c = get_model_id_components("abc86de19eb1ebbf6a7df4582341325c22ddcb7d", 28_000_000_000);
    assert_eq!(
        c.model_full_name.as_deref(),
        Some("abc86de19eb1ebbf6a7df4582341325c22ddcb7d")
    );
    assert_eq!(c.org, None);
    assert_eq!(c.basename, None); // no size/finetune/version -> ambiguous
    assert_eq!(c.size_label, None);
}

#[test]
fn size_labels() {
    assert_eq!(size_label_from_params(27_000_000_000), "27B");
    assert_eq!(size_label_from_params(6_500_000_000), "6.5B");
    assert_eq!(size_label_from_params(125_000_000), "125M");
}

fn float_label(total_params: u64) -> String {
    let n = total_params as f64;
    let (scaled, suffix) = if n > 1e12 {
        (n * 1e-12, "T")
    } else if n > 1e9 {
        (n * 1e-9, "B")
    } else if n > 1e6 {
        (n * 1e-6, "M")
    } else {
        (n * 1e-3, "K")
    };
    let f = scaled.floor();
    let diff = scaled - f;
    let rounded = if diff > 0.5 || (diff == 0.5 && (f as i64) % 2 != 0) { f + 1.0 } else { f };
    let digits = format!("{}", rounded as i64).trim_start_matches('0').len();
    let fix = 2usize.saturating_sub(digits);
    format!("{scaled:.fix$}{suffix}")
}

#[test]
fn size_labels_follow_double_arithmetic() {
    let mut n: u64 = 0;
    for i in 0..4000u64 {
        assert_eq!(size_label_from_params(n), float_label(n), "for {n}");
        n = n.wrapping_mul(3) / 2 + i * 7 + 1;
    }
    for n in [0, 1, 500, 999, 1_000_000, 1_000_001, 9_950_000, 99_500_000, u64::MAX, 1 << 53] {
        assert_eq!(size_label_from_params(n), float_label(n), "for {n}");
    }
}

#[test]
fn titles_of_other_scripts_and_spaces() {
    assert_eq!(id_to_title("  a-b\tc_d  "), "A B C_D");
    assert_eq!(id_to_title("\u{e9}t\u{e9}-v2"), "\u{c9}t\u{e9} v2");
    assert_eq!(id_to_title("v"), "V");
    assert_eq!(id_to_title(""), "");
    assert_eq!(id_to_title("7b"), "7b");
}

#[test]
fn id_with_space_is_a_name() {
    let c = get_model_id_components("My Model/7B", 7_000_000_000);
    assert_eq!(c.model_full_name.as_deref(), Some("My Model/7B"));
    assert_eq!(c.org, None);
    assert_eq!(c.size_label, None);
}

#[test]
fn local_paths_have_no_organization() {
    assert_eq!(get_model_id_components("./Foo-7B", 7_000_000_000).org, None);
    assert_eq!(get_model_id_components("/Foo-7B", 7_000_000_000).org, None);
}

#[test]
fn components_of_known_names() {
    let c = get_model_id_components("mistralai/Mixtral-8x7B-Instruct-v0.1", 46_700_000_000);
    assert_eq!(c.basename.as_deref(), Some("Mixtral"));
    assert_eq!(c.size_label.as_deref(), Some("8x7B"));
    assert_eq!(c.finetune.as_deref(), Some("Instruct"));
    assert_eq!(c.version.as_deref(), Some("v0.1"));
    let c = get_model_id_components("bigscience/bloom-7b1-petals", 7_100_000_000);
    assert_eq!(c.basename.as_deref(), Some("bloom"));
    assert_eq!(c.size_label.as_deref(), Some("7.1B"));
    assert_eq!(c.finetune.as_deref(), Some("petals"));
    let c = get_model_id_components("Foo-1_5b-q4_K-7B-mini", 1_500_000_000);
    assert_eq!(c.size_label.as_deref(), Some("1.5B"));
    assert_eq!(c.finetune.as_deref(), Some("7b-mini"));
    let c = get_model_id_components("Foo-small-chat-lora", -100);
    assert_eq!(c.size_label.as_deref(), Some("small"));
    assert_eq!(c.finetune.as_deref(), Some("chat"));
    let c = get_model_id_components("Foo-2-7B-7b", 7_000_000_000);
    assert_eq!(c.basename.as_deref(), Some("Foo-2"));
    assert_eq!(c.size_label.as_deref(), Some("7B"));
    let c = get_model_id_components("Foo-2", 7_000_000_000);
    assert_eq!(c.basename.as_deref(), Some("Foo"));
    assert_eq!(c.version.as_deref(), Some("2"));
}

#[test]
fn unknown_parameter_count_keeps_sizes() {
    let c = get_model_id_components("Foo-999T", 0);
    assert_eq!(c.size_label.as_deref(), Some("999T"));
    let c = get_model_id_components("Foo-999T", 7_000_000_000);
    assert_eq!(c.finetune.as_deref(), Some("999t"));
    let c = get_model_id_components("Foo-99999999999999999999999T", 7_000_000_000);
    assert_eq!(c.finetune.as_deref(), Some("99999999999999999999999t"));
}
