use localcoder::models::{lmstudio_models, sorted_models, LMStudioModelEntry};

fn texts(items: &[&str]) -> Vec<String> {
    items.iter().map(|item| item.to_string()).collect()
}

#[test]
fn models_are_listed_in_order_and_once() {
    let names = texts(&["qwen", "llama", "qwen", "Llama", "llama3", "", "é", "z"]);
    let mut expected = names.clone();
    expected.sort();
    expected.dedup();
    assert_eq!(sorted_models(names), expected);
    assert_eq!(
        expected,
        texts(&["", "Llama", "llama", "llama3", "qwen", "z", "é"])
    );
}

#[test]
fn the_order_of_the_answer_does_not_matter() {
    let one = sorted_models(texts(&["b", "a", "c", "a"]));
    let other = sorted_models(texts(&["c", "b", "a"]));
    assert_eq!(one, other);
}

#[test]
fn characters_outside_the_first_plane_come_last() {
    let names = texts(&["\u{1f600}", "\u{ffff}", "\u{e000}"]);
    let mut expected = names.clone();
    expected.sort();
    assert_eq!(sorted_models(names), expected);
}

#[test]
fn embedding_models_are_left_out() {
    let entry = |key: &str, kind: Option<&str>| LMStudioModelEntry {
        key: key.to_string(),
        model_type: kind.map(|kind| kind.to_string()),
    };
    let models = lmstudio_models(vec![
        entry("qwen3", Some("llm")),
        entry("nomic", Some("embedding")),
        entry("deepseek", None),
        entry("qwen3", None),
        entry("odd", Some("Embedding")),
    ]);
    assert_eq!(models, texts(&["deepseek", "odd", "qwen3"]));
}
