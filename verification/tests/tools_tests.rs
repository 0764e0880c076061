use micro_agent::tools::{build_embedding_text, build_query, top_n_indices, Argument, Tool};

#[test]
fn embedding_text_layout() {
    let tool = Tool {
        name: "phone_format".to_string(),
        description: "Formats a phone number".to_string(),
        arguments: vec![
            ("number".to_string(), Argument { arg_type: "string".to_string(), description: "The number".to_string() }),
            ("country".to_string(), Argument { arg_type: "string".to_string(), description: "Target country".to_string() }),
        ],
        examples: vec!["format 0768417100".to_string()],
    };
    assert_eq!(
        build_embedding_text(&tool),
        "Tool name: phone_format\nDescription: Formats a phone number\nArguments:\n- number (string): The number\n- country (string): Target country\nExamples:\n- format 0768417100\n"
    );
}

#[test]
fn embedding_text_without_arguments_or_examples() {
    let tool = Tool { name: "t".to_string(), description: "d".to_string(), arguments: vec![], examples: vec![] };
    assert_eq!(build_embedding_text(&tool), "Tool name: t\nDescription: d\nArguments:\nExamples:\n");
}

#[test]
fn query_has_retrieval_prefix() {
    assert_eq!(build_query("hi"), "Represent this sentence for searching relevant passages: hi");
}

#[test]
fn top_n_is_descending_and_stable() {
    assert_eq!(top_n_indices(&vec![5, 9, 5, 1, 9], 3), vec![1, 4, 0]);
    assert_eq!(top_n_indices(&vec![5, 9, 5, 1, 9], 10), vec![1, 4, 0, 2, 3]);
    assert_eq!(top_n_indices(&vec![5, 9], 0), Vec::<usize>::new());
    assert_eq!(top_n_indices(&vec![], 1), Vec::<usize>::new());
}
