use bicep_review::models::{ChatCompletionResponse, ChatMessage, Choice};

#[test]
fn first_message_content_reads_the_first_choice() {
    let resp = ChatCompletionResponse {
        choices: vec![
            Choice {
                message: ChatMessage {
                    role: "assistant".to_string(),
                    content: "first".to_string(),
                },
            },
            Choice {
                message: ChatMessage {
                    role: "assistant".to_string(),
                    content: "second".to_string(),
                },
            },
        ],
    };
    assert_eq!(resp.first_message_content().unwrap(), "first");
}

#[test]
fn an_answer_without_choices_has_no_content() {
    let empty = ChatCompletionResponse { choices: Vec::new() };
    assert!(empty.first_message_content().is_none());
}
