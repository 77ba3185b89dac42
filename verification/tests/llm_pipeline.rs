use voice_actions::llm::{bearer_authorization, chat_request, reply_text, ChatResponse, Choice, Message};
use voice_actions::pipeline::tts_language;

fn message(role: &str, content: &str) -> Message {
    Message { role: role.to_string(), content: content.to_string() }
}

#[test]
fn request_carries_one_user_message() {
    let r = chat_request("What is the weather?");
    assert_eq!(r.model, "gpt-4o-mini");
    assert_eq!(r.messages.len(), 1);
    assert_eq!(r.messages[0].role, "user");
    assert_eq!(r.messages[0].content, "What is the weather?");
}

#[test]
fn reply_is_first_choice() {
    let resp = ChatResponse {
        choices: vec![
            Choice { message: message("assistant", "Sunny.") },
            Choice { message: message("assistant", "Rainy.") },
        ],
    };
    assert_eq!(reply_text(resp), "Sunny.");
    assert_eq!(reply_text(ChatResponse { choices: vec![] }), "");
}

#[test]
fn bearer_header_value() {
    assert_eq!(bearer_authorization("SECRET-REDACTED"), "Bearer SECRET-REDACTED");
}

#[test]
fn tts_language_defaults_to_english() {
    assert_eq!(tts_language(None), "english");
    assert_eq!(tts_language(Some("zh")), "zh");
}
