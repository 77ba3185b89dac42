//! The chat-completion exchange of the LLM guest module: the request it
//! sends for a text, and the text it takes from the answer.
use vstd::prelude::*;
use vstd::string::StringExecFns;

verus! {

/// The chat model that the request names.
pub open spec fn chat_model() -> Seq<char> {
    seq!['g', 'p', 't', '-', '4', 'o', '-', 'm', 'i', 'n', 'i']
}

/// The role of the one message that the request carries.
pub open spec fn user_role() -> Seq<char> {
    seq!['u', 's', 'e', 'r']
}

/// The scheme word of the authorization header, with its trailing space.
pub open spec fn bearer_prefix() -> Seq<char> {
    seq!['B', 'e', 'a', 'r', 'e', 'r', ' ']
}

/// One chat message.
#[derive(Debug)]
pub struct Message {
    pub role: String,
    pub content: String,
}

/// A chat-completion request.
#[derive(Debug)]
pub struct ChatRequest {
    pub model: String,
    pub messages: Vec<Message>,
}

/// One answer of a chat completion.
#[derive(Debug)]
pub struct Choice {
    pub message: Message,
}

/// A chat-completion response.
#[derive(Debug)]
pub struct ChatResponse {
    pub choices: Vec<Choice>,
}

/// The request for `input`: the chat model and one user message whose
/// content is the input.
pub fn chat_request(input: &str) -> (r: ChatRequest)
    ensures
        r.model@ == chat_model(),
        r.messages@.len() == 1,
        r.messages@[0].role@ == user_role(),
        r.messages@[0].content@ == input@,
{
    proof {
        reveal_strlit("gpt-4o-mini");
        reveal_strlit("user");
    }
    let model = String::from_str("gpt-4o-mini");
    let role = String::from_str("user");
    let content = String::from_str(input);
    let mut messages: Vec<Message> = Vec::new();
    messages.push(Message { role, content });
    assert(model@ =~= chat_model());
    assert(messages@[0].role@ =~= user_role());
    ChatRequest { model, messages }
}

/// The value of the authorization header for `api_key`.
pub fn bearer_authorization(api_key: &str) -> (v: String)
    ensures
        v@ == bearer_prefix() + api_key@,
{
    proof {
        reveal_strlit("Bearer ");
    }
    let prefix = String::from_str("Bearer ");
    assert(prefix@ =~= bearer_prefix());
    prefix.concat(api_key)
}

/// The text of the answer: the content of the first choice, or the empty
/// text when the response has no choice.
pub fn reply_text(response: ChatResponse) -> (text: String)
    ensures
        response.choices@.len() > 0 ==> text == response.choices@[0].message.content,
        response.choices@.len() == 0 ==> text@ == Seq::<char>::empty(),
{
    let mut choices = response.choices;
    if choices.len() > 0 {
        let first = choices.swap_remove(0);
        first.message.content
    } else {
        String::new()
    }
}

} // verus!
