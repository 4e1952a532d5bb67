//! Text that goes to and comes from the translation service.

use vstd::prelude::*;
use crate::text::push_char;

verus! {

/// One message of a chat exchange.
#[derive(Clone)]
pub struct ChatGptMessage {
    pub role: String,
    pub content: String,
}

/// The instruction that precedes the target language in a translation prompt.
pub open spec fn prompt_head() -> Seq<char> {
    "You are a language translation app for VRChat. Do not answer the user. Only translate the words the user said. Answer only in the target language. Do not quote the translation. target_language="@
}

/// The prompt that asks for a transcript in the target language.
pub open spec fn prompt_text(target_language: Seq<char>, transcription: Seq<char>) -> Seq<char> {
    prompt_head() + target_language + " Text:\n\n"@ + transcription
}

/// The text shown in the chatbox: the translation, and below it the
/// transcript when the original is included.
pub open spec fn reply_of(
    translation: Seq<char>,
    transcription: Seq<char>,
    include_original: bool,
) -> Seq<char> {
    if include_original {
        translation.push('\n') + transcription
    } else {
        translation
    }
}

/// Builds the translation prompt for a transcript.
pub fn translation_prompt(target_language: &str, transcription: &str) -> (r: String)
    ensures
        r@ == prompt_text(target_language@, transcription@),
{
    let mut r = "You are a language translation app for VRChat. Do not answer the user. Only translate the words the user said. Answer only in the target language. Do not quote the translation. target_language=".to_owned();
    r.append(target_language);
    r.append(" Text:\n\n");
    r.append(transcription);
    r
}

/// The single user message that carries a prompt.
pub fn user_message(prompt: &str) -> (m: ChatGptMessage)
    ensures
        m.role@ == "user"@,
        m.content@ == prompt@,
{
    ChatGptMessage { role: "user".to_owned(), content: prompt.to_owned() }
}

/// The text to send to the chatbox for a translated utterance.
pub fn reply_text(translation: &str, transcription: &str, include_original: bool) -> (r: String)
    ensures
        r@ == reply_of(translation@, transcription@, include_original),
{
    let mut r = translation.to_owned();
    if include_original {
        push_char(&mut r, '\n');
        r.append(transcription);
    }
    r
}

} // verus!
