//! The oracle: whatever turns a request in words into an answer in words.

use crate::error::OracleError;
use crate::json::{json_field, json_string, quote, text_field};
use vstd::prelude::*;
use vstd::string::StringExecFns;

verus! {

/// A text generator. Nothing is known of what it answers, nor of whether it answers
/// the same request twice alike.
pub trait LLM {
    /// Sends `prompt` and waits for the answer.
    fn prompt(&self, prompt: &str) -> Result<String, OracleError>;
}

/// A model behind the generate endpoint of an Ollama server.
///
/// The envelopes are framed and read here; sending them is left to the caller.
pub struct Ollama<'a> {
    pub endpoint: &'a str,
    pub model: &'a str,
}

/// The key of the answer in a response.
pub const RESPONSE_FIELD: &'static str = "response";

/// The request for one whole answer of a model to a prompt, without context, given
/// both as JSON string literals.
pub open spec fn request_frame(model: Seq<char>, prompt: Seq<char>) -> Seq<char> {
    "{\"model\":"@ + model + ",\"prompt\":"@ + prompt + ",\"stream\":false,\"context\":[]}"@
}

/// The answer in a response, given what was found under its key.
pub open spec fn answer_of(found: Option<Seq<char>>) -> Result<Seq<char>, OracleError> {
    match found {
        Some(answer) => Ok(answer),
        None => Err(OracleError::BadEnvelope),
    }
}

/// An envelope result over views.
pub open spec fn envelope_view(r: Result<String, OracleError>) -> Result<Seq<char>, OracleError> {
    match r {
        Ok(text) => Ok(text@),
        Err(e) => Err(e),
    }
}

impl<'a> Ollama<'a> {
    /// Frames a request from the JSON string literals of the model and the prompt.
    pub fn frame_request(model: &str, prompt: &str) -> (body: String)
        ensures
            body@ == request_frame(model@, prompt@),
    {
        let mut body = String::from_str("{\"model\":");
        body.append(model);
        body.append(",\"prompt\":");
        body.append(prompt);
        body.append(",\"stream\":false,\"context\":[]}");
        body
    }

    /// The body of the request that asks the model for its answer to `prompt`: the
    /// frame around the model's name and the prompt, each as a JSON string literal.
    pub fn request_body(&self, prompt: &str) -> (body: String)
        ensures
            body@ == request_frame(json_string(self.model@), json_string(prompt@)),
    {
        let model = quote(self.model).unwrap();
        let prompt = quote(prompt).unwrap();
        Ollama::frame_request(model.as_str(), prompt.as_str())
    }

    /// The answer that the body of a response holds.
    pub fn response_text(body: &str) -> (r: Result<String, OracleError>)
        ensures
            envelope_view(r) == answer_of(json_field(body@, RESPONSE_FIELD@)),
    {
        match text_field(body, RESPONSE_FIELD) {
            Some(answer) => Ok(answer),
            None => Err(OracleError::BadEnvelope),
        }
    }
}

} // verus!
