//! Plain records exchanged with the file browser and the model server.

use vstd::prelude::*;

verus! {

/// Statistics and a short summary of one file.
#[derive(Clone, Debug)]
pub struct FileAnalysis {
    pub file_name: String,
    pub file_size: u64,
    pub line_count: usize,
    pub word_count: usize,
    pub char_count: usize,
    pub top_keywords: Vec<String>,
    pub summary: String,
}

/// One entry of a directory listing.
#[derive(Clone, Debug)]
pub struct FileInfo {
    pub name: String,
    pub path: String,
    pub is_dir: bool,
    pub size: u64,
    pub modified: String,
}

/// A completion request to the model server.
#[derive(Clone, Debug)]
pub struct OllamaRequest {
    pub model: String,
    pub prompt: String,
    pub stream: bool,
}

/// The model server's answer to a completion request.
#[derive(Clone, Debug)]
pub struct OllamaResponse {
    pub model: Option<String>,
    pub response: String,
    pub done: bool,
}

/// A model that the server offers.
#[derive(Clone, Debug)]
pub struct ModelInfo {
    pub name: String,
    pub size: u64,
    pub modified_at: String,
}

/// The server's list of models.
#[derive(Clone, Debug)]
pub struct ModelsResponse {
    pub models: Vec<ModelInfo>,
}

impl OllamaRequest {
    /// A request for one complete, unstreamed answer.
    pub fn new(model: String, prompt: String) -> (r: OllamaRequest)
        ensures
            r.model == model,
            r.prompt == prompt,
            !r.stream,
    {
        OllamaRequest { model, prompt, stream: false }
    }
}

} // verus!
