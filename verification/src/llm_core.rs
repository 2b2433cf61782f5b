//! The language-model core: model tiers and a mock instance per tier.
use vstd::prelude::*;
use vstd::string::StringExecFns;
use crate::text::{bytes_occur, decimal, occurs_in, push_decimal};

verus! {

#[derive(Debug, Clone, PartialEq, Eq, Hash, Structural)]
pub enum ModelTier {
    Pro,
    Plus,
    Standard,
    Lite,
}

/// The name a tier is shown by.
pub open spec fn tier_name(t: ModelTier) -> Seq<char> {
    match t {
        ModelTier::Pro => "Pro"@,
        ModelTier::Plus => "Plus"@,
        ModelTier::Standard => "Standard"@,
        ModelTier::Lite => "Lite"@,
    }
}

impl ModelTier {
    /// The name the tier is shown by.
    pub fn name(&self) -> (r: &'static str)
        ensures
            r@ == tier_name(*self),
    {
        match self {
            ModelTier::Pro => "Pro",
            ModelTier::Plus => "Plus",
            ModelTier::Standard => "Standard",
            ModelTier::Lite => "Lite",
        }
    }
}

/// The model core; weights and tokenizer will live here.
pub struct CathedralCore {}

/// A model instance of a given tier.
pub struct CathedralModelInstance {
    tier: ModelTier,
}

impl CathedralCore {
    pub fn new() -> (r: Self) {
        CathedralCore {}
    }

    pub fn for_tier(&self, tier: ModelTier) -> (r: CathedralModelInstance)
        ensures
            r.tier() == tier,
    {
        CathedralModelInstance { tier }
    }
}

/// `text` contains `word`.
pub open spec fn contains_text(text: Seq<char>, word: Seq<char>) -> bool {
    occurs_in(vstd::utf8::encode_utf8(text), vstd::utf8::encode_utf8(word))
}

/// The mock reasoning trace: none when the prompt mentions "L0".
pub open spec fn mock_thinking(prompt: Seq<char>) -> Option<Seq<char>> {
    if contains_text(prompt, "L0"@) {
        None
    } else {
        Some("<think>\nThinking process mock...\n</think>"@)
    }
}

/// The mock answer: fixed ones for prompts about a name or coffee, else
/// the prompt's length in bytes and the tier.
pub open spec fn mock_response(prompt: Seq<char>, tier: ModelTier) -> Seq<char> {
    if contains_text(prompt, "nome"@) {
        "Mock response: Meu nome é João."@
    } else if contains_text(prompt, "café"@) {
        "Mock response: Eu gosto de café."@
    } else {
        "Mock response for prompt length "@ + decimal(vstd::utf8::encode_utf8(prompt).len())
            + ". Tier: "@ + tier_name(tier)
    }
}

impl CathedralModelInstance {
    pub closed spec fn tier(&self) -> ModelTier {
        self.tier
    }

    /// A mock generation: the answer and the reasoning trace.
    pub fn generate_with_thinking(&self, prompt: &str) -> (r: Result<(String, Option<String>), String>)
        ensures
            r matches Ok((response, thinking)) && response@ == mock_response(prompt@, self.tier())
                && match thinking {
                Some(t) => mock_thinking(prompt@) == Some(t@),
                None => mock_thinking(prompt@) is None,
            },
    {
        let bytes = prompt.as_bytes();
        let thinking = if bytes_occur(bytes, "L0".as_bytes()) {
            None
        } else {
            Some("<think>\nThinking process mock...\n</think>".to_owned())
        };
        let response = if bytes_occur(bytes, "nome".as_bytes()) {
            "Mock response: Meu nome é João.".to_owned()
        } else if bytes_occur(bytes, "café".as_bytes()) {
            "Mock response: Eu gosto de café.".to_owned()
        } else {
            let mut s = "Mock response for prompt length ".to_owned();
            push_decimal(&mut s, bytes.len() as u64);
            s.append(". Tier: ");
            s.append(self.tier.name());
            s
        };
        Ok((response, thinking))
    }
}

} // verus!
