//! The classification oracle's identity: which service answers and under
//! which model name. Talking to the service happens outside the library;
//! here the choice is only carried and read back.
use vstd::prelude::*;

verus! {

/// The supported classification services.
#[derive(Debug, Clone, Copy, PartialEq, Eq, Structural)]
pub enum Provider {
    OpenAI,
    Anthropic,
    Ollama,
}

/// A configured oracle: the service and the model it should run.
pub struct LLMProvider {
    provider: Provider,
    model_name: String,
}

impl LLMProvider {
    /// The configured service.
    pub closed spec fn provider_spec(&self) -> Provider {
        self.provider
    }

    /// The configured model name.
    pub closed spec fn model_name_spec(&self) -> Seq<char> {
        self.model_name@
    }

    /// Carry an already-settled choice of service and model.
    pub fn from_parts(provider: Provider, model_name: String) -> (r: LLMProvider)
        ensures
            r.provider_spec() == provider,
            r.model_name_spec() == model_name@,
    {
        LLMProvider { provider, model_name }
    }

    /// The model this provider is configured to run.
    pub fn get_model_name(&self) -> (r: &str)
        ensures
            r@ == self.model_name_spec(),
    {
        self.model_name.as_str()
    }

    /// The service this provider is configured to call.
    pub fn get_provider(&self) -> (r: &Provider)
        ensures
            *r == self.provider_spec(),
    {
        &self.provider
    }
}

impl Clone for LLMProvider {
    fn clone(&self) -> (c: Self)
        ensures
            c.provider_spec() == self.provider_spec(),
            c.model_name_spec() == self.model_name_spec(),
    {
        LLMProvider { provider: self.provider, model_name: self.model_name.clone() }
    }
}

} // verus!
