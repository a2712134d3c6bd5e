//! The model-provider abstraction: which backend a session talks to, what it
//! is allowed to do, and the order-preserving plumbing around the chat and
//! embedding calls.
//!
//! The network calls themselves happen outside the library; this module fixes
//! what is sent (a batch in its given order), decides which capabilities a
//! backend has, and validates what comes back.

use vstd::prelude::*;
use crate::errors::RagError;

verus! {

/// The hosted backends a session can select.
#[derive(Debug, Clone, Copy, PartialEq, Eq, Structural)]
pub enum Backend {
    /// The OpenAI chat and embedding API.
    OpenAI,
    /// The Gemini chat API.
    Gemini,
    /// The Groq chat API.
    Groq,
}

/// Whether a backend declares the optional embedding capability. Only the
/// OpenAI backend does; the others are chat-only.
pub open spec fn spec_supports_embedding(b: Backend) -> bool {
    b is OpenAI
}

/// The backend's display name.
pub open spec fn spec_backend_name(b: Backend) -> Seq<char> {
    match b {
        Backend::OpenAI => "OpenAI"@,
        Backend::Gemini => "Gemini"@,
        Backend::Groq => "Groq"@,
    }
}

/// The environment variable that holds the backend's credential.
pub open spec fn spec_credential_var(b: Backend) -> Seq<char> {
    match b {
        Backend::OpenAI => "OPENAI_API_KEY"@,
        Backend::Gemini => "GEMINI_API_KEY"@,
        Backend::Groq => "GROQ_API_KEY"@,
    }
}

/// The model each backend serves by default in this pipeline.
pub open spec fn spec_default_model(b: Backend) -> Seq<char> {
    match b {
        Backend::OpenAI => "gpt-4o"@,
        Backend::Gemini => "gemini-2.5-flash-lite"@,
        Backend::Groq => "llama-3.3-70b-versatile"@,
    }
}

impl Backend {
    /// Whether this backend declares the optional embedding capability.
    pub fn supports_embedding(&self) -> (r: bool)
        ensures
            r == spec_supports_embedding(*self),
    {
        match self {
            Backend::OpenAI => true,
            Backend::Gemini => false,
            Backend::Groq => false,
        }
    }

    /// The backend's display name.
    pub fn name(&self) -> (r: String)
        ensures
            r@ == spec_backend_name(*self),
    {
        match self {
            Backend::OpenAI => "OpenAI".to_owned(),
            Backend::Gemini => "Gemini".to_owned(),
            Backend::Groq => "Groq".to_owned(),
        }
    }

    /// The environment variable that must hold this backend's credential.
    pub fn credential_var(&self) -> (r: String)
        ensures
            r@ == spec_credential_var(*self),
    {
        match self {
            Backend::OpenAI => "OPENAI_API_KEY".to_owned(),
            Backend::Gemini => "GEMINI_API_KEY".to_owned(),
            Backend::Groq => "GROQ_API_KEY".to_owned(),
        }
    }
}

/// A provider selected once per session: the backend identity and the model
/// it serves. Immutable after selection.
#[derive(Debug, Clone)]
pub struct ModelProvider {
    /// Which backend the session talks to.
    pub backend: Backend,
    /// The model requested from that backend.
    pub model: String,
}

/// Compares two string slices, character for character.
fn str_eq(a: &str, b: &str) -> (r: bool)
    ensures
        r == (a@ == b@),
{
    let a_owned = a.to_owned();
    let b_owned = b.to_owned();
    a_owned.eq(&b_owned)
}

/// Resolves a backend menu name to the provider configuration the session
/// will use: its backend identity and default model. Returns `None` exactly
/// for a name that no backend carries.
pub fn load_model(provider: &str) -> (r: Option<ModelProvider>)
    ensures
        match r {
            Some(p) => {
                &&& provider@ == spec_backend_name(p.backend)
                &&& p.model@ == spec_default_model(p.backend)
            },
            None => {
                &&& provider@ != spec_backend_name(Backend::OpenAI)
                &&& provider@ != spec_backend_name(Backend::Gemini)
                &&& provider@ != spec_backend_name(Backend::Groq)
            },
        },
{
    if str_eq(provider, "OpenAI") {
        Some(ModelProvider { backend: Backend::OpenAI, model: "gpt-4o".to_owned() })
    } else if str_eq(provider, "Gemini") {
        Some(ModelProvider { backend: Backend::Gemini, model: "gemini-2.5-flash-lite".to_owned() })
    } else if str_eq(provider, "Groq") {
        Some(ModelProvider { backend: Backend::Groq, model: "llama-3.3-70b-versatile".to_owned() })
    } else {
        None
    }
}

/// A planned batch embedding call: the backend it is bound for and the inputs
/// in the order they must be embedded.
#[derive(Debug)]
pub struct EmbedRequest {
    /// The backend that will serve the batch.
    pub backend: Backend,
    /// The strings to embed, in order.
    pub inputs: Vec<String>,
}

/// Plans a batch embedding call on `provider`.
///
/// Fails with `UnsupportedCapability` exactly when the backend declares no
/// embedding capability; otherwise the request carries the inputs unchanged
/// and in their given order.
pub fn embed_request(provider: &ModelProvider, inputs: Vec<String>) -> (r: Result<
    EmbedRequest,
    RagError,
>)
    ensures
        match r {
            Ok(req) => {
                &&& spec_supports_embedding(provider.backend)
                &&& req.backend == provider.backend
                &&& req.inputs@ == inputs@
            },
            Err(e) => {
                &&& !spec_supports_embedding(provider.backend)
                &&& e is UnsupportedCapability
            },
        },
{
    if provider.backend.supports_embedding() {
        Ok(EmbedRequest { backend: provider.backend, inputs })
    } else {
        Err(RagError::UnsupportedCapability)
    }
}

/// Validates a backend's embedding response: the batch must hold one vector
/// per input, each with the declared number of coordinates.
///
/// Fails with `ProviderError` (naming the backend) exactly when the count
/// disagrees with `expected`, and with `DimensionMismatch` when the count
/// agrees but some vector does not have `dims` coordinates; otherwise the
/// vectors are returned unchanged and in the order the backend sent them.
pub fn accept_embeddings(provider: &ModelProvider, expected: usize, dims: usize, raw: Vec<
    Vec<i32>,
>) -> (r: Result<Vec<Vec<i32>>, RagError>)
    ensures
        match r {
            Ok(vs) => {
                &&& raw@.len() == expected
                &&& forall|i: int| 0 <= i < raw@.len() ==> (#[trigger] raw@[i])@.len() == dims
                &&& vs == raw
            },
            Err(e) => match e {
                RagError::ProviderError { backend, cause: _ } => {
                    &&& raw@.len() != expected
                    &&& backend@ == spec_backend_name(provider.backend)
                },
                RagError::DimensionMismatch => {
                    &&& raw@.len() == expected
                    &&& exists|i: int| 0 <= i < raw@.len() && (#[trigger] raw@[i])@.len() != dims
                },
                _ => false,
            },
        },
{
    if raw.len() != expected {
        return Err(RagError::ProviderError {
            backend: provider.backend.name(),
            cause: "embedding batch size disagrees with the request".to_owned(),
        });
    }
    let mut i: usize = 0;
    let n = raw.len();
    while i < n
        invariant
            i <= n,
            n == raw@.len(),
            n == expected,
            forall|k: int| 0 <= k < i ==> (#[trigger] raw@[k])@.len() == dims,
        decreases n - i,
    {
        if raw[i].len() != dims {
            return Err(RagError::DimensionMismatch);
        }
        i = i + 1;
    }
    Ok(raw)
}

/// Embedding order preservation: for a batch of N inputs that was planned,
/// served and stored, row i of the outcome pairs input i with the i-th
/// returned vector — the pipeline neither reorders nor drops entries.
pub proof fn lemma_embedding_order(
    inputs: Seq<String>,
    req: EmbedRequest,
    returned: Seq<Vec<i32>>,
    paired: Seq<(String, Vec<i32>)>,
)
    requires
        // What `embed_request` guarantees of the planned batch.
        req.inputs@ == inputs,
        // The backend guarantee: one vector per planned input.
        returned.len() == req.inputs@.len(),
        // What `accept_embeddings` and `prepare_data` guarantee of the
        // stored pairing.
        paired.len() == returned.len(),
        forall|i: int| 0 <= i < paired.len()
            ==> (#[trigger] paired[i]).0 == req.inputs@[i] && paired[i].1@ == returned[i]@,
    ensures
        paired.len() == inputs.len(),
        forall|i: int| 0 <= i < paired.len()
            ==> (#[trigger] paired[i]).0 == inputs[i] && paired[i].1@ == returned[i]@,
{
}

/// The chat content a backend handed back, or the fixed fallback text when
/// it produced none.
pub fn materialize_chat_content(content: Option<String>) -> (r: String)
    ensures
        match content {
            Some(s) => r@ == s@,
            None => r@ == "(no response)"@,
        },
{
    match content {
        Some(s) => s,
        None => "(no response)".to_owned(),
    }
}

/// The fragments a streaming chat call has delivered so far, in emission
/// order. Fragments are only ever appended: output already delivered is not
/// retracted, even when the stream later fails.
#[derive(Debug)]
pub struct StreamTranscript {
    /// The delivered fragments, in emission order.
    pub fragments: Vec<String>,
}

impl StreamTranscript {
    /// An empty transcript: nothing delivered yet.
    pub fn new() -> (r: StreamTranscript)
        ensures
            r.fragments@.len() == 0,
    {
        StreamTranscript { fragments: Vec::new() }
    }

    /// Records one more delivered fragment; everything delivered before
    /// stays, in order.
    pub fn push_fragment(&mut self, fragment: String)
        ensures
            final(self).fragments@ == old(self).fragments@.push(fragment),
    {
        self.fragments.push(fragment);
    }

    /// The full text delivered so far: the fragments concatenated in
    /// emission order.
    pub fn concatenated(&self) -> (r: String)
        ensures
            r@ == self.fragments.deep_view().flatten(),
    {
        let ghost fs = self.fragments.deep_view();
        let mut r = String::new();
        let mut i: usize = 0;
        proof {
            assert(fs.take(0) =~= Seq::<Seq<char>>::empty());
            assert(fs.take(0).flatten() =~= Seq::<char>::empty());
        }
        while i < self.fragments.len()
            invariant
                i <= fs.len(),
                fs == self.fragments.deep_view(),
                r@ == fs.take(i as int).flatten(),
            decreases fs.len() - i,
        {
            r.append(self.fragments[i].as_str());
            proof {
                assert(fs.take(i + 1) =~= fs.take(i as int).push(fs[i as int]));
                fs.take(i as int).lemma_flatten_push(fs[i as int]);
            }
            i = i + 1;
        }
        proof {
            assert(fs.take(fs.len() as int) =~= fs);
        }
        r
    }
}

} // verus!
