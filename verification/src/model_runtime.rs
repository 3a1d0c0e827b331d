//! Model runtime: configuration, token accounting, the deterministic mock
//! backend and the stop-sequence handling of generated text.

use vstd::prelude::*;

use crate::text::{concat2, decimal, push_decimal, push_str, string_from_range, to_chars};
use vstd::string::StringSliceAdditionalSpecFns;

verus! {

broadcast use vstd::string::group_string_axioms;

/// Configuration for a local model instance.
#[derive(Debug, Clone)]
pub struct ModelConfig {
    pub name: String,
    pub model_path: String,
    pub architecture: String,
    pub quantization: String,
    pub context_length: u32,
    pub gpu_layers: u32,
    pub threads: u32,
}

impl ModelConfig {
    /// A config for CPU-only inference with the default settings.
    pub fn cpu_only(name: &str, model_path: &str) -> (c: ModelConfig)
        ensures
            c.name@ == name@,
            c.model_path@ == model_path@,
            c.architecture@ == "unknown"@,
            c.quantization@ == "Q4_K_M"@,
            c.context_length == 4096,
            c.gpu_layers == 0,
            c.threads == 4,
    {
        ModelConfig {
            name: name.to_owned(),
            model_path: model_path.to_owned(),
            architecture: String::from_str("unknown"),
            quantization: String::from_str("Q4_K_M"),
            context_length: 4096,
            gpu_layers: 0,
            threads: 4,
        }
    }

    /// A field-by-field copy.
    pub fn copy(&self) -> (c: ModelConfig)
        ensures
            c == *self,
    {
        ModelConfig {
            name: self.name.clone(),
            model_path: self.model_path.clone(),
            architecture: self.architecture.clone(),
            quantization: self.quantization.clone(),
            context_length: self.context_length,
            gpu_layers: self.gpu_layers,
            threads: self.threads,
        }
    }
}

/// Token usage statistics for a single inference request.
#[derive(Debug, Clone)]
pub struct TokenUsage {
    pub prompt_tokens: u32,
    pub completion_tokens: u32,
}

impl TokenUsage {
    /// Prompt plus completion tokens.
    pub fn total(&self) -> (r: u32)
        requires
            self.prompt_tokens + self.completion_tokens <= u32::MAX,
        ensures
            r == self.prompt_tokens + self.completion_tokens,
    {
        self.prompt_tokens + self.completion_tokens
    }
}

/// The response from an inference request.
#[derive(Debug, Clone)]
pub struct InferenceResponse {
    pub text: String,
    pub usage: TokenUsage,
    pub ttft_ms: u64,
    pub total_ms: u64,
}

/// Why an inference failed.
#[derive(Debug)]
pub enum InferenceError {
    NotLoaded(String),
    ContextLengthExceeded { requested: u32, max: u32 },
    Failed(String),
    Backend(String),
}

/// A deterministic backend for testing.
pub struct MockBackend {
    loaded: bool,
    config: Option<ModelConfig>,
    response_text: String,
}

/// The number of prompt tokens the mock backend counts: a quarter of the
/// prompt's UTF-8 byte length, truncated to 32 bits.
pub open spec fn mock_prompt_tokens(prompt: &str) -> u32 {
    (prompt.len() / 4) as u32
}

impl MockBackend {
    /// A loaded model is always described by a config.
    #[verifier::type_invariant]
    closed spec fn wf(&self) -> bool {
        self.loaded ==> self.config is Some
    }

    /// Whether a model is loaded.
    pub closed spec fn spec_loaded(&self) -> bool {
        self.loaded
    }

    /// The config of the last loaded model, if any.
    pub closed spec fn spec_config(&self) -> Option<ModelConfig> {
        self.config
    }

    /// The text that `infer` answers with.
    pub closed spec fn spec_response(&self) -> Seq<char> {
        self.response_text@
    }

    /// An unloaded backend that answers "mock response".
    pub fn new() -> (b: MockBackend)
        ensures
            !b.spec_loaded(),
            b.spec_config() is None,
            b.spec_response() == "mock response"@,
    {
        MockBackend { loaded: false, config: None, response_text: String::from_str("mock response") }
    }

    /// Set the text that `infer` answers with.
    pub fn with_response(self, text: &str) -> (b: MockBackend)
        ensures
            b.spec_loaded() == self.spec_loaded(),
            b.spec_config() == self.spec_config(),
            b.spec_response() == text@,
    {
        proof {
            use_type_invariant(&self);
        }
        MockBackend { loaded: self.loaded, config: self.config, response_text: text.to_owned() }
    }

    /// The name of the loaded model, if any.
    pub fn loaded_model_name(&self) -> (r: Option<&str>)
        ensures
            r matches Some(n) ==> self.spec_config() matches Some(c) && n@ == c.name@,
            r is None ==> self.spec_config() is None,
    {
        match &self.config {
            Some(c) => Some(c.name.as_str()),
            None => None,
        }
    }

    /// Load a model: remember its config and mark the backend loaded.
    pub fn load(&mut self, config: &ModelConfig) -> (r: Result<(), InferenceError>)
        ensures
            r is Ok,
            final(self).spec_loaded(),
            final(self).spec_config() == Some(*config),
            final(self).spec_response() == old(self).spec_response(),
    {
        self.config = Some(config.copy());
        self.loaded = true;
        Ok(())
    }

    /// Whether a model is loaded.
    pub fn is_loaded(&self) -> (r: bool)
        ensures
            r == self.spec_loaded(),
    {
        self.loaded
    }

    /// Run inference: fails when no model is loaded or when the prompt is
    /// longer than the context; otherwise answers the configured text with at
    /// most 64 completion tokens, 10 ms to first token and 50 ms in total.
    pub fn infer(&self, prompt: &str, max_tokens: u32) -> (r: Result<InferenceResponse, InferenceError>)
        ensures
            !self.spec_loaded() ==> (r matches Err(InferenceError::NotLoaded(m)) && m@
                == "no model loaded"@),
            self.spec_loaded() && mock_prompt_tokens(prompt) > self.spec_config()->0.context_length
                ==> (r matches Err(InferenceError::ContextLengthExceeded { requested, max })
                && requested == mock_prompt_tokens(prompt) && max
                == self.spec_config()->0.context_length),
            self.spec_loaded() && mock_prompt_tokens(prompt) <= self.spec_config()->0.context_length
                ==> (r matches Ok(resp) && resp.text@ == self.spec_response()
                && resp.usage.prompt_tokens == mock_prompt_tokens(prompt)
                && resp.usage.completion_tokens == (if max_tokens < 64 { max_tokens } else { 64 })
                && resp.ttft_ms == 10 && resp.total_ms == 50),
    {
        proof {
            use_type_invariant(self);
        }
        if !self.loaded {
            return Err(InferenceError::NotLoaded(String::from_str("no model loaded")));
        }
        let config = match &self.config {
            Some(c) => c,
            None => {
                return Err(InferenceError::NotLoaded(String::from_str("no model loaded")));
            },
        };
        let prompt_tokens = (prompt.len() / 4) as u32;
        let completion_tokens = if max_tokens < 64 { max_tokens } else { 64 };
        if prompt_tokens > config.context_length {
            return Err(
                InferenceError::ContextLengthExceeded {
                    requested: prompt_tokens,
                    max: config.context_length,
                },
            );
        }
        Ok(
            InferenceResponse {
                text: self.response_text.clone(),
                usage: TokenUsage { prompt_tokens, completion_tokens },
                ttft_ms: 10,
                total_ms: 50,
            },
        )
    }

    /// Unload the model and forget its config.
    pub fn unload(&mut self) -> (r: Result<(), InferenceError>)
        ensures
            r is Ok,
            !final(self).spec_loaded(),
            final(self).spec_config() is None,
            final(self).spec_response() == old(self).spec_response(),
    {
        self.loaded = false;
        self.config = None;
        Ok(())
    }
}

/// `s` ends with `suffix`.
pub open spec fn is_suffix(suffix: Seq<char>, s: Seq<char>) -> bool {
    suffix.len() <= s.len() && s.subrange(s.len() - suffix.len(), s.len() as int) == suffix
}

/// The first stop sequence (in list order) that the output ends with.
pub open spec fn first_stop(stops: Seq<String>, out: Seq<char>, from: int) -> Option<int>
    decreases stops.len() - from,
{
    if from < 0 || from >= stops.len() {
        None
    } else if is_suffix(stops[from]@, out) {
        Some(from)
    } else {
        first_stop(stops, out, from + 1)
    }
}

fn ends_with(s: &Vec<char>, suffix: &Vec<char>) -> (r: bool)
    ensures
        r == is_suffix(suffix@, s@),
{
    if suffix.len() > s.len() {
        return false;
    }
    let off = s.len() - suffix.len();
    let mut i: usize = 0;
    while i < suffix.len()
        invariant
            off + suffix.len() == s.len(),
            i <= suffix.len(),
            forall|j: int| 0 <= j < i ==> s@[off + j] == suffix@[j],
        decreases suffix.len() - i,
    {
        if s[off + i] != suffix[i] {
            assert(s@.subrange(off as int, s.len() as int)[i as int] != suffix@[i as int]);
            return false;
        }
        i += 1;
    }
    assert(s@.subrange(off as int, s.len() as int) =~= suffix@);
    true
}

/// `suffix` is a suffix of `s` exactly when it is no longer than `s` and
/// every one of its characters equals the character of `s` at the same
/// distance from the end.
pub proof fn law_suffix_charwise(suffix: Seq<char>, s: Seq<char>)
    ensures
        is_suffix(suffix, s) <==> (suffix.len() <= s.len() && forall|i: int|
            0 <= i < suffix.len() ==> #[trigger] s[s.len() - suffix.len() + i] == suffix[i]),
{
    if suffix.len() <= s.len() {
        let t = s.subrange(s.len() - suffix.len(), s.len() as int);
        if forall|i: int| 0 <= i < suffix.len() ==> #[trigger] s[s.len() - suffix.len() + i] == suffix[i] {
            assert forall|i: int| 0 <= i < suffix.len() implies t[i] == suffix[i] by {
                assert(t[i] == s[s.len() - suffix.len() + i]);
            }
            assert(t =~= suffix);
        }
        if t == suffix {
            assert forall|i: int| 0 <= i < suffix.len() implies #[trigger] s[s.len() - suffix.len() + i] == suffix[i] by {
                assert(t[i] == s[s.len() - suffix.len() + i]);
            }
        }
    }
}

/// A stop sequence is cut only when the text really ends with it, character
/// for character; when no stop sequence does, nothing is cut.
pub proof fn law_stop_only_on_full_suffix(stops: Seq<String>, out: Seq<char>, from: int)
    ensures
        first_stop(stops, out, from) matches Some(i) ==> from <= i < stops.len() && stops[i]@.len() <= out.len()
            && forall|k: int| 0 <= k < stops[i]@.len() ==> #[trigger] out[out.len() - stops[i]@.len() + k] == stops[i]@[k],
        (forall|i: int| from <= i < stops.len() ==> !(stops[i]@.len() <= out.len() && forall|k: int|
            0 <= k < stops[i]@.len() ==> #[trigger] out[out.len() - stops[i]@.len() + k] == stops[i]@[k]))
            ==> first_stop(stops, out, from) is None,
    decreases stops.len() - from,
{
    if 0 <= from < stops.len() {
        law_suffix_charwise(stops[from]@, out);
        law_stop_only_on_full_suffix(stops, out, from + 1);
    }
}

/// Stop-sequence handling of generated text: when the output ends with one of
/// the stop sequences, the first such sequence (in list order) is cut off and
/// generation stops; otherwise the output is kept and generation goes on.
pub fn apply_stop_sequences(output: &str, stops: &Vec<String>) -> (r: (String, bool))
    ensures
        first_stop(stops@, output@, 0) matches Some(i) ==> r.1 && r.0@ == output@.subrange(
            0,
            output@.len() - stops@[i]@.len(),
        ),
        first_stop(stops@, output@, 0) is None ==> !r.1 && r.0@ == output@,
{
    let out = to_chars(output);
    let mut i: usize = 0;
    while i < stops.len()
        invariant
            i <= stops.len(),
            out@ == output@,
            first_stop(stops@, output@, 0) == first_stop(stops@, output@, i as int),
        decreases stops.len() - i,
    {
        let stop = to_chars(stops[i].as_str());
        if ends_with(&out, &stop) {
            let r = string_from_range(&out, 0, out.len() - stop.len());
            return (r, true);
        }
        i += 1;
    }
    let r = string_from_range(&out, 0, out.len());
    assert(out@.subrange(0, out@.len() as int) =~= out@);
    (r, false)
}

/// Token-by-token generation: the text so far, how many tokens it took, and
/// whether generation is over. It ends at an end-of-generation token, when
/// the text comes to end with a stop sequence (which is cut off), or once
/// `max_tokens` tokens were generated.
pub struct Generation {
    output: String,
    completion_tokens: u32,
    max_tokens: u32,
    stops: Vec<String>,
    finished: bool,
}

impl Generation {
    #[verifier::type_invariant]
    closed spec fn wf(&self) -> bool {
        &&& self.completion_tokens <= self.max_tokens
        &&& !self.finished ==> self.completion_tokens < self.max_tokens
    }

    /// The text generated so far.
    pub closed spec fn spec_output(&self) -> Seq<char> {
        self.output@
    }

    /// The number of tokens generated so far.
    pub closed spec fn spec_tokens(&self) -> u32 {
        self.completion_tokens
    }

    /// The token budget.
    pub closed spec fn spec_max_tokens(&self) -> u32 {
        self.max_tokens
    }

    /// The stop sequences.
    pub closed spec fn spec_stops(&self) -> Seq<String> {
        self.stops@
    }

    /// Whether generation is over.
    pub closed spec fn spec_finished(&self) -> bool {
        self.finished
    }

    /// Start generating at most `max_tokens` tokens.
    pub fn new(max_tokens: u32, stops: Vec<String>) -> (g: Generation)
        ensures
            g.spec_output().len() == 0,
            g.spec_tokens() == 0,
            g.spec_max_tokens() == max_tokens,
            g.spec_stops() == stops@,
            g.spec_finished() == (max_tokens == 0),
            g.spec_tokens() <= g.spec_max_tokens(),
    {
        Generation { output: String::new(), completion_tokens: 0, max_tokens, stops, finished: max_tokens == 0 }
    }

    /// Whether another token is wanted.
    pub fn wants_token(&self) -> (r: bool)
        ensures
            r == !self.spec_finished(),
    {
        !self.finished
    }

    /// Take the next sampled token: an end-of-generation token ends it;
    /// otherwise its text `piece` is appended, and generation ends when the
    /// text now ends with a stop sequence (the first such in list order is
    /// cut off) or the budget is used up.
    pub fn on_token(&mut self, end_of_generation: bool, piece: &str)
        requires
            !old(self).spec_finished(),
        ensures
            final(self).spec_max_tokens() == old(self).spec_max_tokens(),
            final(self).spec_stops() == old(self).spec_stops(),
            final(self).spec_tokens() <= final(self).spec_max_tokens(),
            end_of_generation ==> final(self).spec_finished() && final(self).spec_output() == old(self).spec_output()
                && final(self).spec_tokens() == old(self).spec_tokens(),
            !end_of_generation ==> final(self).spec_tokens() == old(self).spec_tokens() + 1,
            !end_of_generation ==> (first_stop(old(self).spec_stops(), old(self).spec_output() + piece@, 0) matches Some(i)
                ==> final(self).spec_finished() && final(self).spec_output() == (old(self).spec_output() + piece@).subrange(
                0,
                (old(self).spec_output() + piece@).len() - old(self).spec_stops()[i]@.len(),
            )),
            !end_of_generation ==> (first_stop(old(self).spec_stops(), old(self).spec_output() + piece@, 0) is None
                ==> final(self).spec_output() == old(self).spec_output() + piece@ && final(self).spec_finished() == (
                old(self).spec_tokens() + 1 >= old(self).spec_max_tokens())),
    {
        proof {
            use_type_invariant(&*self);
        }
        if end_of_generation {
            self.finished = true;
            return;
        }
        let mut out = self.output.clone();
        push_str(&mut out, piece);
        let (cut, stopped) = apply_stop_sequences(out.as_str(), &self.stops);
        let count = self.completion_tokens + 1;
        let done = stopped || count >= self.max_tokens;
        *self = Generation {
            output: cut,
            completion_tokens: count,
            max_tokens: self.max_tokens,
            stops: self.stops.clone(),
            finished: done,
        };
    }

    /// The generated text and the number of tokens it took.
    pub fn finish(self) -> (r: (String, u32))
        ensures
            r.0@ == self.spec_output(),
            r.1 == self.spec_tokens(),
    {
        (self.output, self.completion_tokens)
    }
}

/// The number of prompt tokens fits in the model context.
pub fn check_context_length(prompt_tokens: u32, context_length: u32) -> (r: Result<(), InferenceError>)
    ensures
        prompt_tokens <= context_length <==> r is Ok,
        r matches Err(InferenceError::ContextLengthExceeded { requested, max }) ==> requested
            == prompt_tokens && max == context_length,
        r is Err ==> r matches Err(InferenceError::ContextLengthExceeded { .. }),
{
    if prompt_tokens > context_length {
        return Err(
            InferenceError::ContextLengthExceeded { requested: prompt_tokens, max: context_length },
        );
    }
    Ok(())
}


/// The rendered message of an inference error, as its `Display` prints it.
pub open spec fn inference_error_message(e: InferenceError) -> Seq<char> {
    match e {
        InferenceError::NotLoaded(m) => "model not loaded: "@ + m@,
        InferenceError::ContextLengthExceeded { requested, max } => "context length exceeded: requested "@
            + decimal(requested as nat) + ", max "@ + decimal(max as nat),
        InferenceError::Failed(m) => "inference failed: "@ + m@,
        InferenceError::Backend(m) => "backend error: "@ + m@,
    }
}

impl InferenceError {
    /// The rendered message of the error.
    pub fn message(&self) -> (r: String)
        ensures
            r@ == inference_error_message(*self),
    {
        match self {
            InferenceError::NotLoaded(m) => concat2("model not loaded: ", m.as_str()),
            InferenceError::ContextLengthExceeded { requested, max } => {
                let mut r = String::new();
                push_str(&mut r, "context length exceeded: requested ");
                push_decimal(&mut r, *requested as u128);
                push_str(&mut r, ", max ");
                push_decimal(&mut r, *max as u128);
                assert(r@ =~= inference_error_message(*self));
                r
            },
            InferenceError::Failed(m) => concat2("inference failed: ", m.as_str()),
            InferenceError::Backend(m) => concat2("backend error: ", m.as_str()),
        }
    }
}

} // verus!
