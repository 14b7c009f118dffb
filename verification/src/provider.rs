//! What sets the model providers apart in a request.

use vstd::prelude::*;

use crate::llm;
use crate::llm::{ChatRequest, StreamOptions};
use crate::text;
use crate::text::CharClass;

verus! {

/// The provider that the configuration names.
#[derive(Clone, Copy, PartialEq, Eq, Structural, Debug)]
pub enum Provider {
    Auto,
    Glm,
    OpenaiCompatible,
}

impl Default for Provider {
    fn default() -> (p: Provider)
        ensures
            p == Provider::Auto,
    {
        Provider::Auto
    }
}

impl Provider {
    pub open spec fn name(self) -> Seq<char> {
        match self {
            Provider::Auto => "auto"@,
            Provider::Glm => "glm"@,
            Provider::OpenaiCompatible => "openai_compatible"@,
        }
    }

    /// The provider with a name, if there is one.
    pub open spec fn named(value: Seq<char>) -> Option<Provider> {
        if value == "auto"@ {
            Some(Provider::Auto)
        } else if value == "glm"@ {
            Some(Provider::Glm)
        } else if value == "openai_compatible"@ {
            Some(Provider::OpenaiCompatible)
        } else {
            None
        }
    }

    /// The name as text.
    pub fn to_text(&self) -> (r: String)
        ensures
            r@ == self.name(),
    {
        text::copy_text(
            match self {
                Provider::Auto => "auto",
                Provider::Glm => "glm",
                Provider::OpenaiCompatible => "openai_compatible",
            },
        )
    }

    pub fn from_name(value: &str) -> (r: Result<Provider, String>)
        ensures
            match r {
                Ok(p) => Provider::named(value@) == Some(p),
                Err(e) => Provider::named(value@) is None && e@ == "未知 LLM provider："@ + value@,
            },
    {
        if text::same(value, "auto") {
            Ok(Provider::Auto)
        } else if text::same(value, "glm") {
            Ok(Provider::Glm)
        } else if text::same(value, "openai_compatible") {
            Ok(Provider::OpenaiCompatible)
        } else {
            let mut e = text::copy_text("未知 LLM provider：");
            e.append(value);
            Err(e)
        }
    }
}

impl std::str::FromStr for Provider {
    type Err = String;

    fn from_str(value: &str) -> (r: Result<Provider, String>)
        ensures
            match r {
                Ok(p) => Provider::named(value@) == Some(p),
                Err(e) => Provider::named(value@) is None && e@ == "未知 LLM provider："@ + value@,
            },
    {
        Provider::from_name(value)
    }
}

/// How hard a model is to think.
#[derive(Clone, Copy, PartialEq, Eq, Structural, Debug)]
pub enum ReasoningEffort {
    Low,
    High,
    Max,
}

impl Default for ReasoningEffort {
    fn default() -> (e: ReasoningEffort)
        ensures
            e == ReasoningEffort::Max,
    {
        ReasoningEffort::Max
    }
}

impl ReasoningEffort {
    pub open spec fn name(self) -> Seq<char> {
        match self {
            ReasoningEffort::Low => "low"@,
            ReasoningEffort::High => "high"@,
            ReasoningEffort::Max => "max"@,
        }
    }

    pub open spec fn named(value: Seq<char>) -> Option<ReasoningEffort> {
        if value == "low"@ {
            Some(ReasoningEffort::Low)
        } else if value == "high"@ {
            Some(ReasoningEffort::High)
        } else if value == "max"@ {
            Some(ReasoningEffort::Max)
        } else {
            None
        }
    }

    /// The name as text.
    pub fn to_text(&self) -> (r: String)
        ensures
            r@ == self.name(),
    {
        text::copy_text(
            match self {
                ReasoningEffort::Low => "low",
                ReasoningEffort::High => "high",
                ReasoningEffort::Max => "max",
            },
        )
    }

    pub fn from_name(value: &str) -> (r: Result<ReasoningEffort, String>)
        ensures
            match r {
                Ok(e) => ReasoningEffort::named(value@) == Some(e),
                Err(e) => ReasoningEffort::named(value@) is None && e@ == "未知 reasoning_effort："@
                    + value@,
            },
    {
        if text::same(value, "low") {
            Ok(ReasoningEffort::Low)
        } else if text::same(value, "high") {
            Ok(ReasoningEffort::High)
        } else if text::same(value, "max") {
            Ok(ReasoningEffort::Max)
        } else {
            let mut e = text::copy_text("未知 reasoning_effort：");
            e.append(value);
            Err(e)
        }
    }
}

impl std::str::FromStr for ReasoningEffort {
    type Err = String;

    fn from_str(value: &str) -> (r: Result<ReasoningEffort, String>)
        ensures
            match r {
                Ok(e) => ReasoningEffort::named(value@) == Some(e),
                Err(e) => ReasoningEffort::named(value@) is None && e@ == "未知 reasoning_effort："@
                    + value@,
            },
    {
        ReasoningEffort::from_name(value)
    }
}

/// Every provider and every effort is found again by its name, and by no other text.
pub proof fn law_names_are_read_back(p: Provider, e: ReasoningEffort, value: Seq<char>)
    ensures
        Provider::named(p.name()) == Some(p),
        ReasoningEffort::named(e.name()) == Some(e),
        Provider::named(value) == Some(p) <==> value == p.name(),
        ReasoningEffort::named(value) == Some(e) <==> value == e.name(),
{
    reveal_strlit("auto");
    reveal_strlit("glm");
    reveal_strlit("openai_compatible");
    reveal_strlit("low");
    reveal_strlit("high");
    reveal_strlit("max");
    assert("auto"@.len() == 4 && "glm"@.len() == 3 && "openai_compatible"@.len() == 17);
    assert("low"@.len() == 3 && "high"@.len() == 4 && "max"@.len() == 3);
    assert("low"@[0] == 'l' && "max"@[0] == 'm');
}

/// The provider that a request is made for.
#[derive(Clone, Copy, PartialEq, Eq, Structural, Debug)]
pub enum ResolvedProvider {
    Glm,
    OpenaiCompatible,
}

#[derive(Clone, Copy, Debug)]
pub struct RequestAdapter {
    pub provider: ResolvedProvider,
    pub reasoning_effort: ReasoningEffort,
}

/// Whether "glm" stands at a position with no letter right before or after it.
pub open spec fn glm_at(lower: Seq<char>, i: int) -> bool {
    &&& text::occurs_at(lower, "glm"@, i)
    &&& i == 0 || !text::is_ascii_letter(lower[i - 1])
    &&& i + 3 == lower.len() || !text::is_ascii_letter(lower[i + 3])
}

/// Whether a model name has "glm" as a word of its own, in small or capital letters.
pub open spec fn names_glm(model: Seq<char>) -> bool {
    exists|i: int| #[trigger] glm_at(text::lowered(model), i)
}

pub fn is_glm_model(model: &str) -> (b: bool)
    ensures
        b == names_glm(model@),
{
    let lower = text::to_ascii_lowercase(model);
    let v = text::chars_of(lower.as_str());
    proof {
        reveal_strlit("glm");
        assert("glm"@.len() == 3);
    }
    let mut i: usize = 0;
    while i < v.len()
        invariant
            v@ == text::lowered(model@),
            v@ == lower@,
            "glm"@.len() == 3,
            i <= v@.len(),
            forall|j: int| 0 <= j < i ==> !#[trigger] glm_at(v@, j),
        decreases v@.len() - i,
    {
        match text::find_from(lower.as_str(), "glm", i) {
            None => {
                proof {
                    text::lemma_found_from(v@, "glm"@, i as int);
                    assert forall|j: int| !#[trigger] glm_at(v@, j) by {}
                }
                return false;
            },
            Some(k) => {
                proof {
                    text::lemma_found_from(v@, "glm"@, i as int);
                }
                let free_before = k == 0 || !text::is_ascii_alphabetic(v[k - 1]);
                let free_after = k + 3 == v.len() || !text::is_ascii_alphabetic(v[k + 3]);
                if free_before && free_after {
                    assert(glm_at(v@, k as int));
                    return true;
                }
                assert(!glm_at(v@, k as int));
                i = k + 1;
            },
        }
    }
    assert forall|j: int| !#[trigger] glm_at(v@, j) by {}
    false
}

/// The provider that a request for a model is made for.
pub open spec fn resolved(provider: Provider, model: Seq<char>) -> ResolvedProvider {
    match provider {
        Provider::Glm => ResolvedProvider::Glm,
        Provider::OpenaiCompatible => ResolvedProvider::OpenaiCompatible,
        Provider::Auto => if names_glm(model) {
            ResolvedProvider::Glm
        } else {
            ResolvedProvider::OpenaiCompatible
        },
    }
}

/// A request carries the effort only where its provider is GLM: one that was chosen, or one that the
/// model's name tells where none was. The generic provider never gets the field, whatever the model.
pub proof fn law_effort_is_for_glm_only(provider: Provider, model: Seq<char>, r: RequestAdapter)
    requires
        r.provider == resolved(provider, model),
    ensures
        r.effort() is Some <==> provider == Provider::Glm || (provider == Provider::Auto && names_glm(
            model,
        )),
        provider == Provider::OpenaiCompatible ==> r.effort() is None,
{
}

impl RequestAdapter {
    pub fn new(provider: Provider, model: &str, reasoning_effort: ReasoningEffort) -> (r:
        RequestAdapter)
        ensures
            r.provider == resolved(provider, model@),
            r.reasoning_effort == reasoning_effort,
    {
        let provider = match provider {
            Provider::Glm => ResolvedProvider::Glm,
            Provider::OpenaiCompatible => ResolvedProvider::OpenaiCompatible,
            Provider::Auto => if is_glm_model(model) {
                ResolvedProvider::Glm
            } else {
                ResolvedProvider::OpenaiCompatible
            },
        };
        RequestAdapter { provider, reasoning_effort }
    }

    pub fn resolved_provider(self) -> (p: ResolvedProvider)
        ensures
            p == self.provider,
    {
        self.provider
    }

    /// What the field for the effort holds in a request.
    pub open spec fn effort(self) -> Option<Seq<char>> {
        match self.provider {
            ResolvedProvider::Glm => Some(self.reasoning_effort.name()),
            ResolvedProvider::OpenaiCompatible => None,
        }
    }

    /// Sets the field for the effort, which only one provider knows.
    pub fn adapt(self, request: &mut ChatRequest)
        ensures
            llm::opt_text(final(request).reasoning_effort) == self.effort(),
            final(request).model == old(request).model,
            final(request).messages == old(request).messages,
            final(request).tools == old(request).tools,
            final(request).temperature == old(request).temperature,
            final(request).max_tokens == old(request).max_tokens,
            final(request).stream == old(request).stream,
            final(request).stream_options == old(request).stream_options,
    {
        request.reasoning_effort = match self.provider {
            ResolvedProvider::Glm => Some(self.reasoning_effort.to_text()),
            ResolvedProvider::OpenaiCompatible => None,
        };
    }

    /// Makes a request one for a streamed reply with token counts.
    pub fn prepare_stream(self, request: &mut ChatRequest)
        ensures
            final(request).stream == Some(true),
            final(request).stream_options matches Some(o) && o.include_usage,
            llm::opt_text(final(request).reasoning_effort) == self.effort(),
            final(request).model == old(request).model,
            final(request).messages == old(request).messages,
            final(request).tools == old(request).tools,
            final(request).temperature == old(request).temperature,
            final(request).max_tokens == old(request).max_tokens,
    {
        request.stream = Some(true);
        request.stream_options = Some(StreamOptions { include_usage: true });
        self.adapt(request);
    }
}

/// Where requests for replies go: below the base address, which may end in slashes.
pub open spec fn completions_url(base_url: Seq<char>) -> Seq<char> {
    text::back_stripped(base_url, CharClass::Only('/')) + "/chat/completions"@
}

pub fn chat_url(base_url: &str) -> (r: String)
    ensures
        r@ == completions_url(base_url@),
{
    let mut r = text::strip_back(base_url, CharClass::Only('/'));
    r.append("/chat/completions");
    r
}

/// The names of providers and efforts.
pub proof fn law_names_are_these(value: Seq<char>)
    ensures
        Provider::named("auto"@) == Some(Provider::Auto),
        Provider::named("glm"@) == Some(Provider::Glm),
        Provider::named("openai_compatible"@) == Some(Provider::OpenaiCompatible),
        value != "auto"@ && value != "glm"@ && value != "openai_compatible"@ ==> Provider::named(
            value,
        ) is None,
        ReasoningEffort::named("low"@) == Some(ReasoningEffort::Low),
        ReasoningEffort::named("high"@) == Some(ReasoningEffort::High),
        ReasoningEffort::named("max"@) == Some(ReasoningEffort::Max),
        value != "low"@ && value != "high"@ && value != "max"@ ==> ReasoningEffort::named(
            value,
        ) is None,
{
    reveal_strlit("auto");
    reveal_strlit("glm");
    reveal_strlit("openai_compatible");
    reveal_strlit("low");
    reveal_strlit("high");
    reveal_strlit("max");
    assert("auto"@.len() == 4 && "glm"@.len() == 3 && "openai_compatible"@.len() == 17);
    assert("low"@.len() == 3 && "high"@.len() == 4 && "max"@.len() == 3 && "low"@[0] == 'l'
        && "max"@[0] == 'm');
}

/// A model is one of GLM's exactly where its name has these three letters, in whatever case, with no
/// letter right before or behind them. A named provider is taken as it is, whatever the model.
pub proof fn law_glm_is_known_by_its_name(provider: Provider, model: Seq<char>)
    ensures
        names_glm(model) <==> exists|i: int|
            #![trigger text::lowered(model)[i]]
            0 <= i && i + 3 <= model.len() && text::lowered(model)[i] == 'g' && text::lowered(
                model,
            )[i + 1] == 'l' && text::lowered(model)[i + 2] == 'm' && (i == 0
                || !text::is_ascii_letter(text::lowered(model)[i - 1])) && (i + 3 == model.len()
                || !text::is_ascii_letter(text::lowered(model)[i + 3])),
        provider == Provider::Glm ==> resolved(provider, model) == ResolvedProvider::Glm,
        provider == Provider::OpenaiCompatible ==> resolved(provider, model)
            == ResolvedProvider::OpenaiCompatible,
        provider == Provider::Auto ==> (resolved(provider, model) == ResolvedProvider::Glm <==> names_glm(
            model,
        )),
{
    let lower = text::lowered(model);
    reveal_strlit("glm");
    let glm = "glm"@;
    if names_glm(model) {
        let i = choose|i: int| #[trigger] glm_at(lower, i);
        let at = lower.subrange(i, i + 3);
        assert(at[0] == glm[0] && at[1] == glm[1] && at[2] == glm[2]);
        assert(lower[i] == 'g');
    }
    if exists|i: int|
        #![trigger text::lowered(model)[i]]
        0 <= i && i + 3 <= model.len() && text::lowered(model)[i] == 'g' && text::lowered(model)[i
            + 1] == 'l' && text::lowered(model)[i + 2] == 'm' && (i == 0 || !text::is_ascii_letter(
            text::lowered(model)[i - 1],
        )) && (i + 3 == model.len() || !text::is_ascii_letter(text::lowered(model)[i + 3])) {
        let i = choose|i: int|
            #![trigger text::lowered(model)[i]]
            0 <= i && i + 3 <= model.len() && text::lowered(model)[i] == 'g' && text::lowered(
                model,
            )[i + 1] == 'l' && text::lowered(model)[i + 2] == 'm' && (i == 0
                || !text::is_ascii_letter(text::lowered(model)[i - 1])) && (i + 3 == model.len()
                || !text::is_ascii_letter(text::lowered(model)[i + 3]));
        assert(lower.subrange(i, i + 3) =~= glm);
        assert(glm_at(lower, i));
    }
}

/// A request for GLM asks for the effort by its name.
pub proof fn law_effort_is_named(r: RequestAdapter)
    ensures
        r.provider == ResolvedProvider::Glm ==> r.effort() == Some(
            match r.reasoning_effort {
                ReasoningEffort::Low => "low"@,
                ReasoningEffort::High => "high"@,
                ReasoningEffort::Max => "max"@,
            },
        ),
        r.provider == ResolvedProvider::OpenaiCompatible ==> r.effort() is None,
{
}

proof fn lemma_slashes_gone(s: Seq<char>)
    ensures
        ({
            let b = text::back_stripped(s, CharClass::Only('/'));
            &&& b.len() <= s.len()
            &&& b == s.take(b.len() as int)
            &&& b.len() > 0 ==> b.last() != '/'
            &&& forall|i: int| b.len() <= i < s.len() ==> #[trigger] s[i] == '/'
        }),
    decreases s.len(),
{
    if s.len() > 0 && s.last() == '/' {
        lemma_slashes_gone(s.drop_last());
        let b = text::back_stripped(s, CharClass::Only('/'));
        assert(b =~= s.take(b.len() as int));
        assert forall|i: int| b.len() <= i < s.len() implies #[trigger] s[i] == '/' by {
            if i < s.len() - 1 {
                assert(s.drop_last()[i] == s[i]);
            }
        }
    } else {
        assert(s =~= s.take(s.len() as int));
    }
}

/// The model is asked below its base address, behind exactly one slash, however many that ends in.
pub proof fn law_one_slash_parts_the_address(base: Seq<char>) -> (n: int)
    ensures
        0 <= n <= base.len(),
        n > 0 ==> base[n - 1] != '/',
        forall|i: int| n <= i < base.len() ==> #[trigger] base[i] == '/',
        completions_url(base) == base.take(n) + "/chat/completions"@,
{
    lemma_slashes_gone(base);
    text::back_stripped(base, CharClass::Only('/')).len() as int
}

} // verus!
