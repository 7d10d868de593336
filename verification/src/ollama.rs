//! Ollama specifics that are decisions rather than wire plumbing: which
//! tags are cloud models, what the `think` field carries, how a failed
//! chat request reads, and when a cloud tag's stub gets pulled.
use vstd::prelude::*;

use crate::model::{effort_text, Effort};
use crate::text::{contains, contains_exec, ends_with_exec, extend_str, from_chars, starts_with_exec, str_eq, to_chars};

verus! {

/// A cloud tag: the model name ends in `:cloud` or `-cloud`.
pub open spec fn cloud_tag(model: Seq<char>) -> bool {
    ":cloud"@.is_suffix_of(model) || "-cloud"@.is_suffix_of(model)
}

/// Whether `model` names an Ollama cloud model (see `cloud_tag`); only
/// those are ever pulled on demand.
pub fn is_cloud_tag(model: &str) -> (r: bool)
    ensures
        r == cloud_tag(model@),
{
    let m = to_chars(model);
    let a = to_chars(":cloud");
    let b = to_chars("-cloud");
    ends_with_exec(m.as_slice(), a.as_slice()) || ends_with_exec(m.as_slice(), b.as_slice())
}

/// The value of Ollama's `think` field.
#[derive(Debug, PartialEq, Eq)]
pub enum ThinkWire {
    Flag(bool),
    Level(String),
}

/// `think` on the wire: absent unless asked for; low effort turns it off;
/// the `gpt-oss` family takes the effort's name instead of `true`.
pub open spec fn think_value(think: Option<bool>, effort: Effort, model: Seq<char>) -> Option<
    (bool, Option<Seq<char>>),
> {
    match think {
        None => None,
        Some(true) => if effort == Effort::Low {
            Some((false, None))
        } else if "gpt-oss"@.is_prefix_of(model) {
            Some((true, Some(effort_text(effort))))
        } else {
            Some((true, None))
        },
        Some(false) => Some((false, None)),
    }
}

/// The `think` field for a request (see `think_value`: a level when the
/// second part is `Some`, else the flag).
pub fn wire_think(think: Option<bool>, effort: Effort, model: &str) -> (r: Option<ThinkWire>)
    ensures
        match (r, think_value(think, effort, model@)) {
            (None, None) => true,
            (Some(ThinkWire::Flag(b)), Some((f, None))) => b == f,
            (Some(ThinkWire::Level(l)), Some((_, Some(t)))) => l@ == t,
            _ => false,
        },
{
    match think {
        None => None,
        Some(true) => {
            let m = to_chars(model);
            let g = to_chars("gpt-oss");
            if effort == Effort::Low {
                Some(ThinkWire::Flag(false))
            } else if starts_with_exec(m.as_slice(), g.as_slice()) {
                Some(ThinkWire::Level(crate::text::own(effort.name())))
            } else {
                Some(ThinkWire::Flag(true))
            }
        },
        Some(false) => Some(ThinkWire::Flag(false)),
    }
}

// ---------------------------------------------------------------------------
// Failures and cloud stubs
// ---------------------------------------------------------------------------

/// What a provider call fails with.
#[derive(Debug, Clone, PartialEq, Eq)]
pub enum ProviderError {
    /// The request did not get through; the transport's message.
    Http(String),
    Api { status: u16, message: String },
    Wire(String),
    ModelNotFound(String),
}

impl ProviderError {
    /// The error as the user reads it.
    pub fn message(&self) -> (r: String)
        ensures
            r@ == match *self {
                ProviderError::Http(m) => "http error: "@ + m@,
                ProviderError::Api { status, message } => "api error ("@ + crate::text::decimal(status as nat)
                    + "): "@ + message@,
                ProviderError::Wire(m) => "wire format error: "@ + m@,
                ProviderError::ModelNotFound(m) => "model not found: "@ + m@,
            },
    {
        let mut v: Vec<char>;
        match self {
            ProviderError::Http(m) => {
                v = to_chars("http error: ");
                extend_str(&mut v, m.as_str());
            },
            ProviderError::Api { status, message } => {
                v = to_chars("api error (");
                crate::text::push_decimal(&mut v, *status as u64);
                extend_str(&mut v, "): ");
                extend_str(&mut v, message.as_str());
            },
            ProviderError::Wire(m) => {
                v = to_chars("wire format error: ");
                extend_str(&mut v, m.as_str());
            },
            ProviderError::ModelNotFound(m) => {
                v = to_chars("model not found: ");
                extend_str(&mut v, m.as_str());
            },
        }
        from_chars(v.as_slice())
    }
}

/// A failed `/api/chat` status: a 404 whose body says "not found" means
/// the model is missing; anything else is an API error with the body.
pub open spec fn chat_failure_spec(status: u16, body: Seq<char>, model: Seq<char>, e: ProviderError) -> bool {
    if status == 404 && contains(body, "not found"@) {
        e matches ProviderError::ModelNotFound(m) && m@ == model
    } else {
        e matches ProviderError::Api { status: s, message } && s == status && message@ == body
    }
}

/// See `chat_failure_spec`.
pub fn chat_failure(status: u16, body: &str, model: &str) -> (r: ProviderError)
    ensures
        chat_failure_spec(status, body@, model@, r),
{
    let b = to_chars(body);
    let nf = to_chars("not found");
    if status == 404 && contains_exec(b.as_slice(), nf.as_slice()) {
        ProviderError::ModelNotFound(model.to_string())
    } else {
        ProviderError::Api { status, message: body.to_string() }
    }
}

/// The model whose stub to pull before the one retry: only a missing
/// cloud tag is pulled (never a multi-gigabyte local model).
pub fn pull_before_retry(e: &ProviderError) -> (r: Option<String>)
    ensures
        match *e {
            ProviderError::ModelNotFound(m) => if cloud_tag(m@) {
                r matches Some(x) && x@ == m@
            } else {
                r is None
            },
            _ => r is None,
        },
{
    match e {
        ProviderError::ModelNotFound(m) => if is_cloud_tag(m.as_str()) {
            Some(m.clone())
        } else {
            None
        },
        _ => None,
    }
}

/// A pull the server refused.
pub fn pull_failure(name: &str, status: u16, message: &str) -> (r: ProviderError)
    ensures
        r matches ProviderError::Api { status: s, message: m } && s == status && m@ == "pull of "@ + name@
            + " failed: "@ + message@ + " — run 'ollama signin' on this machine if you haven't"@,
{
    let mut v = to_chars("pull of ");
    extend_str(&mut v, name);
    extend_str(&mut v, " failed: ");
    extend_str(&mut v, message);
    extend_str(&mut v, " — run 'ollama signin' on this machine if you haven't");
    ProviderError::Api { status, message: from_chars(v.as_slice()) }
}

/// A pull that did not finish in time.
pub fn pull_timeout(name: &str) -> (r: ProviderError)
    ensures
        r matches ProviderError::Api { status: s, message: m } && s == 0 && m@ == "pull of "@ + name@ + " timed out"@,
{
    let mut v = to_chars("pull of ");
    extend_str(&mut v, name);
    extend_str(&mut v, " timed out");
    ProviderError::Api { status: 0, message: from_chars(v.as_slice()) }
}

/// The cloud tags whose stub is known present this session.
pub struct CloudStubs {
    names: Vec<String>,
}

impl CloudStubs {
    pub closed spec fn known(&self) -> Set<Seq<char>> {
        self.names@.map_values(|s: String| s@).to_set()
    }

    pub fn new() -> (r: CloudStubs)
        ensures
            r.known() == Set::<Seq<char>>::empty(),
    {
        let r = CloudStubs { names: Vec::new() };
        assert(r.known() =~= Set::<Seq<char>>::empty());
        r
    }

    /// Record `model`'s stub as present; whether it was not yet known
    /// (the ensure-pull runs only then, so at most once per model).
    pub fn note(&mut self, model: &str) -> (r: bool)
        ensures
            r == !old(self).known().contains(model@),
            final(self).known() == old(self).known().insert(model@),
    {
        let ghost vs = self.names@.map_values(|s: String| s@);
        let mut i: usize = 0;
        while i < self.names.len()
            invariant
                i <= self.names@.len(),
                vs == self.names@.map_values(|s: String| s@),
                forall|j: int| 0 <= j < i ==> vs[j] != model@,
            decreases self.names@.len() - i,
        {
            if str_eq(self.names[i].as_str(), model) {
                assert(vs[i as int] == model@);
                assert(vs.to_set().contains(model@));
                assert(vs.to_set().insert(model@) =~= vs.to_set());
                return false;
            }
            i = i + 1;
        }
        assert(!vs.to_set().contains(model@)) by {
            if vs.to_set().contains(model@) {
                let k = choose|k: int| 0 <= k < vs.len() && vs[k] == model@;
                assert(vs[k] == model@);
            }
        }
        self.names.push(model.to_string());
        assert(self.names@.map_values(|s: String| s@) =~= vs.push(model@));
        assert(vs.push(model@).to_set() =~= vs.to_set().insert(model@)) by {
            assert forall|x: Seq<char>| vs.push(model@).to_set().contains(x) <==> vs.to_set().insert(model@).contains(x) by {
                if vs.push(model@).to_set().contains(x) && x != model@ {
                    let k = choose|k: int| 0 <= k < vs.push(model@).len() && vs.push(model@)[k] == x;
                    assert(vs[k] == x);
                }
                if vs.to_set().contains(x) {
                    let k = choose|k: int| 0 <= k < vs.len() && vs[k] == x;
                    assert(vs.push(model@)[k] == x);
                }
                if x == model@ {
                    assert(vs.push(model@)[vs.len() as int] == x);
                }
            }
        }
        true
    }
}

/// A stub is pulled at most once per session: once `note` has seen a
/// model, noting it again says it was already known.
pub proof fn law_stub_noted_once(known: Set<Seq<char>>, model: Seq<char>)
    ensures
        known.insert(model).contains(model),
        known.insert(model).insert(model) == known.insert(model),
{
    assert(known.insert(model).insert(model) =~= known.insert(model));
}

} // verus!
