use vstd::prelude::*;

use crate::capabilities::ModelCapabilities;
use crate::message::{Message, MessageContent};

verus! {

/// How a conversation is billed beyond its text: a charge for each message,
/// and a flat amount added once to the estimate.
pub type TokensCountFactors = (usize, usize);

/// Whether `i` is the least index of `s` whose element satisfies `p`.
pub open spec fn is_first<A>(s: Seq<A>, p: spec_fn(A) -> bool, i: int) -> bool {
    &&& 0 <= i < s.len()
    &&& p(s[i])
    &&& forall|j: int| 0 <= j < i ==> !p(#[trigger] s[j])
}

/// Whether some element of `s` satisfies `p`.
pub open spec fn any_of<A>(s: Seq<A>, p: spec_fn(A) -> bool) -> bool {
    exists|i: int| 0 <= i < s.len() && p(#[trigger] s[i])
}

/// The least index of `s` whose element satisfies `p` (meaningful when
/// `any_of(s, p)`).
pub open spec fn first_index<A>(s: Seq<A>, p: spec_fn(A) -> bool) -> int {
    choose|i: int| is_first(s, p, i)
}

/// An element that satisfies `p` at some index has a least such index.
pub proof fn lemma_first_index<A>(s: Seq<A>, p: spec_fn(A) -> bool, k: int)
    requires
        0 <= k < s.len(),
        p(s[k]),
    ensures
        is_first(s, p, first_index(s, p)),
        first_index(s, p) <= k,
    decreases k,
{
    if exists|j: int| 0 <= j < k && p(#[trigger] s[j]) {
        let j = choose|j: int| 0 <= j < k && p(#[trigger] s[j]);
        lemma_first_index(s, p, j);
    } else {
        assert(is_first(s, p, k));
    }
}

/// Two least indices for one predicate are the same index.
pub proof fn lemma_first_unique<A>(s: Seq<A>, p: spec_fn(A) -> bool, i: int)
    requires
        is_first(s, p, i),
    ensures
        first_index(s, p) == i,
{
    let k = first_index(s, p);
    assert(is_first(s, p, k));
    if k < i {
        assert(!p(s[k]));
    }
    if i < k {
        assert(!p(s[i]));
    }
}

/// Whether a character is the separator of a query.
pub open spec fn is_colon() -> spec_fn(char) -> bool {
    |c: char| c == ':'
}

/// The backend part of a query: the text before its first `:`, or all of it.
pub open spec fn query_backend(q: Seq<char>) -> Seq<char> {
    if any_of(q, is_colon()) {
        q.take(first_index(q, is_colon()))
    } else {
        q
    }
}

/// The model part of a query: the text after its first `:`, or nothing.
pub open spec fn query_model(q: Seq<char>) -> Seq<char> {
    if any_of(q, is_colon()) {
        q.skip(first_index(q, is_colon()) + 1)
    } else {
        Seq::empty()
    }
}

/// A model descriptor seen as plain values.
pub ghost struct ModelView {
    pub client_name: Seq<char>,
    pub name: Seq<char>,
    pub max_tokens: Option<usize>,
    pub tokens_count_factors: (usize, usize),
    pub capabilities: ModelCapabilities,
}

impl ModelView {
    /// The identifier `backend:model`.
    pub open spec fn id(self) -> Seq<char> {
        self.client_name + seq![':'] + self.name
    }

    /// The same descriptor addressed under another model name.
    pub open spec fn renamed(self, name: Seq<char>) -> ModelView {
        ModelView { name, ..self }
    }
}

/// Whether a descriptor's identifier is `id`.
pub open spec fn has_id(id: Seq<char>) -> spec_fn(ModelView) -> bool {
    |v: ModelView| v.id() == id
}

/// Whether a descriptor belongs to `backend`.
pub open spec fn has_backend(backend: Seq<char>) -> spec_fn(ModelView) -> bool {
    |v: ModelView| v.client_name == backend
}

/// The first entry of `r` owned by `backend`, if any.
pub open spec fn first_by_backend(r: Seq<ModelView>, backend: Seq<char>) -> Option<ModelView> {
    if any_of(r, has_backend(backend)) {
        Some(r[first_index(r, has_backend(backend))])
    } else {
        None
    }
}

/// What a lookup of `q` in the registry `r` resolves to.
pub open spec fn find_spec(r: Seq<ModelView>, q: Seq<char>) -> Option<ModelView> {
    let backend = query_backend(q);
    let model = query_model(q);
    if model.len() > 0 {
        if any_of(r, has_id(q)) {
            Some(r[first_index(r, has_id(q))])
        } else {
            match first_by_backend(r, backend) {
                Some(v) => Some(v.renamed(model)),
                None => None,
            }
        }
    } else {
        first_by_backend(r, backend)
    }
}

/// The hard limit a requested `max_tokens` value sets: zero means none.
pub open spec fn normalized_limit(max_tokens: Option<usize>) -> Option<usize> {
    match max_tokens {
        Some(n) => if n == 0 {
            None
        } else {
            Some(n)
        },
        None => None,
    }
}

/// What the text of one message costs, given the tokenizer's count for it.
pub open spec fn content_tokens(m: Message, count: usize) -> int {
    match m.content {
        MessageContent::Text(_) => count as int,
        MessageContent::Array(_) => 0,
    }
}

/// What the text of the first `n` messages costs.
pub open spec fn body_tokens_upto(msgs: Seq<Message>, counts: Seq<usize>, n: int) -> int
    decreases n,
{
    if n <= 0 {
        0
    } else {
        body_tokens_upto(msgs, counts, n - 1) + content_tokens(msgs[n - 1], counts[n - 1])
    }
}

/// What the text of all messages costs.
pub open spec fn body_tokens(msgs: Seq<Message>, counts: Seq<usize>) -> int {
    body_tokens_upto(msgs, counts, msgs.len() as int)
}

/// The estimate for a conversation: nothing when it is empty, else a charge
/// for each message (one fewer unless the user spoke last) and the text.
pub open spec fn total_tokens_spec(per_message: usize, msgs: Seq<Message>, counts: Seq<usize>) -> int {
    if msgs.len() == 0 {
        0
    } else {
        let n = msgs.len() as int;
        let charged = if msgs.last().role is User {
            n
        } else {
            n - 1
        };
        charged * per_message + body_tokens(msgs, counts)
    }
}

/// Whether an estimate of `total` tokens breaks the limit of `v`, the bias
/// included.
pub open spec fn exceeds_limit(v: ModelView, total: int) -> bool {
    match v.max_tokens {
        Some(max) => total + v.tokens_count_factors.1 >= max,
        None => false,
    }
}

/// The cost of a prefix never falls as the prefix grows.
proof fn lemma_body_monotone(msgs: Seq<Message>, counts: Seq<usize>, i: int, j: int)
    requires
        0 <= i <= j,
    ensures
        0 <= body_tokens_upto(msgs, counts, i) <= body_tokens_upto(msgs, counts, j),
    decreases j,
{
    if i < j {
        lemma_body_monotone(msgs, counts, i, j - 1);
    } else if i > 0 {
        lemma_body_monotone(msgs, counts, 0, i - 1);
    }
}

/// The registry seen as plain values.
pub open spec fn registry_view(models: Seq<Model>) -> Seq<ModelView> {
    models.map_values(|m: Model| m@)
}

/// The error of a conversation whose estimate reaches the model's limit.
#[derive(Debug, Clone, Copy, PartialEq, Eq, Structural)]
pub struct LimitExceeded;

/// One addressable model of a backend.
#[derive(Debug)]
pub struct Model {
    pub client_name: String,
    pub name: String,
    pub max_tokens: Option<usize>,
    pub tokens_count_factors: TokensCountFactors,
    pub capabilities: ModelCapabilities,
}

impl View for Model {
    type V = ModelView;

    open spec fn view(&self) -> ModelView {
        ModelView {
            client_name: self.client_name@,
            name: self.name@,
            max_tokens: self.max_tokens,
            tokens_count_factors: self.tokens_count_factors,
            capabilities: self.capabilities,
        }
    }
}

impl Clone for Model {
    /// A field-by-field copy.
    fn clone(&self) -> (r: Self)
        ensures
            r@ == self@,
    {
        Model {
            client_name: self.client_name.clone(),
            name: self.name.clone(),
            max_tokens: self.max_tokens,
            tokens_count_factors: self.tokens_count_factors,
            capabilities: self.capabilities,
        }
    }
}

impl Default for Model {
    fn default() -> (r: Self)
        ensures
            r@.client_name.len() == 0,
            r@.name.len() == 0,
            r@.max_tokens is None,
            r@.tokens_count_factors == (0usize, 0usize),
            r@.capabilities == (ModelCapabilities { text: true, vision: false }),
    {
        proof {
            reveal_strlit("");
        }
        Model::new("", "")
    }
}

/// Splits a query at its first `:` into backend and model parts.
fn split_query(value: &str) -> (r: (String, String))
    ensures
        r.0@ == query_backend(value@),
        r.1@ == query_model(value@),
{
    let n = value.unicode_len();
    let mut i: usize = 0;
    while i < n
        invariant
            n == value@.len(),
            i <= n,
            forall|j: int| 0 <= j < i ==> !is_colon()(#[trigger] value@[j]),
        decreases n - i,
    {
        if value.get_char(i) == ':' {
            proof {
                assert(is_first(value@, is_colon(), i as int));
                lemma_first_unique(value@, is_colon(), i as int);
            }
            let backend = String::from_str(value.substring_char(0, i));
            let model = String::from_str(value.substring_char(i + 1, n));
            return (backend, model);
        }
        i = i + 1;
    }
    (String::from_str(value), String::new())
}

impl Model {
    /// Whether the descriptor holds a limit only where one is set.
    pub open spec fn wf(&self) -> bool {
        self.max_tokens != Some(0usize)
    }

    /// A descriptor of `name` under the backend `client_name`, with no limit,
    /// no extra charges and text capability only.
    pub fn new(client_name: &str, name: &str) -> (r: Self)
        ensures
            r@.client_name == client_name@,
            r@.name == name@,
            r@.max_tokens is None,
            r@.tokens_count_factors == (0usize, 0usize),
            r@.capabilities == (ModelCapabilities { text: true, vision: false }),
            r.wf(),
    {
        Model {
            client_name: String::from_str(client_name),
            name: String::from_str(name),
            max_tokens: None,
            tokens_count_factors: (0, 0),
            capabilities: ModelCapabilities::text_only(),
        }
    }

    /// Index of the first entry whose identifier is `id`.
    fn position_of_id(models: &[Self], id: &String) -> (r: Option<usize>)
        ensures
            match r {
                Some(i) => is_first(registry_view(models@), has_id(id@), i as int),
                None => !any_of(registry_view(models@), has_id(id@)),
            },
    {
        let ghost r = registry_view(models@);
        let mut i: usize = 0;
        while i < models.len()
            invariant
                r == registry_view(models@),
                i <= models@.len(),
                forall|j: int| 0 <= j < i ==> !has_id(id@)(#[trigger] r[j]),
            decreases models@.len() - i,
        {
            if models[i].id() == *id {
                return Some(i);
            }
            i = i + 1;
        }
        None
    }

    /// Index of the first entry owned by `backend`.
    fn position_of_backend(models: &[Self], backend: &String) -> (r: Option<usize>)
        ensures
            match r {
                Some(i) => is_first(registry_view(models@), has_backend(backend@), i as int),
                None => !any_of(registry_view(models@), has_backend(backend@)),
            },
    {
        let ghost r = registry_view(models@);
        let mut i: usize = 0;
        while i < models.len()
            invariant
                r == registry_view(models@),
                i <= models@.len(),
                forall|j: int| 0 <= j < i ==> !has_backend(backend@)(#[trigger] r[j]),
            decreases models@.len() - i,
        {
            if models[i].client_name == *backend {
                return Some(i);
            }
            i = i + 1;
        }
        None
    }

    /// Resolves `value`, of the form `backend` or `backend:model`, against
    /// the registry `models`. With a model part, an entry with exactly that
    /// identifier wins; else the first entry of the backend is returned under
    /// the requested model name. Without one (or with an empty one), the
    /// first entry of the backend is returned.
    pub fn find(models: &[Self], value: &str) -> (r: Option<Self>)
        ensures
            match r {
                Some(m) => find_spec(registry_view(models@), value@) == Some(m@),
                None => find_spec(registry_view(models@), value@) is None,
            },
    {
        let ghost rv = registry_view(models@);
        let (client_name, model_name) = split_query(value);
        if model_name.unicode_len() > 0 {
            let whole = String::from_str(value);
            match Self::position_of_id(models, &whole) {
                Some(i) => {
                    proof {
                        lemma_first_unique(rv, has_id(value@), i as int);
                    }
                    return Some(models[i].clone());
                },
                None => {},
            }
        }
        match Self::position_of_backend(models, &client_name) {
            Some(i) => {
                proof {
                    lemma_first_unique(rv, has_backend(client_name@), i as int);
                }
                let mut found = models[i].clone();
                if model_name.unicode_len() > 0 {
                    found.name = model_name;
                }
                Some(found)
            },
            None => None,
        }
    }

    /// The identifier `backend:model`.
    pub fn id(&self) -> (r: String)
        ensures
            r@ == self@.id(),
    {
        let mut s = self.client_name.clone();
        s.append(":");
        s.append(self.name.as_str());
        proof {
            reveal_strlit(":");
        }
        s
    }

    /// The descriptor with its capabilities replaced.
    pub fn set_capabilities(self, capabilities: ModelCapabilities) -> (r: Self)
        ensures
            r@ == (ModelView { capabilities, ..self@ }),
            self.wf() ==> r.wf(),
    {
        let mut m = self;
        m.capabilities = capabilities;
        m
    }

    /// The descriptor with its limit replaced; `None` and `Some(0)` both
    /// mean no limit.
    pub fn set_max_tokens(self, max_tokens: Option<usize>) -> (r: Self)
        ensures
            r@ == (ModelView { max_tokens: normalized_limit(max_tokens), ..self@ }),
            r.wf(),
    {
        let mut m = self;
        match max_tokens {
            None => m.max_tokens = None,
            Some(n) => if n == 0 {
                m.max_tokens = None
            } else {
                m.max_tokens = Some(n)
            },
        }
        m
    }

    /// The descriptor with its charges replaced.
    pub fn set_tokens_count_factors(self, tokens_count_factors: TokensCountFactors) -> (r: Self)
        ensures
            r@ == (ModelView { tokens_count_factors, ..self@ }),
            self.wf() ==> r.wf(),
    {
        let mut m = self;
        m.tokens_count_factors = tokens_count_factors;
        m
    }

    /// What the text of `messages` costs: `text_tokens[i]` is the tokenizer's
    /// count for the text of `messages[i]`, and structured content counts
    /// nothing.
    pub fn messages_tokens(&self, messages: &[Message], text_tokens: &[usize]) -> (r: usize)
        requires
            text_tokens@.len() == messages@.len(),
            body_tokens(messages@, text_tokens@) <= usize::MAX,
        ensures
            r == body_tokens(messages@, text_tokens@),
    {
        let n = messages.len();
        let mut sum: usize = 0;
        let mut i: usize = 0;
        while i < n
            invariant
                n == messages@.len(),
                text_tokens@.len() == n,
                i <= n,
                sum == body_tokens_upto(messages@, text_tokens@, i as int),
                body_tokens(messages@, text_tokens@) <= usize::MAX,
            decreases n - i,
        {
            proof {
                lemma_body_monotone(messages@, text_tokens@, i + 1, n as int);
            }
            match &messages[i].content {
                MessageContent::Text(_) => sum = sum + text_tokens[i],
                MessageContent::Array(_) => {},
            }
            i = i + 1;
        }
        sum
    }

    /// The estimate for `messages` (see `messages_tokens` for `text_tokens`):
    /// nothing for an empty conversation, else the per-message charge for
    /// each message, one fewer unless the last one is the user's, plus the
    /// text.
    pub fn total_tokens(&self, messages: &[Message], text_tokens: &[usize]) -> (r: usize)
        requires
            text_tokens@.len() == messages@.len(),
            total_tokens_spec(self.tokens_count_factors.0, messages@, text_tokens@) <= usize::MAX,
        ensures
            r == total_tokens_spec(self.tokens_count_factors.0, messages@, text_tokens@),
            messages@.len() == 0 ==> r == 0,
    {
        let n = messages.len();
        if n == 0 {
            return 0;
        }
        let per_message = self.tokens_count_factors.0;
        let charged: usize = if messages[n - 1].role.is_user() {
            n
        } else {
            n - 1
        };
        proof {
            lemma_body_monotone(messages@, text_tokens@, 0, n as int);
            assert(charged * per_message >= 0) by (nonlinear_arith)
                requires
                    charged >= 0,
                    per_message >= 0,
            ;
        }
        let body = self.messages_tokens(messages, text_tokens);
        charged * per_message + body
    }

    /// The estimate for `messages`, or `None` where it does not fit in a
    /// `usize`.
    fn checked_total_tokens(&self, messages: &[Message], text_tokens: &[usize]) -> (r: Option<
        usize,
    >)
        requires
            text_tokens@.len() == messages@.len(),
        ensures
            match r {
                Some(t) => t == total_tokens_spec(
                    self.tokens_count_factors.0,
                    messages@,
                    text_tokens@,
                ),
                None => total_tokens_spec(self.tokens_count_factors.0, messages@, text_tokens@)
                    > usize::MAX,
            },
    {
        let n = messages.len();
        if n == 0 {
            return Some(0);
        }
        let mut sum: usize = 0;
        let mut i: usize = 0;
        while i < n
            invariant
                n == messages@.len(),
                text_tokens@.len() == n,
                i <= n,
                sum == body_tokens_upto(messages@, text_tokens@, i as int),
            decreases n - i,
        {
            match &messages[i].content {
                MessageContent::Text(_) => {
                    match sum.checked_add(text_tokens[i]) {
                        Some(s) => sum = s,
                        None => {
                            proof {
                                self.lemma_total_at_least_body(messages@, text_tokens@, i + 1);
                            }
                            return None;
                        },
                    }
                },
                MessageContent::Array(_) => {},
            }
            i = i + 1;
        }
        let per_message = self.tokens_count_factors.0;
        let charged: usize = if messages[n - 1].role.is_user() {
            n
        } else {
            n - 1
        };
        proof {
            lemma_body_monotone(messages@, text_tokens@, 0, n as int);
        }
        match charged.checked_mul(per_message) {
            Some(c) => c.checked_add(sum),
            None => None,
        }
    }

    /// A non-empty conversation's estimate is at least the cost of any
    /// prefix of its text.
    proof fn lemma_total_at_least_body(
        &self,
        msgs: Seq<Message>,
        counts: Seq<usize>,
        i: int,
    )
        requires
            0 <= i <= msgs.len(),
            0 < msgs.len(),
        ensures
            total_tokens_spec(self.tokens_count_factors.0, msgs, counts) >= body_tokens_upto(
                msgs,
                counts,
                i,
            ),
    {
        lemma_body_monotone(msgs, counts, i, msgs.len() as int);
        let n = msgs.len() as int;
        let per = self.tokens_count_factors.0;
        assert((n - 1) * per >= 0) by (nonlinear_arith)
            requires
                n >= 1,
                per >= 0,
        ;
        assert(n * per >= 0) by (nonlinear_arith)
            requires
                n >= 1,
                per >= 0,
        ;
    }

    /// Checks `messages` against the limit (see `messages_tokens` for
    /// `text_tokens`): fails exactly when a limit is set and the estimate plus
    /// the bias reaches it.
    pub fn max_tokens_limit(&self, messages: &[Message], text_tokens: &[usize]) -> (r: Result<
        (),
        LimitExceeded,
    >)
        requires
            text_tokens@.len() == messages@.len(),
        ensures
            r is Err <==> exceeds_limit(
                self@,
                total_tokens_spec(self.tokens_count_factors.0, messages@, text_tokens@),
            ),
            self.max_tokens is None ==> r is Ok,
    {
        let bias = self.tokens_count_factors.1;
        match self.max_tokens {
            Some(max_tokens) => {
                if bias >= max_tokens {
                    proof {
                        if messages@.len() > 0 {
                            self.lemma_total_at_least_body(messages@, text_tokens@, 0);
                        }
                    }
                    return Err(LimitExceeded);
                }
                match self.checked_total_tokens(messages, text_tokens) {
                    Some(total) => {
                        if total >= max_tokens - bias {
                            return Err(LimitExceeded);
                        }
                    },
                    None => {
                        return Err(LimitExceeded);
                    },
                }
            },
            None => {},
        }
        Ok(())
    }
}

/// One model entry of a backend's configuration.
#[derive(Debug, Clone)]
pub struct ModelConfig {
    pub name: String,
    pub max_tokens: Option<usize>,
    pub capabilities: ModelCapabilities,
}

/// Whether `s` holds no `:`.
pub open spec fn colon_free(s: Seq<char>) -> bool {
    forall|k: int| 0 <= k < s.len() ==> s[k] != ':'
}

/// Splitting `b:m`, where `b` holds no `:`, gives back `b` and `m`.
proof fn lemma_split_after(b: Seq<char>, m: Seq<char>)
    requires
        colon_free(b),
    ensures
        query_backend(b + seq![':'] + m) == b,
        query_model(b + seq![':'] + m) == m,
{
    let q = b + seq![':'] + m;
    assert(is_first(q, is_colon(), b.len() as int));
    lemma_first_unique(q, is_colon(), b.len() as int);
    assert(q.take(b.len() as int) =~= b);
    assert(q.skip(b.len() as int + 1) =~= m);
}

/// A query without `:` is all backend.
proof fn lemma_split_plain(b: Seq<char>)
    requires
        colon_free(b),
    ensures
        query_backend(b) == b,
        query_model(b).len() == 0,
{
}

/// Looking up the identifier of an entry whose model name is not empty gives
/// back, unchanged, the first entry with that identifier; where identifiers
/// are unique, that is the entry itself.
pub proof fn lemma_find_exact(r: Seq<ModelView>, i: int)
    requires
        0 <= i < r.len(),
        r[i].name.len() > 0,
    ensures
        find_spec(r, r[i].id()) == Some(r[first_index(r, has_id(r[i].id()))]),
        first_index(r, has_id(r[i].id())) <= i,
        (forall|j: int| 0 <= j < r.len() && #[trigger] r[j].id() == r[i].id() ==> j == i)
            ==> find_spec(r, r[i].id()) == Some(r[i]),
{
    let q = r[i].id();
    let c = r[i].client_name.len() as int;
    assert(q[c] == ':');
    lemma_first_index(q, is_colon(), c);
    assert(query_model(q).len() > 0);
    assert(has_id(q)(r[i]));
    lemma_first_index(r, has_id(q), i);
    let k = first_index(r, has_id(q));
    assert(r[k].id() == q);
}

/// Looking up `b:m`, where the backend `b` (holding no `:`) is configured and
/// no entry is named exactly `b:m`, gives the first entry of `b` under the
/// model name `m`, with every other field inherited.
pub proof fn lemma_find_by_backend(r: Seq<ModelView>, b: Seq<char>, m: Seq<char>)
    requires
        colon_free(b),
        m.len() > 0,
        any_of(r, has_backend(b)),
        !any_of(r, has_id(b + seq![':'] + m)),
    ensures
        find_spec(r, b + seq![':'] + m) == Some(r[first_index(r, has_backend(b))].renamed(m)),
{
    lemma_split_after(b, m);
}

/// For a backend `b` holding no `:`, looking up `b:` is looking up `b`.
pub proof fn lemma_find_empty_model(r: Seq<ModelView>, b: Seq<char>)
    requires
        colon_free(b),
    ensures
        find_spec(r, b + seq![':']) == find_spec(r, b),
{
    lemma_split_after(b, Seq::empty());
    assert(b + seq![':'] + Seq::<char>::empty() =~= b + seq![':']);
    lemma_split_plain(b);
}

/// For a backend `u` that no entry has, looking up `u` or `u:m` finds
/// nothing, where neither `u` nor `m` holds a `:`.
pub proof fn lemma_find_unknown(r: Seq<ModelView>, u: Seq<char>, m: Seq<char>)
    requires
        colon_free(u),
        colon_free(m),
        !any_of(r, has_backend(u)),
    ensures
        find_spec(r, u) is None,
        find_spec(r, u + seq![':'] + m) is None,
{
    lemma_split_plain(u);
    lemma_split_after(u, m);
    let q = u + seq![':'] + m;
    assert forall|k: int| 0 <= k < r.len() implies !has_id(q)(#[trigger] r[k]) by {
        let c = r[k].client_name;
        if r[k].id() == q {
            if c.len() < u.len() {
                assert(q[c.len() as int] == r[k].id()[c.len() as int]);
            } else if c.len() > u.len() {
                assert(q[c.len() as int] == r[k].id()[c.len() as int]);
                assert(q[c.len() as int] == m[c.len() - u.len() - 1]);
            } else {
                assert(c =~= q.take(u.len() as int));
                assert(u =~= q.take(u.len() as int));
                assert(has_backend(u)(r[k]));
            }
        }
    }
}

/// Asking for a limit of zero sets the same descriptor as asking for none,
/// and neither rejects any estimate.
pub proof fn lemma_zero_limit_is_no_limit(v: ModelView)
    ensures
        (ModelView { max_tokens: normalized_limit(Some(0usize)), ..v }) == (ModelView {
            max_tokens: normalized_limit(None),
            ..v
        }),
        forall|total: int|
            !#[trigger] exceeds_limit(
                ModelView { max_tokens: normalized_limit(Some(0usize)), ..v },
                total,
            ),
{
}

} // verus!
