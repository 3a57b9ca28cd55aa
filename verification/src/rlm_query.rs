//! Parallel child queries: one tool call runs up to [`MAX_PARALLEL`] prompts
//! concurrently on the cheap model and returns the joined result.
//!
//! The caller performs the requests. [`RlmQueryTool::prepare`] says which ones
//! to make, and [`join_results`] what to answer once they are back.

use vstd::prelude::*;
use vstd::string::*;

use serde_json::Value;

use crate::json::{json_items, json_member, json_text, json_u64, member, optional_str, text_at};
use crate::order::{
    insert_sorted_at, is_preorder, sorted, sorted_is_in_order, sorted_is_permutation,
};
use crate::text::{contains, decimal, join, joined, occurs_at, push_decimal, texts};

verus! {

/// Default child model: cheap and fast.
pub const DEFAULT_CHILD_MODEL: &'static str = "deepseek-v4-flash";

/// Per-child completion ceiling. Children are meant to be short.
pub const DEFAULT_MAX_TOKENS: u32 = 4096;

/// Hard cap on parallel children: protects against runaway fan-out.
pub const MAX_PARALLEL: usize = 16;

// === Input ===

/// A text, if there is one.
pub open spec fn optional_text(t: Option<String>) -> Option<Seq<char>> {
    match t {
        Some(s) => Some(s@),
        None => None,
    }
}

/// What a call of the tool asks for.
#[derive(Debug)]
pub struct QueryInput {
    /// The items of `prompts`, if it is an array: the text of each that is a string.
    pub prompts: Option<Vec<Option<String>>>,
    /// `prompt`, if it is a string.
    pub prompt: Option<String>,
    /// `model`, if it is a string.
    pub model: Option<String>,
    /// `system`, if it is a string.
    pub system: Option<String>,
    /// `max_tokens`, if it is a natural number.
    pub max_tokens: Option<u64>,
}

/// The texts and the number in a [`QueryInput`].
#[verifier::ext_equal]
pub struct QueryInputView {
    pub prompts: Option<Seq<Option<Seq<char>>>>,
    pub prompt: Option<Seq<char>>,
    pub model: Option<Seq<char>>,
    pub system: Option<Seq<char>>,
    pub max_tokens: Option<u64>,
}

/// The texts in a list in which some places may be empty.
pub open spec fn optional_texts(v: Seq<Option<String>>) -> Seq<Option<Seq<char>>> {
    v.map_values(|t: Option<String>| optional_text(t))
}

impl View for QueryInput {
    type V = QueryInputView;

    open spec fn view(&self) -> QueryInputView {
        QueryInputView {
            prompts: match self.prompts {
                Some(items) => Some(optional_texts(items@)),
                None => None,
            },
            prompt: optional_text(self.prompt),
            model: optional_text(self.model),
            system: optional_text(self.system),
            max_tokens: self.max_tokens,
        }
    }
}

/// What a JSON value asks for.
pub open spec fn input_of(v: Value) -> QueryInputView {
    QueryInputView {
        prompts: match json_member(v, "prompts"@) {
            Some(m) => match json_items(m) {
                Some(items) => Some(items.map_values(|i: Value| json_text(i))),
                None => None,
            },
            None => None,
        },
        prompt: text_at(v, "prompt"@),
        model: text_at(v, "model"@),
        system: text_at(v, "system"@),
        max_tokens: match json_member(v, "max_tokens"@) {
            Some(m) => json_u64(m),
            None => None,
        },
    }
}

/// The text that an object has under a key, as a value of its own.
fn string_at(v: &Value, key: &str) -> (r: Option<String>)
    ensures
        optional_text(r) == text_at(*v, key@),
{
    match optional_str(v, key) {
        Some(s) => Some(s.to_string()),
        None => None,
    }
}

/// Reads what a JSON value asks for.
pub fn read_input(v: &Value) -> (r: QueryInput)
    ensures
        r@ == input_of(*v),
{
    let mut prompts: Option<Vec<Option<String>>> = None;
    if let Some(m) = member(v, "prompts") {
        if let Some(items) = m.as_array() {
            let mut out: Vec<Option<String>> = Vec::new();
            let mut i: usize = 0;
            while i < items.len()
                invariant
                    i <= items@.len(),
                    optional_texts(out@) =~= items@.take(i as int).map_values(
                        |i: Value| json_text(i),
                    ),
                decreases items@.len() - i,
            {
                let text: Option<String> = match items[i].as_str() {
                    Some(s) => Some(s.to_string()),
                    None => None,
                };
                let ghost before = out@;
                out.push(text);
                proof {
                    assert(optional_text(text) == json_text(items@[i as int]));
                    assert(items@.take(i + 1) =~= items@.take(i as int).push(items@[i as int]));
                    assert(optional_texts(out@) =~= optional_texts(before).push(
                        optional_text(text),
                    ));
                }
                i = i + 1;
            }
            assert(items@.take(items@.len() as int) =~= items@);
            prompts = Some(out);
        }
    }
    let max_tokens: Option<u64> = match member(v, "max_tokens") {
        Some(m) => m.as_u64(),
        None => None,
    };
    QueryInput {
        prompts,
        prompt: string_at(v, "prompt"),
        model: string_at(v, "model"),
        system: string_at(v, "system"),
        max_tokens,
    }
}

// === Requests ===

/// A request to a child.
#[derive(Debug)]
pub struct ChildRequest {
    pub model: String,
    /// The role under which the prompt is sent.
    pub role: String,
    pub prompt: String,
    pub max_tokens: u32,
    /// The system prompt, shared by all children of a call.
    pub system: Option<String>,
    pub stream: bool,
    /// The sampling temperature, in tenths.
    pub temperature_tenths: u32,
    /// The nucleus sampling bound, in tenths.
    pub top_p_tenths: u32,
}

/// The contents of a [`ChildRequest`].
#[verifier::ext_equal]
pub struct ChildRequestView {
    pub model: Seq<char>,
    pub role: Seq<char>,
    pub prompt: Seq<char>,
    pub max_tokens: u32,
    pub system: Option<Seq<char>>,
    pub stream: bool,
    pub temperature_tenths: u32,
    pub top_p_tenths: u32,
}

impl View for ChildRequest {
    type V = ChildRequestView;

    open spec fn view(&self) -> ChildRequestView {
        ChildRequestView {
            model: self.model@,
            role: self.role@,
            prompt: self.prompt@,
            max_tokens: self.max_tokens,
            system: optional_text(self.system),
            stream: self.stream,
            temperature_tenths: self.temperature_tenths,
            top_p_tenths: self.top_p_tenths,
        }
    }
}

/// Why a call of a tool fails.
#[derive(Debug)]
pub enum ToolError {
    NotAvailable { message: String },
    InvalidInput { message: String },
}

/// The contents of a [`ToolError`].
pub enum ToolErrorView {
    NotAvailable { message: Seq<char> },
    InvalidInput { message: Seq<char> },
}

impl View for ToolError {
    type V = ToolErrorView;

    open spec fn view(&self) -> ToolErrorView {
        match self {
            ToolError::NotAvailable { message } => ToolErrorView::NotAvailable {
                message: message@,
            },
            ToolError::InvalidInput { message } => ToolErrorView::InvalidInput {
                message: message@,
            },
        }
    }
}

/// The texts in a list, without its empty places.
pub open spec fn present(items: Seq<Option<Seq<char>>>) -> Seq<Seq<char>>
    decreases items.len(),
{
    if items.len() == 0 {
        Seq::empty()
    } else {
        match items.last() {
            Some(t) => present(items.drop_last()).push(t),
            None => present(items.drop_last()),
        }
    }
}

/// The prompts to run: the texts in `prompts`, or else `prompt` alone.
pub open spec fn prompts_of(input: QueryInputView) -> Option<Seq<Seq<char>>> {
    match input.prompts {
        Some(items) => Some(present(items)),
        None => match input.prompt {
            Some(p) => Some(seq![p]),
            None => None,
        },
    }
}

/// The token cap of a child.
pub open spec fn max_tokens_of(input: QueryInputView) -> u32 {
    match input.max_tokens {
        Some(n) => if n <= u32::MAX {
            n as u32
        } else {
            u32::MAX
        },
        None => DEFAULT_MAX_TOKENS,
    }
}

/// The request that runs a prompt.
pub open spec fn request_for(
    default_model: Seq<char>,
    input: QueryInputView,
    prompt: Seq<char>,
) -> ChildRequestView {
    ChildRequestView {
        model: match input.model {
            Some(m) => m,
            None => default_model,
        },
        role: "user"@,
        prompt,
        max_tokens: max_tokens_of(input),
        system: input.system,
        stream: false,
        temperature_tenths: 4,
        top_p_tenths: 9,
    }
}

/// The requests that run the prompts, one for each, in their order.
pub open spec fn requests_for(
    default_model: Seq<char>,
    input: QueryInputView,
    prompts: Seq<Seq<char>>,
) -> Seq<ChildRequestView> {
    prompts.map_values(|p: Seq<char>| request_for(default_model, input, p))
}

/// What is said of a call with `n` prompts, which are too many.
pub open spec fn too_many(n: nat) -> Seq<char> {
    "rlm_query: too many prompts ("@ + decimal(n) + ", max "@ + decimal(MAX_PARALLEL as nat)
        + ")"@
}

/// What a call of the tool does: the requests that it makes, or its error.
pub open spec fn planned(
    has_client: bool,
    default_model: Seq<char>,
    input: QueryInputView,
) -> Result<Seq<ChildRequestView>, ToolErrorView> {
    if !has_client {
        Err(
            ToolErrorView::NotAvailable {
                message: "rlm_query requires an active DeepSeek client"@,
            },
        )
    } else {
        match prompts_of(input) {
            None => Err(
                ToolErrorView::InvalidInput {
                    message:
                        "rlm_query requires `prompt` (string) or `prompts` (array of strings)"@,
                },
            ),
            Some(prompts) => if prompts.len() == 0 {
                Err(ToolErrorView::InvalidInput { message: "rlm_query: prompts list is empty"@ })
            } else if prompts.len() > MAX_PARALLEL {
                Err(ToolErrorView::InvalidInput { message: too_many(prompts.len()) })
            } else {
                Ok(requests_for(default_model, input, prompts))
            },
        }
    }
}

/// The contents of a list of requests.
pub open spec fn request_views(requests: Seq<ChildRequest>) -> Seq<ChildRequestView> {
    requests.map_values(|q: ChildRequest| q@)
}

/// A plan, or the error, in its view.
pub open spec fn plan_view(r: Result<Vec<ChildRequest>, ToolError>) -> Result<
    Seq<ChildRequestView>,
    ToolErrorView,
> {
    match r {
        Ok(requests) => Ok(request_views(requests@)),
        Err(e) => Err(e@),
    }
}

/// The texts in a list, without its empty places.
fn present_texts(items: &Vec<Option<String>>) -> (r: Vec<String>)
    ensures
        texts(r@) == present(optional_texts(items@)),
{
    let ghost all = optional_texts(items@);
    let mut out: Vec<String> = Vec::new();
    let mut i: usize = 0;
    assert(texts(out@) =~= present(all.take(0)));
    while i < items.len()
        invariant
            i <= items@.len(),
            all == optional_texts(items@),
            texts(out@) == present(all.take(i as int)),
        decreases items@.len() - i,
    {
        let ghost before = out@;
        assert(all.take(i + 1).drop_last() =~= all.take(i as int));
        if let Some(t) = &items[i] {
            out.push(t.clone());
            assert(texts(out@) =~= texts(before).push(t@));
        }
        i = i + 1;
    }
    assert(all.take(items@.len() as int) =~= all);
    out
}

/// The tool `rlm_query`. Runs one or more prompts in parallel and joins the
/// results. `C` is the client through which the requests go.
pub struct RlmQueryTool<C> {
    pub client: Option<C>,
    pub default_model: String,
}

impl<C> RlmQueryTool<C> {
    #[must_use]
    pub fn new(client: Option<C>) -> (r: Self)
        ensures
            r.client == client,
            r.default_model@ == DEFAULT_CHILD_MODEL@,
    {
        RlmQueryTool { client, default_model: DEFAULT_CHILD_MODEL.to_string() }
    }

    /// The requests that a call makes, or its error.
    pub fn plan(&self, input: &QueryInput) -> (r: Result<Vec<ChildRequest>, ToolError>)
        ensures
            plan_view(r) == planned(self.client is Some, self.default_model@, input@),
    {
        if self.client.is_none() {
            return Err(
                ToolError::NotAvailable {
                    message: "rlm_query requires an active DeepSeek client".to_string(),
                },
            );
        }
        let prompts: Vec<String> = match &input.prompts {
            Some(items) => present_texts(items),
            None => match &input.prompt {
                Some(p) => {
                    let mut one: Vec<String> = Vec::new();
                    one.push(p.clone());
                    assert(texts(one@) =~= seq![p@]);
                    one
                },
                None => {
                    return Err(
                        ToolError::InvalidInput {
                            message: "rlm_query requires `prompt` (string) or `prompts` (array of strings)".to_string(),
                        },
                    );
                },
            },
        };
        assert(prompts_of(input@) == Some(texts(prompts@)));
        let n: usize = prompts.len();
        if n == 0 {
            return Err(
                ToolError::InvalidInput {
                    message: "rlm_query: prompts list is empty".to_string(),
                },
            );
        }
        if n > MAX_PARALLEL {
            let mut message: String = "rlm_query: too many prompts (".to_string();
            push_decimal(&mut message, n as u64);
            message.append(", max ");
            push_decimal(&mut message, MAX_PARALLEL as u64);
            message.append(")");
            return Err(ToolError::InvalidInput { message });
        }
        let max_tokens: u32 = match input.max_tokens {
            Some(n) => if n <= u32::MAX as u64 {
                n as u32
            } else {
                u32::MAX
            },
            None => DEFAULT_MAX_TOKENS,
        };
        let ghost wanted = requests_for(self.default_model@, input@, texts(prompts@));
        let mut requests: Vec<ChildRequest> = Vec::new();
        let mut i: usize = 0;
        assert(request_views(requests@) =~= wanted.take(0));
        while i < prompts.len()
            invariant
                i <= prompts@.len(),
                max_tokens == max_tokens_of(input@),
                wanted == requests_for(self.default_model@, input@, texts(prompts@)),
                request_views(requests@) == wanted.take(i as int),
            decreases prompts@.len() - i,
        {
            let model: String = match &input.model {
                Some(m) => m.clone(),
                None => self.default_model.clone(),
            };
            let system: Option<String> = match &input.system {
                Some(s) => Some(s.clone()),
                None => None,
            };
            let request = ChildRequest {
                model,
                role: "user".to_string(),
                prompt: prompts[i].clone(),
                max_tokens,
                system,
                stream: false,
                temperature_tenths: 4,
                top_p_tenths: 9,
            };
            assert(request@ == wanted[i as int]);
            let ghost before = requests@;
            requests.push(request);
            proof {
                assert(request_views(requests@) =~= request_views(before).push(request@));
                assert(wanted.take(i + 1) =~= wanted.take(i as int).push(wanted[i as int]));
            }
            i = i + 1;
        }
        assert(wanted.take(prompts@.len() as int) =~= wanted);
        Ok(requests)
    }

    /// The requests that a call with this JSON input makes, or its error.
    pub fn prepare(&self, input: &Value) -> (r: Result<Vec<ChildRequest>, ToolError>)
        ensures
            plan_view(r) == planned(self.client is Some, self.default_model@, input_of(*input)),
    {
        let input: QueryInput = read_input(input);
        self.plan(&input)
    }
}

// === Results ===

/// How long the service may keep a block of a message.
#[derive(Debug)]
pub struct CacheControl {
    pub cache_type: String,
}

/// A block of a reply.
#[derive(Debug)]
pub enum ContentBlock {
    Text { text: String, cache_control: Option<CacheControl> },
    Thinking { thinking: String },
    /// A block of any other kind.
    Other,
}

/// What came back of a request.
#[derive(Debug)]
pub enum ChildOutcome {
    /// The blocks of the reply.
    Reply(Vec<ContentBlock>),
    /// The error.
    Failed(String),
}

/// The texts of the text blocks, in their order.
pub open spec fn visible(blocks: Seq<ContentBlock>) -> Seq<Seq<char>>
    decreases blocks.len(),
{
    if blocks.len() == 0 {
        Seq::empty()
    } else {
        match blocks.last() {
            ContentBlock::Text { text, .. } => visible(blocks.drop_last()).push(text@),
            _ => visible(blocks.drop_last()),
        }
    }
}

/// The text blocks of a reply, one to a line.
pub fn extract_text(blocks: &[ContentBlock]) -> (r: String)
    ensures
        r@ == join(visible(blocks@), "\n"@),
{
    let mut found: Vec<String> = Vec::new();
    let mut i: usize = 0;
    assert(texts(found@) =~= visible(blocks@.take(0)));
    while i < blocks.len()
        invariant
            i <= blocks@.len(),
            texts(found@) == visible(blocks@.take(i as int)),
        decreases blocks@.len() - i,
    {
        let ghost before = found@;
        assert(blocks@.take(i + 1).drop_last() =~= blocks@.take(i as int));
        if let ContentBlock::Text { text, .. } = &blocks[i] {
            found.push(text.clone());
            assert(texts(found@) =~= texts(before).push(text@));
        }
        i = i + 1;
    }
    assert(blocks@.take(blocks@.len() as int) =~= blocks@);
    joined(&found, "\n")
}

/// The text that stands for a child.
pub open spec fn outcome_text(o: ChildOutcome) -> Seq<char> {
    match o {
        ChildOutcome::Reply(blocks) => join(visible(blocks@), "\n"@),
        ChildOutcome::Failed(error) => "[error: "@ + error@ + "]"@,
    }
}

/// The children with their texts.
pub open spec fn outcome_texts(results: Seq<(usize, ChildOutcome)>) -> Seq<(usize, Seq<char>)> {
    results.map_values(|r: (usize, ChildOutcome)| (r.0, outcome_text(r.1)))
}

/// The order by index.
pub open spec fn index_order() -> spec_fn((usize, Seq<char>), (usize, Seq<char>)) -> bool {
    |a: (usize, Seq<char>), b: (usize, Seq<char>)| a.0 <= b.0
}

/// The block of a child in an answer with several.
pub open spec fn block_of(child: (usize, Seq<char>)) -> Seq<char> {
    "["@ + decimal(child.0 as nat) + "] "@ + child.1
}

/// The answer for children that are in order.
pub open spec fn answer_in_order(ordered: Seq<(usize, Seq<char>)>) -> Seq<char> {
    if ordered.len() == 1 {
        ordered[0].1
    } else {
        join(ordered.map_values(|c: (usize, Seq<char>)| block_of(c)), "\n\n---\n\n"@)
    }
}

/// The answer of a call.
pub open spec fn answer(results: Seq<(usize, ChildOutcome)>) -> Seq<char> {
    answer_in_order(sorted(outcome_texts(results), index_order()))
}

/// The indices and texts in a list.
pub open spec fn indexed(v: Seq<(usize, String)>) -> Seq<(usize, Seq<char>)> {
    v.map_values(|p: (usize, String)| (p.0, p.1@))
}

/// Joins what came back of the requests: the text of the only child, or the
/// texts as `[i] text` blocks by their index, separated by `---`.
pub fn join_results(results: &Vec<(usize, ChildOutcome)>) -> (r: String)
    ensures
        r@ == answer(results@),
{
    let ghost all = outcome_texts(results@);
    let mut ordered: Vec<(usize, String)> = Vec::new();
    let mut i: usize = 0;
    assert(indexed(ordered@) =~= sorted(all.take(0), index_order()));
    while i < results.len()
        invariant
            i <= results@.len(),
            all == outcome_texts(results@),
            indexed(ordered@) == sorted(all.take(i as int), index_order()),
        decreases results@.len() - i,
    {
        let idx: usize = results[i].0;
        let text: String = match &results[i].1 {
            ChildOutcome::Reply(blocks) => extract_text(blocks.as_slice()),
            ChildOutcome::Failed(error) => {
                let mut t: String = "[error: ".to_string();
                t.append(error.as_str());
                t.append("]");
                t
            },
        };
        assert(all[i as int] == (idx, text@));
        let mut at: usize = ordered.len();
        while at > 0 && ordered[at - 1].0 > idx
            invariant
                at <= ordered@.len(),
                forall|j: int| at <= j < ordered@.len() ==> #[trigger] indexed(ordered@)[j].0 > idx,
            ensures
                at <= ordered@.len(),
                forall|j: int| at <= j < ordered@.len() ==> #[trigger] indexed(ordered@)[j].0 > idx,
                at > 0 ==> indexed(ordered@)[at - 1].0 <= idx,
            decreases at,
        {
            at = at - 1;
        }
        let ghost before = indexed(ordered@);
        ordered.insert(at, (idx, text));
        proof {
            insert_sorted_at(before, (idx, text@), index_order(), at as int);
            assert(indexed(ordered@) =~= before.insert(at as int, (idx, text@)));
            assert(all.take(i + 1).drop_last() =~= all.take(i as int));
        }
        i = i + 1;
    }
    assert(all.take(results@.len() as int) =~= all);
    if ordered.len() == 1 {
        assert(indexed(ordered@)[0].1 == ordered@[0].1@);
        return ordered[0].1.clone();
    }
    let ghost blocks = indexed(ordered@).map_values(|c: (usize, Seq<char>)| block_of(c));
    let mut parts: Vec<String> = Vec::new();
    let mut k: usize = 0;
    assert(texts(parts@) =~= blocks.take(0));
    while k < ordered.len()
        invariant
            k <= ordered@.len(),
            blocks == indexed(ordered@).map_values(|c: (usize, Seq<char>)| block_of(c)),
            texts(parts@) == blocks.take(k as int),
        decreases ordered@.len() - k,
    {
        let mut part: String = "[".to_string();
        push_decimal(&mut part, ordered[k].0 as u64);
        part.append("] ");
        part.append(ordered[k].1.as_str());
        let ghost before = parts@;
        assert(part@ == blocks[k as int]);
        parts.push(part);
        proof {
            assert(texts(parts@) =~= texts(before).push(part@));
            assert(blocks.take(k + 1) =~= blocks.take(k as int).push(blocks[k as int]));
        }
        k = k + 1;
    }
    assert(blocks.take(ordered@.len() as int) =~= blocks);
    joined(&parts, "\n\n---\n\n")
}

// === The tool to the model ===

/// The name under which the model calls the tool.
pub const TOOL_NAME: &'static str = "rlm_query";

/// What the model is told of the tool.
pub const DESCRIPTION: &'static str = "Run up to 16 prompts concurrently against the fast cheap model (deepseek-v4-flash) and return the joined results. Pass `prompts: [...]` for a parallel batch or `prompt` for a single child. Children run in isolation with an optional shared `system` prompt; results come back as `[i] <text>` blocks separated by `---` (or just the text for N=1). Max 16 children per call (each is a one-shot flash query; use agent_spawn for full multi-turn sub-agents). Read-only — no file or shell side-effects.";

/// What a tool can do to the world.
#[derive(Debug, Clone, Copy, PartialEq, Eq, Structural)]
pub enum ToolCapability {
    Network,
    ReadOnly,
}

/// Whether the user approves each call.
#[derive(Debug, Clone, Copy, PartialEq, Eq, Structural)]
pub enum ApprovalRequirement {
    /// Calls need no approval.
    Auto,
    /// Every call needs approval.
    Required,
}

/// A property of the object that a tool takes.
#[derive(Debug)]
pub struct SchemaProperty {
    pub name: String,
    /// The JSON type.
    pub kind: String,
    /// The JSON type of the items, where the property is an array.
    pub items: Option<String>,
    pub description: String,
}

/// The contents of a [`SchemaProperty`].
#[verifier::ext_equal]
pub struct SchemaPropertyView {
    pub name: Seq<char>,
    pub kind: Seq<char>,
    pub items: Option<Seq<char>>,
    pub description: Seq<char>,
}

impl View for SchemaProperty {
    type V = SchemaPropertyView;

    open spec fn view(&self) -> SchemaPropertyView {
        SchemaPropertyView {
            name: self.name@,
            kind: self.kind@,
            items: optional_text(self.items),
            description: self.description@,
        }
    }
}

/// The JSON schema of what a tool takes.
#[derive(Debug)]
pub struct InputSchema {
    /// The JSON type.
    pub kind: String,
    pub properties: Vec<SchemaProperty>,
    /// The names of the properties that must be there, if the schema says any.
    pub required: Option<Vec<String>>,
}

/// The properties that the tool takes.
pub open spec fn input_properties() -> Seq<SchemaPropertyView> {
    seq![
        SchemaPropertyView {
            name: "prompt"@,
            kind: "string"@,
            items: None,
            description: "Single prompt to run. Use this OR prompts, not both."@,
        },
        SchemaPropertyView {
            name: "prompts"@,
            kind: "array"@,
            items: Some("string"@),
            description:
                "Up to 16 prompts to run concurrently (each is a one-shot flash query). Returns indexed `[0] ... [N-1]` blocks."@,
        },
        SchemaPropertyView {
            name: "model"@,
            kind: "string"@,
            items: None,
            description: "Model override (default: deepseek-v4-flash)."@,
        },
        SchemaPropertyView {
            name: "system"@,
            kind: "string"@,
            items: None,
            description: "Optional shared system prompt applied to every child."@,
        },
        SchemaPropertyView {
            name: "max_tokens"@,
            kind: "integer"@,
            items: None,
            description: "Per-child token cap (default: 4096)."@,
        },
    ]
}

/// A property without items.
fn property(name: &str, kind: &str, description: &str) -> (r: SchemaProperty)
    ensures
        r@ == (SchemaPropertyView { name: name@, kind: kind@, items: None, description: description@ }),
{
    SchemaProperty {
        name: name.to_string(),
        kind: kind.to_string(),
        items: None,
        description: description.to_string(),
    }
}

impl<C> RlmQueryTool<C> {
    pub fn name(&self) -> (r: &'static str)
        ensures
            r@ == TOOL_NAME@,
    {
        TOOL_NAME
    }

    pub fn description(&self) -> (r: &'static str)
        ensures
            r@ == DESCRIPTION@,
    {
        DESCRIPTION
    }

    pub fn input_schema(&self) -> (r: InputSchema)
        ensures
            r.kind@ == "object"@,
            r.properties@.map_values(|p: SchemaProperty| p@) == input_properties(),
            r.required is None,
    {
        let mut properties: Vec<SchemaProperty> = Vec::new();
        properties.push(
            property("prompt", "string", "Single prompt to run. Use this OR prompts, not both."),
        );
        properties.push(
            SchemaProperty {
                name: "prompts".to_string(),
                kind: "array".to_string(),
                items: Some("string".to_string()),
                description: "Up to 16 prompts to run concurrently (each is a one-shot flash query). Returns indexed `[0] ... [N-1]` blocks.".to_string(),
            },
        );
        properties.push(
            property("model", "string", "Model override (default: deepseek-v4-flash)."),
        );
        properties.push(
            property("system", "string", "Optional shared system prompt applied to every child."),
        );
        properties.push(
            property("max_tokens", "integer", "Per-child token cap (default: 4096)."),
        );
        assert(properties@.map_values(|p: SchemaProperty| p@) =~= input_properties());
        InputSchema { kind: "object".to_string(), properties, required: None }
    }

    pub fn capabilities(&self) -> (r: Vec<ToolCapability>)
        ensures
            r@ == seq![ToolCapability::Network, ToolCapability::ReadOnly],
    {
        vec![ToolCapability::Network, ToolCapability::ReadOnly]
    }

    pub fn approval_requirement(&self) -> (r: ApprovalRequirement)
        ensures
            r == ApprovalRequirement::Auto,
    {
        ApprovalRequirement::Auto
    }

    pub fn supports_parallel(&self) -> (r: bool)
        ensures
            r,
    {
        true
    }
}

// === Laws ===

/// A call makes at least one request and at most [`MAX_PARALLEL`], and request
/// `i` carries prompt `i`.
pub proof fn plan_is_bounded(has_client: bool, default_model: Seq<char>, input: QueryInputView)
    ensures
        planned(has_client, default_model, input) matches Ok(requests) ==> {
            &&& 1 <= requests.len() <= MAX_PARALLEL
            &&& prompts_of(input) matches Some(prompts)
            &&& requests.len() == prompts.len()
            &&& forall|i: int|
                0 <= i < requests.len() ==> (#[trigger] requests[i]).prompt == prompts[i]
        },
{
}

/// A call is refused exactly when there is no client, when it has neither
/// `prompt` nor `prompts`, or when its prompts are none or too many.
pub proof fn call_is_refused_iff(has_client: bool, default_model: Seq<char>, input: QueryInputView)
    ensures
        planned(has_client, default_model, input) is Err <==> {
            ||| !has_client
            ||| prompts_of(input) is None
            ||| prompts_of(input)->0.len() == 0
            ||| prompts_of(input)->0.len() > MAX_PARALLEL
        },
{
}

/// The cap is told in the description of the tool, in that of `prompts`, and in
/// the error of a call with too many of them.
pub proof fn cap_is_told(n: nat)
    ensures
        contains(DESCRIPTION@, decimal(MAX_PARALLEL as nat)),
        contains(input_properties()[1].description, decimal(MAX_PARALLEL as nat)),
        contains(too_many(n), decimal(MAX_PARALLEL as nat)),
        contains(too_many(n), decimal(n)),
{
    reveal_with_fuel(decimal, 3);
    let cap = decimal(MAX_PARALLEL as nat);
    assert(cap =~= seq!['1', '6']);
    reveal_strlit(
        "Run up to 16 prompts concurrently against the fast cheap model (deepseek-v4-flash) and return the joined results. Pass `prompts: [...]` for a parallel batch or `prompt` for a single child. Children run in isolation with an optional shared `system` prompt; results come back as `[i] <text>` blocks separated by `---` (or just the text for N=1). Max 16 children per call (each is a one-shot flash query; use agent_spawn for full multi-turn sub-agents). Read-only — no file or shell side-effects.",
    );
    assert(DESCRIPTION@.subrange(10, 12) =~= cap);
    assert(occurs_at(DESCRIPTION@, cap, 10));
    reveal_strlit(
        "Up to 16 prompts to run concurrently (each is a one-shot flash query). Returns indexed `[0] ... [N-1]` blocks.",
    );
    let described = input_properties()[1].description;
    assert(described.subrange(6, 8) =~= cap);
    assert(occurs_at(described, cap, 6));
    let open = "rlm_query: too many prompts ("@;
    let comma = ", max "@;
    let message = too_many(n);
    let told = open.len() as int;
    let at = told + decimal(n).len() + comma.len();
    assert(message.subrange(at, at + cap.len()) =~= cap);
    assert(occurs_at(message, cap, at));
    assert(message.subrange(told, told + decimal(n).len()) =~= decimal(n));
    assert(occurs_at(message, decimal(n), told));
}

/// The answer lists the children by the order of their prompts, in whatever
/// order they came back: child `i`, whose text is `by_child[i]`, has block `i`.
pub proof fn answer_follows_the_prompts(
    results: Seq<(usize, ChildOutcome)>,
    by_child: Seq<Seq<char>>,
)
    requires
        results.len() == by_child.len(),
        forall|k: int|
            0 <= k < results.len() ==> (#[trigger] results[k]).0 < by_child.len() && outcome_text(
                results[k].1,
            ) == by_child[results[k].0 as int],
        forall|j: int, k: int|
            #![trigger results[j], results[k]]
            0 <= j < k < results.len() ==> results[j].0 != results[k].0,
    ensures
        answer(results) == answer_in_order(
            Seq::new(by_child.len(), |i: int| (i as usize, by_child[i])),
        ),
{
    broadcast use vstd::seq_lib::group_to_multiset_ensures;

    let all = outcome_texts(results);
    let le = index_order();
    let s = sorted(all, le);
    let n = by_child.len() as int;
    assert(is_preorder(le));
    sorted_is_permutation(all, le);
    sorted_is_in_order(all, le);
    assert(all.no_duplicates());
    all.lemma_multiset_has_no_duplicates();
    s.lemma_multiset_has_no_duplicates_conv();
    assert forall|k: int| 0 <= k < n implies (#[trigger] s[k]).0 < n && s[k].1
        == by_child[s[k].0 as int] by {
        assert(s.to_multiset().contains(s[k]));
        assert(all.contains(s[k]));
        let m = choose|m: int| 0 <= m < all.len() && all[m] == s[k];
        assert(results[m].0 == s[k].0);
    }
    assert forall|j: int, k: int| #![trigger s[j], s[k]] 0 <= j < k < n implies s[j].0 < s[k].0 by {
        assert(le(s[j], s[k]));
        if s[j].0 == s[k].0 {
            assert(s[j] == s[k]);
        }
    }
    increasing_is_identity(s, n);
    assert(s =~= Seq::new(by_child.len(), |i: int| (i as usize, by_child[i])));
}

/// Increasing indices below `n`, `n` of them, are those from zero on.
proof fn increasing_is_identity(s: Seq<(usize, Seq<char>)>, n: int)
    requires
        s.len() == n,
        forall|k: int| 0 <= k < n ==> (#[trigger] s[k]).0 < n,
        forall|j: int, k: int| #![trigger s[j], s[k]] 0 <= j < k < n ==> s[j].0 < s[k].0,
    ensures
        forall|k: int| 0 <= k < n ==> (#[trigger] s[k]).0 == k,
{
    assert forall|k: int| 0 <= k < n implies (#[trigger] s[k]).0 == k by {
        at_least_position(s, n, k);
        at_most_position(s, n, k);
    }
}

proof fn at_least_position(s: Seq<(usize, Seq<char>)>, n: int, k: int)
    requires
        s.len() == n,
        0 <= k < n,
        forall|j: int, k: int| #![trigger s[j], s[k]] 0 <= j < k < n ==> s[j].0 < s[k].0,
    ensures
        s[k].0 >= k,
    decreases k,
{
    if k > 0 {
        at_least_position(s, n, k - 1);
        assert(s[k - 1].0 < s[k].0);
    }
}

proof fn at_most_position(s: Seq<(usize, Seq<char>)>, n: int, k: int)
    requires
        s.len() == n,
        0 <= k < n,
        forall|k: int| 0 <= k < n ==> (#[trigger] s[k]).0 < n,
        forall|j: int, k: int| #![trigger s[j], s[k]] 0 <= j < k < n ==> s[j].0 < s[k].0,
    ensures
        s[k].0 <= k,
    decreases n - k,
{
    if k + 1 < n {
        at_most_position(s, n, k + 1);
        assert(s[k].0 < s[k + 1].0);
    }
}

/// A reply without text blocks has no text.
pub proof fn no_text_blocks_no_text(blocks: Seq<ContentBlock>)
    requires
        forall|i: int| 0 <= i < blocks.len() ==> !((#[trigger] blocks[i]) is Text),
    ensures
        visible(blocks).len() == 0,
        join(visible(blocks), "\n"@).len() == 0,
    decreases blocks.len(),
{
    if blocks.len() > 0 {
        assert(!(blocks[blocks.len() - 1] is Text));
        assert forall|i: int| 0 <= i < blocks.drop_last().len() implies !((
        #[trigger] blocks.drop_last()[i]) is Text) by {
            assert(blocks.drop_last()[i] == blocks[i]);
        }
        no_text_blocks_no_text(blocks.drop_last());
    }
}

/// The texts among the items of an array.
pub open spec fn texts_among(items: Seq<Value>) -> Seq<Seq<char>> {
    items.filter(|i: Value| json_text(i) is Some).map_values(|i: Value| json_text(i)->0)
}

proof fn present_are_the_texts(items: Seq<Value>)
    ensures
        present(items.map_values(|i: Value| json_text(i))) == texts_among(items),
    decreases items.len(),
{
    reveal_with_fuel(Seq::filter, 2);
    let read = items.map_values(|i: Value| json_text(i));
    if items.len() > 0 {
        present_are_the_texts(items.drop_last());
        assert(read.drop_last() =~= items.drop_last().map_values(|i: Value| json_text(i)));
    }
    assert(present(read) =~= texts_among(items));
}

/// The prompts that a call gives: the texts in the array under `prompts`, or
/// else the text under `prompt`.
pub open spec fn prompts_in(v: Value) -> Option<Seq<Seq<char>>> {
    match json_member(v, "prompts"@) {
        Some(m) if json_items(m) is Some => Some(texts_among(json_items(m)->0)),
        _ => match json_member(v, "prompt"@) {
            Some(m) if json_text(m) is Some => Some(seq![json_text(m)->0]),
            _ => None,
        },
    }
}

/// A call that is accepted makes one request for each prompt, in their order,
/// and every request carries the options of the call, whichever way the prompts
/// came: the text under `system`, if there is one; the text under `model`, or
/// else the default; the number under `max_tokens`, as far as a request can
/// hold it, or else 4096. The requests are not streamed.
pub proof fn requests_carry_the_options(default_model: Seq<char>, v: Value)
    ensures
        planned(true, default_model, input_of(v)) matches Ok(requests) ==> {
            &&& prompts_in(v) matches Some(prompts)
            &&& requests.len() == prompts.len()
            &&& forall|i: int|
                0 <= i < requests.len() ==> {
                    let q = #[trigger] requests[i];
                    &&& q.prompt == prompts[i]
                    &&& q.role == "user"@
                    &&& match json_member(v, "system"@) {
                        Some(m) => q.system == json_text(m),
                        None => q.system is None,
                    }
                    &&& match json_member(v, "model"@) {
                        Some(m) => match json_text(m) {
                            Some(model) => q.model == model,
                            None => q.model == default_model,
                        },
                        None => q.model == default_model,
                    }
                    &&& match json_member(v, "max_tokens"@) {
                        Some(m) => match json_u64(m) {
                            Some(n) => q.max_tokens == if n < 0x1_0000_0000 {
                                n as int
                            } else {
                                0xffff_ffff
                            },
                            None => q.max_tokens == 4096,
                        },
                        None => q.max_tokens == 4096,
                    }
                    &&& !q.stream
                    &&& q.temperature_tenths == 4
                    &&& q.top_p_tenths == 9
                }
        },
{
    if let Some(m) = json_member(v, "prompts"@) {
        if let Some(items) = json_items(m) {
            present_are_the_texts(items);
        }
    }
}

/// A call is accepted exactly when there is a client and the call gives one to
/// sixteen prompts; each other call has its error.
pub proof fn calls_are_refused_with_a_reason(
    has_client: bool,
    default_model: Seq<char>,
    v: Value,
)
    ensures
        ({
            let r = planned(has_client, default_model, input_of(v));
            &&& r is Ok <==> has_client && prompts_in(v) is Some && 1 <= prompts_in(v)->0.len()
                <= 16
            &&& !has_client ==> (r matches Err(ToolErrorView::NotAvailable { message }) && message
                == "rlm_query requires an active DeepSeek client"@)
            &&& has_client && prompts_in(v) is None ==> (r matches Err(
                ToolErrorView::InvalidInput { message },
            ) && message
                == "rlm_query requires `prompt` (string) or `prompts` (array of strings)"@)
            &&& has_client && prompts_in(v) is Some && prompts_in(v)->0.len() == 0 ==> (
            r matches Err(ToolErrorView::InvalidInput { message }) && message
                == "rlm_query: prompts list is empty"@)
            &&& has_client && prompts_in(v) is Some && prompts_in(v)->0.len() > 16 ==> (
            r matches Err(ToolErrorView::InvalidInput { message }) && message
                == "rlm_query: too many prompts ("@ + decimal(prompts_in(v)->0.len())
                + ", max 16)"@)
        }),
{
    if let Some(m) = json_member(v, "prompts"@) {
        if let Some(items) = json_items(m) {
            present_are_the_texts(items);
        }
    }
    if prompts_in(v) is Some && prompts_in(v)->0.len() > 16 {
        let n = decimal(prompts_in(v)->0.len());
        reveal_with_fuel(decimal, 3);
        assert(decimal(16) =~= seq!['1', '6']);
        reveal_strlit(", max ");
        reveal_strlit(")");
        reveal_strlit(", max 16)");
        assert(", max "@ + decimal(16) + ")"@ =~= ", max 16)"@);
        let open = "rlm_query: too many prompts ("@;
        assert(too_many(prompts_in(v)->0.len()) =~= open + n + (", max "@ + decimal(16) + ")"@));
    }
}

/// Requests, errors and what a call asks for are seen whole.
pub proof fn requests_are_seen_whole(q: ChildRequest, input: QueryInput, requests: Seq<ChildRequest>)
    ensures
        q@.model == q.model@,
        q@.role == q.role@,
        q@.prompt == q.prompt@,
        q@.max_tokens == q.max_tokens,
        q.system is None ==> q@.system is None,
        q.system matches Some(s) ==> q@.system == Some(s@),
        q@.stream == q.stream,
        q@.temperature_tenths == q.temperature_tenths,
        q@.top_p_tenths == q.top_p_tenths,
        input.prompt is None <==> input@.prompt is None,
        input.prompt matches Some(s) ==> input@.prompt == Some(s@),
        input.model is None <==> input@.model is None,
        input.model matches Some(s) ==> input@.model == Some(s@),
        input.system is None <==> input@.system is None,
        input.system matches Some(s) ==> input@.system == Some(s@),
        input@.max_tokens == input.max_tokens,
        input.prompts is None <==> input@.prompts is None,
        input.prompts matches Some(items) ==> {
            &&& input@.prompts->0.len() == items@.len()
            &&& forall|i: int|
                0 <= i < items@.len() ==> match items@[i] {
                    Some(s) => #[trigger] input@.prompts->0[i] == Some(s@),
                    None => input@.prompts->0[i] is None,
                }
        },
        request_views(requests).len() == requests.len(),
        forall|i: int|
            0 <= i < requests.len() ==> #[trigger] request_views(requests)[i] == requests[i]@,
{
}

/// The text of a reply is that of its text blocks, in their order and one to a
/// line; every other block is passed over.
pub proof fn text_blocks_are_seen(blocks: Seq<ContentBlock>)
    ensures
        visible(blocks) == blocks.filter(|b: ContentBlock| b is Text).map_values(
            |b: ContentBlock| b->text@,
        ),
    decreases blocks.len(),
{
    reveal_with_fuel(Seq::filter, 2);
    if blocks.len() > 0 {
        text_blocks_are_seen(blocks.drop_last());
    }
    assert(visible(blocks) =~= blocks.filter(|b: ContentBlock| b is Text).map_values(
        |b: ContentBlock| b->text@,
    ));
}

/// Whether a text is what a child answered: the texts of its reply, or its error
/// in brackets.
pub open spec fn answers(o: ChildOutcome, text: Seq<char>) -> bool {
    match o {
        ChildOutcome::Reply(blocks) => text == join(
            blocks@.filter(|b: ContentBlock| b is Text).map_values(|b: ContentBlock| b->text@),
            "\n"@,
        ),
        ChildOutcome::Failed(error) => text == "[error: "@ + error@ + "]"@,
    }
}

/// The answer of a call with one child is the child's text. With several, it has
/// the text of every child behind the child's number, in the order of the
/// numbers, in whatever order the children came back.
pub proof fn answer_has_every_child(
    results: Seq<(usize, ChildOutcome)>,
    by_child: Seq<Seq<char>>,
)
    requires
        results.len() == by_child.len(),
        forall|k: int|
            0 <= k < results.len() ==> (#[trigger] results[k]).0 < by_child.len() && answers(
                results[k].1,
                by_child[results[k].0 as int],
            ),
        forall|j: int, k: int|
            #![trigger results[j], results[k]]
            0 <= j < k < results.len() ==> results[j].0 != results[k].0,
    ensures
        by_child.len() == 1 ==> answer(results) == by_child[0],
        by_child.len() != 1 ==> answer(results) == join(
            Seq::new(by_child.len(), |i: int| "["@ + decimal(i as nat) + "] "@ + by_child[i]),
            "\n\n---\n\n"@,
        ),
{
    assert forall|k: int| 0 <= k < results.len() implies (#[trigger] results[k]).0 < by_child.len()
        && outcome_text(results[k].1) == by_child[results[k].0 as int] by {
        if let ChildOutcome::Reply(blocks) = results[k].1 {
            text_blocks_are_seen(blocks@);
        }
    }
    answer_follows_the_prompts(results, by_child);
    let ordered = Seq::new(by_child.len(), |i: int| (i as usize, by_child[i]));
    let blocks = Seq::new(
        by_child.len(),
        |i: int| "["@ + decimal(i as nat) + "] "@ + by_child[i],
    );
    if by_child.len() != 1 {
        small_enough(results, by_child.len() as int);
        assert(ordered.map_values(|c: (usize, Seq<char>)| block_of(c)) =~= blocks);
    }
}

/// There are no more children than can be numbered.
proof fn small_enough(results: Seq<(usize, ChildOutcome)>, n: int)
    requires
        results.len() == n,
        forall|k: int| 0 <= k < n ==> (#[trigger] results[k]).0 < n,
        forall|j: int, k: int|
            #![trigger results[j], results[k]]
            0 <= j < k < n ==> results[j].0 != results[k].0,
    ensures
        n <= usize::MAX + 1,
{
    let numbers = results.map_values(|r: (usize, ChildOutcome)| r.0 as int);
    assert(numbers.no_duplicates());
    vstd::seq_lib::seq_to_set_is_finite(numbers);
    numbers.unique_seq_to_set();
    let all = vstd::set_lib::set_int_range(0, usize::MAX + 1);
    vstd::set_lib::lemma_int_range(0, usize::MAX + 1);
    assert(numbers.to_set().subset_of(all)) by {
        assert forall|x: int| numbers.to_set().contains(x) implies all.contains(x) by {
            let k = choose|k: int| 0 <= k < numbers.len() && numbers[k] == x;
            assert(numbers[k] == results[k].0);
        }
    }
    vstd::set_lib::lemma_len_subset(numbers.to_set(), all);
}

/// The model is told of exactly the members that are read, and of the defaults.
pub proof fn schema_names_what_is_read()
    ensures
        ({
            let p = input_properties();
            &&& p.len() == 5
            &&& p[0].name == "prompt"@ && p[0].kind == "string"@ && p[0].items is None
            &&& p[1].name == "prompts"@ && p[1].kind == "array"@ && p[1].items == Some("string"@)
            &&& p[2].name == "model"@ && p[2].kind == "string"@ && p[2].items is None
            &&& p[3].name == "system"@ && p[3].kind == "string"@ && p[3].items is None
            &&& p[4].name == "max_tokens"@ && p[4].kind == "integer"@ && p[4].items is None
            &&& p[0].description == "Single prompt to run. Use this OR prompts, not both."@
            &&& p[1].description
                == "Up to 16 prompts to run concurrently (each is a one-shot flash query). Returns indexed `[0] ... [N-1]` blocks."@
            &&& p[2].description == "Model override (default: deepseek-v4-flash)."@
            &&& p[3].description == "Optional shared system prompt applied to every child."@
            &&& p[4].description == "Per-child token cap (default: 4096)."@
        }),
{
}

/// A plan and an error are seen whole.
pub proof fn plans_are_seen_whole(requests: Vec<ChildRequest>, message: String)
    ensures
        plan_view(Ok(requests)) == Ok::<Seq<ChildRequestView>, ToolErrorView>(
            request_views(requests@),
        ),
        plan_view(Err(ToolError::NotAvailable { message })) == Err::<
            Seq<ChildRequestView>,
            ToolErrorView,
        >(ToolErrorView::NotAvailable { message: message@ }),
        plan_view(Err(ToolError::InvalidInput { message })) == Err::<
            Seq<ChildRequestView>,
            ToolErrorView,
        >(ToolErrorView::InvalidInput { message: message@ }),
{
}

/// What a call asks for is read member by member.
pub proof fn input_is_read_member_by_member(v: Value)
    ensures
        ({
            let input = input_of(v);
            &&& match json_member(v, "prompt"@) {
                Some(m) => input.prompt == json_text(m),
                None => input.prompt is None,
            }
            &&& match json_member(v, "model"@) {
                Some(m) => input.model == json_text(m),
                None => input.model is None,
            }
            &&& match json_member(v, "system"@) {
                Some(m) => input.system == json_text(m),
                None => input.system is None,
            }
            &&& match json_member(v, "max_tokens"@) {
                Some(m) => input.max_tokens == json_u64(m),
                None => input.max_tokens is None,
            }
            &&& match json_member(v, "prompts"@) {
                Some(m) => match json_items(m) {
                    Some(items) => input.prompts matches Some(read) && read.len() == items.len()
                        && forall|i: int|
                        0 <= i < items.len() ==> #[trigger] read[i] == json_text(items[i]),
                    None => input.prompts is None,
                },
                None => input.prompts is None,
            }
        }),
{
}

} // verus!
