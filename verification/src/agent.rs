//! The question-answering agent's options and the reading of its replies.
use vstd::prelude::*;
use crate::config::SearchMode;
use crate::text::{append, str_eq, chars_of, contains, contains_exec, ends_with, ends_with_exec, slice_range, string_of,
    trim, trim_end, trim_end_exec, trim_exec, CharClass};

verus! {

/// How many reasoning steps the agent may take.
#[derive(Clone, Copy, Debug, PartialEq, Eq, Structural)]
pub enum AgentDepth {
    Shallow,
    Default,
    Deep,
}

impl Default for AgentDepth {
    fn default() -> (d: Self)
        ensures
            d == AgentDepth::Default,
    {
        AgentDepth::Default
    }
}

/// Options a question is asked with.
#[derive(Clone, Debug)]
pub struct AgentOptions {
    pub top: Option<usize>,
    pub mode: Option<SearchMode>,
    pub lang: Option<String>,
    pub path: Option<String>,
    pub with_summaries: bool,
    pub depth: AgentDepth,
}

impl Default for AgentOptions {
    fn default() -> (o: Self)
        ensures
            o.top is None,
            o.mode is None,
            o.lang is None,
            o.path is None,
            !o.with_summaries,
            o.depth == AgentDepth::Default,
    {
        AgentOptions { top: None, mode: None, lang: None, path: None, with_summaries: false, depth: AgentDepth::Default }
    }
}

/// The number of steps the agent may take at a depth.
pub open spec fn max_steps_spec(d: AgentDepth) -> usize {
    match d {
        AgentDepth::Shallow => 3,
        AgentDepth::Default => 6,
        AgentDepth::Deep => 12,
    }
}

pub fn max_steps(d: AgentDepth) -> (n: usize)
    ensures
        n == max_steps_spec(d),
{
    match d {
        AgentDepth::Shallow => 3,
        AgentDepth::Default => 6,
        AgentDepth::Deep => 12,
    }
}

/// The brace scanner's state: depth, start of the open object, pieces.
pub type ScanState = (int, Option<int>, Seq<Seq<char>>);

/// The scanner after the first `n` characters of `s`: each `{` at depth 0
/// opens a piece, and the `}` that brings the depth back to 0 closes it.
pub open spec fn brace_scan(s: Seq<char>, n: int) -> ScanState
    decreases n,
{
    if n <= 0 {
        (0, None, seq![])
    } else {
        let st = brace_scan(s, n - 1);
        let c = s[n - 1];
        if c == '{' {
            (st.0 + 1, if st.0 == 0 {
                Some(n - 1)
            } else {
                st.1
            }, st.2)
        } else if c == '}' && st.0 > 0 {
            if st.0 - 1 == 0 {
                match st.1 {
                    Some(a) => (0, None, st.2.push(s.subrange(a, n))),
                    None => (0, None, st.2),
                }
            } else {
                (st.0 - 1, st.1, st.2)
            }
        } else {
            st
        }
    }
}

/// What a reply may hold as a tool call, in the order to try: the whole
/// reply without surrounding whitespace, then each balanced `{...}` piece
/// in the order it closes. A blank reply holds none.
pub open spec fn tool_call_candidates_spec(response: Seq<char>) -> Seq<Seq<char>> {
    let t = trim(response, CharClass::Whitespace);
    if t.len() == 0 {
        seq![]
    } else {
        seq![t] + brace_scan(t, t.len() as int).2
    }
}

pub proof fn lemma_brace_scan(s: Seq<char>, n: int)
    requires
        0 <= n <= s.len(),
    ensures
        brace_scan(s, n).0 >= 0,
        brace_scan(s, n).1 matches Some(a) ==> 0 <= a < n,
        brace_scan(s, n).0 > 0 <==> brace_scan(s, n).1 is Some,
    decreases n,
{
    if n > 0 {
        lemma_brace_scan(s, n - 1);
    }
}

/// The pieces of a reply that may be a tool call.
pub fn tool_call_candidates(response: &str) -> (r: Vec<String>)
    ensures
        r@.map_values(|x: String| x@) == tool_call_candidates_spec(response@),
{
    let cs = chars_of(response);
    let t = trim_exec(cs.as_slice(), &CharClass::Whitespace);
    let mut out: Vec<String> = Vec::new();
    if t.len() == 0 {
        assert(out@.map_values(|x: String| x@) =~= Seq::<Seq<char>>::empty());
        return out;
    }
    out.push(string_of(t.as_slice()));
    let mut depth: usize = 0;
    let mut start: Option<usize> = None;
    let mut i: usize = 0;
    while i < t.len()
        invariant
            0 <= i <= t.len(),
            t@ == trim(response@, CharClass::Whitespace),
            depth as int == brace_scan(t@, i as int).0,
            depth <= i,
            start == match brace_scan(t@, i as int).1 {
                Some(a) => Some(a as usize),
                None => None::<usize>,
            },
            out@.map_values(|x: String| x@) == seq![t@] + brace_scan(t@, i as int).2,
        decreases t.len() - i,
    {
        proof {
            lemma_brace_scan(t@, i as int);
        }
        let c = t[i];
        if c == '{' {
            if depth == 0 {
                start = Some(i);
            }
            depth = depth + 1;
        } else if c == '}' && depth > 0 {
            depth = depth - 1;
            if depth == 0 {
                match start {
                    Some(a) => {
                        let piece = slice_range(t.as_slice(), a, i + 1);
                        let ghost before = out@.map_values(|x: String| x@);
                        out.push(string_of(piece.as_slice()));
                        assert(out@.map_values(|x: String| x@) =~= before.push(t@.subrange(a as int, i + 1)));
                    },
                    None => {},
                }
                start = None;
            }
        }
        i = i + 1;
    }
    out
}

/// Why language-model settings are refused.
#[derive(Clone, Copy, Debug, PartialEq, Eq, Structural)]
pub enum SettingsError {
    /// The address is OpenAI's but no OpenAI key is set.
    MissingOpenAiKey,
}

/// The settings of a language-model client: key, model and endpoint.
pub type LlmSettings = (Seq<char>, Seq<char>, Seq<char>);

/// The client settings from the environment's OpenAI key, API base and
/// model, and a model asked for: with a key, OpenAI and `gpt-4o-mini` by
/// default; without, a local Ollama server, `qwen2.5-coder:1.5b` and the key
/// `dummy`. The endpoint is the base with `/chat/completions` added unless
/// it ends so (after trailing slashes are dropped). OpenAI's address with
/// the key `dummy` is refused.
pub open spec fn llm_settings_spec(
    openai_key: Option<Seq<char>>,
    api_base: Option<Seq<char>>,
    env_model: Option<Seq<char>>,
    model: Option<Seq<char>>,
) -> Result<LlmSettings, SettingsError> {
    let default_url = if openai_key is Some {
        "https://api.openai.com/v1"@
    } else {
        "http://localhost:11434/v1"@
    };
    let default_model = if openai_key is Some {
        "gpt-4o-mini"@
    } else {
        "qwen2.5-coder:1.5b"@
    };
    let key = match openai_key {
        Some(k) => k,
        None => "dummy"@,
    };
    let url = match api_base {
        Some(u) => u,
        None => default_url,
    };
    let m = match model {
        Some(m) => m,
        None => match env_model {
            Some(m) => m,
            None => default_model,
        },
    };
    if contains(url, "openai.com"@) && key == "dummy"@ {
        Err(SettingsError::MissingOpenAiKey)
    } else {
        let endpoint = if ends_with(url, "/chat/completions"@) {
            url
        } else {
            trim_end(url, CharClass::Exactly('/')) + "/chat/completions"@
        };
        Ok((key, m, endpoint))
    }
}

fn text_of(s: &str) -> (r: String)
    ensures
        r@ == s@,
{
    string_of(chars_of(s).as_slice())
}

/// Chooses the settings of a language-model client.
pub fn llm_settings(
    openai_key: Option<String>,
    api_base: Option<String>,
    env_model: Option<String>,
    model: Option<String>,
) -> (r: Result<(String, String, String), SettingsError>)
    ensures
        match llm_settings_spec(
            crate::refs::opt_view(openai_key),
            crate::refs::opt_view(api_base),
            crate::refs::opt_view(env_model),
            crate::refs::opt_view(model),
        ) {
            Ok(x) => r matches Ok(y) && y.0@ == x.0 && y.1@ == x.1 && y.2@ == x.2,
            Err(e) => r == Err::<(String, String, String), SettingsError>(e),
        },
{
    let has_key = openai_key.is_some();
    let key = match openai_key {
        Some(k) => k,
        None => text_of("dummy"),
    };
    let url = match api_base {
        Some(u) => u,
        None => if has_key {
            text_of("https://api.openai.com/v1")
        } else {
            text_of("http://localhost:11434/v1")
        },
    };
    let m = match model {
        Some(m) => m,
        None => match env_model {
            Some(m) => m,
            None => if has_key {
                text_of("gpt-4o-mini")
            } else {
                text_of("qwen2.5-coder:1.5b")
            },
        },
    };
    let uc = chars_of(url.as_str());
    let kc = chars_of(key.as_str());
    if contains_exec(uc.as_slice(), chars_of("openai.com").as_slice()) && crate::text::seq_eq(
        kc.as_slice(),
        chars_of("dummy").as_slice(),
    ) {
        return Err(SettingsError::MissingOpenAiKey);
    }
    let endpoint = if ends_with_exec(uc.as_slice(), chars_of("/chat/completions").as_slice()) {
        url
    } else {
        let mut e = trim_end_exec(uc.as_slice(), &CharClass::Exactly('/'));
        crate::text::append(&mut e, chars_of("/chat/completions").as_slice());
        string_of(e.as_slice())
    };
    Ok((key, m, endpoint))
}

/// Where the answering of a question stands: model calls made, the limit,
/// and whether a tool has run.
pub struct AskState {
    pub steps: usize,
    pub max_steps: usize,
    pub used_tool: bool,
}

/// What the agent does next.
pub enum AskAction {
    /// Send the conversation to the model.
    Consult,
    /// Record the reply and run the tool it calls.
    RunTool,
    /// Record the reply and ask for a tool call.
    Nudge,
    /// Stop with this answer.
    Answer(String),
}

/// The answer given when the steps run out.
pub open spec fn out_of_steps() -> Seq<char> {
    "I reached the maximum number of steps without a final answer."@
}

/// The request sent after a reply without a tool call, before any tool ran.
pub open spec fn nudge_text() -> Seq<char> {
    "No tool call seen. Respond with a JSON tool call only."@
}

impl AskState {
    /// A question not yet put to the model.
    pub fn start(opts: &AgentOptions) -> (s: AskState)
        ensures
            s.steps == 0,
            s.max_steps == max_steps_spec(opts.depth),
            !s.used_tool,
    {
        AskState { steps: 0, max_steps: max_steps(opts.depth), used_tool: false }
    }

    /// Before a model call: consult while steps remain, else give up.
    pub fn next_action(&self) -> (a: AskAction)
        ensures
            self.steps < self.max_steps ==> a is Consult,
            self.steps >= self.max_steps ==> (a matches AskAction::Answer(t) && t@ == out_of_steps()),
    {
        if self.steps < self.max_steps {
            AskAction::Consult
        } else {
            AskAction::Answer(string_of(chars_of("I reached the maximum number of steps without a final answer.").as_slice()))
        }
    }

    /// After the model replied: a reply that calls a tool runs it; one
    /// that does not is nudged until a tool has run, and is the answer
    /// after that. Each reply uses a step.
    pub fn on_reply(&mut self, calls_tool: bool, reply: &str) -> (a: AskAction)
        requires
            old(self).steps < old(self).max_steps,
        ensures
            final(self).steps == old(self).steps + 1,
            final(self).max_steps == old(self).max_steps,
            final(self).used_tool == (old(self).used_tool || calls_tool),
            calls_tool ==> a is RunTool,
            !calls_tool && !old(self).used_tool ==> a is Nudge,
            !calls_tool && old(self).used_tool ==> (a matches AskAction::Answer(t) && t@ == reply@),
    {
        self.steps = self.steps + 1;
        if calls_tool {
            self.used_tool = true;
            AskAction::RunTool
        } else if !self.used_tool {
            AskAction::Nudge
        } else {
            AskAction::Answer(string_of(chars_of(reply).as_slice()))
        }
    }
}

/// The request that asks the model for a tool call.
pub fn nudge_message() -> (s: String)
    ensures
        s@ == nudge_text(),
{
    string_of(chars_of("No tool call seen. Respond with a JSON tool call only.").as_slice())
}

/// What a tool's output is handed back to the model as.
pub fn tool_output_message(output: &str) -> (s: String)
    ensures
        s@ == "Tool Output: "@ + output@,
{
    let mut v = chars_of("Tool Output: ");
    append(&mut v, chars_of(output).as_slice());
    string_of(v.as_slice())
}

/// The output of a call to a tool that is not registered.
pub fn missing_tool_message(name: &str) -> (s: String)
    ensures
        s@ == "Error: Tool '"@ + name@ + "' not found."@,
{
    let mut v = chars_of("Error: Tool '");
    append(&mut v, chars_of(name).as_slice());
    append(&mut v, chars_of("' not found.").as_slice());
    string_of(v.as_slice())
}

/// The output of a tool call that failed.
pub fn tool_error_message(error: &str) -> (s: String)
    ensures
        s@ == "Error: "@ + error@,
{
    let mut v = chars_of("Error: ");
    append(&mut v, chars_of(error).as_slice());
    string_of(v.as_slice())
}

/// The tools listed for the model: a line `- name: description` each.
pub open spec fn tools_listing(ts: Seq<(Seq<char>, Seq<char>)>) -> Seq<char>
    decreases ts.len(),
{
    if ts.len() == 0 {
        seq![]
    } else {
        tools_listing(ts.drop_last()) + "- "@ + ts.last().0 + ": "@ + ts.last().1 + "\n"@
    }
}

pub open spec fn pair_views(v: Seq<(String, String)>) -> Seq<(Seq<char>, Seq<char>)> {
    v.map_values(|p: (String, String)| (p.0@, p.1@))
}

/// Lists the tools, by name and description, in the order given.
pub fn tools_description(tools: &Vec<(String, String)>) -> (s: String)
    ensures
        s@ == tools_listing(pair_views(tools@)),
{
    let ghost tv = pair_views(tools@);
    let mut v: Vec<char> = Vec::new();
    let mut i: usize = 0;
    while i < tools.len()
        invariant
            0 <= i <= tools.len(),
            tv == pair_views(tools@),
            v@ == tools_listing(tv.take(i as int)),
        decreases tools.len() - i,
    {
        let ghost before = v@;
        append(&mut v, chars_of("- ").as_slice());
        append(&mut v, chars_of(tools[i].0.as_str()).as_slice());
        append(&mut v, chars_of(": ").as_slice());
        append(&mut v, chars_of(tools[i].1.as_str()).as_slice());
        append(&mut v, chars_of("\n").as_slice());
        assert(tv.take(i + 1).drop_last() =~= tv.take(i as int));
        assert(tv[i as int] == (tools[i as int].0@, tools[i as int].1@));
        i = i + 1;
    }
    assert(tv.take(tools.len() as int) =~= tv);
    string_of(v.as_slice())
}

/// A default that a search call gets from the question's options.
pub enum ArgDefault {
    Top(usize),
    Mode(SearchMode),
    Lang(String),
    Path(String),
    WithSummaries,
}

/// Whether `keys` holds `k`.
pub open spec fn has_key(keys: Seq<Seq<char>>, k: Seq<char>) -> bool {
    exists|i: int| 0 <= i < keys.len() && keys[i] == k
}

pub open spec fn key_views(v: Seq<String>) -> Seq<Seq<char>> {
    v.map_values(|s: String| s@)
}

pub open spec fn arg_default_view(d: ArgDefault) -> (int, Option<usize>, Option<SearchMode>, Seq<char>) {
    match d {
        ArgDefault::Top(n) => (0, Some(n), None, seq![]),
        ArgDefault::Mode(m) => (1, None, Some(m), seq![]),
        ArgDefault::Lang(l) => (2, None, None, l@),
        ArgDefault::Path(p) => (3, None, None, p@),
        ArgDefault::WithSummaries => (4, None, None, seq![]),
    }
}

/// The defaults a search call gets: each option that is set, for an
/// argument the call does not give, in the order top, mode, lang, path,
/// with_summaries. Calls to other tools get none.
pub open spec fn search_defaults_spec(
    tool: Seq<char>,
    keys: Seq<Seq<char>>,
    opts: AgentOptions,
) -> Seq<(int, Option<usize>, Option<SearchMode>, Seq<char>)> {
    if tool != "search"@ {
        seq![]
    } else {
        (if !has_key(keys, "top"@) && opts.top is Some {
            seq![(0, opts.top, None::<SearchMode>, Seq::<char>::empty())]
        } else {
            seq![]
        }) + (if !has_key(keys, "mode"@) && opts.mode is Some {
            seq![(1, None::<usize>, opts.mode, Seq::<char>::empty())]
        } else {
            seq![]
        }) + (if !has_key(keys, "lang"@) && opts.lang is Some {
            seq![(2, None::<usize>, None::<SearchMode>, opts.lang->0@)]
        } else {
            seq![]
        }) + (if !has_key(keys, "path"@) && opts.path is Some {
            seq![(3, None::<usize>, None::<SearchMode>, opts.path->0@)]
        } else {
            seq![]
        }) + (if !has_key(keys, "with_summaries"@) && opts.with_summaries {
            seq![(4, None::<usize>, None::<SearchMode>, Seq::<char>::empty())]
        } else {
            seq![]
        })
    }
}

fn has_key_exec(keys: &Vec<String>, k: &str) -> (b: bool)
    ensures
        b == has_key(key_views(keys@), k@),
{
    let mut i: usize = 0;
    while i < keys.len()
        invariant
            0 <= i <= keys.len(),
            forall|j: int| 0 <= j < i ==> keys@[j]@ != k@,
        decreases keys.len() - i,
    {
        if str_eq(keys[i].as_str(), k) {
            assert(key_views(keys@)[i as int] == k@);
            return true;
        }
        i = i + 1;
    }
    assert forall|j: int| 0 <= j < keys.len() implies key_views(keys@)[j] != k@ by {
        assert(key_views(keys@)[j] == keys@[j]@);
    }
    false
}

/// The defaults to add to a tool call's arguments, given the argument
/// names it has (none when its arguments are not an object).
pub fn search_defaults(tool: &str, keys: &Vec<String>, opts: &AgentOptions) -> (r: Vec<ArgDefault>)
    ensures
        r@.map_values(|d: ArgDefault| arg_default_view(d)) == search_defaults_spec(tool@, key_views(keys@), *opts),
{
    let mut r: Vec<ArgDefault> = Vec::new();
    proof {
        reveal_strlit("search");
        reveal_strlit("top");
        reveal_strlit("mode");
        reveal_strlit("lang");
        reveal_strlit("path");
        reveal_strlit("with_summaries");
    }
    if !str_eq(tool, "search") {
        assert(r@.map_values(|d: ArgDefault| arg_default_view(d)) =~= seq![]);
        return r;
    }
    let ghost kv = key_views(keys@);
    let ghost a = if !has_key(kv, "top"@) && opts.top is Some {
        seq![(0int, opts.top, None::<SearchMode>, Seq::<char>::empty())]
    } else {
        seq![]
    };
    if !has_key_exec(keys, "top") {
        if let Some(n) = opts.top {
            r.push(ArgDefault::Top(n));
        }
    }
    assert(r@.map_values(|d: ArgDefault| arg_default_view(d)) =~= a);
    let ghost b = if !has_key(kv, "mode"@) && opts.mode is Some {
        seq![(1int, None::<usize>, opts.mode, Seq::<char>::empty())]
    } else {
        seq![]
    };
    if !has_key_exec(keys, "mode") {
        if let Some(m) = opts.mode {
            r.push(ArgDefault::Mode(m));
        }
    }
    assert(r@.map_values(|d: ArgDefault| arg_default_view(d)) =~= a + b);
    let ghost c = if !has_key(kv, "lang"@) && opts.lang is Some {
        seq![(2int, None::<usize>, None::<SearchMode>, opts.lang->0@)]
    } else {
        seq![]
    };
    if !has_key_exec(keys, "lang") {
        if let Some(l) = &opts.lang {
            r.push(ArgDefault::Lang(string_of(chars_of(l.as_str()).as_slice())));
        }
    }
    assert(r@.map_values(|d: ArgDefault| arg_default_view(d)) =~= a + b + c);
    let ghost d = if !has_key(kv, "path"@) && opts.path is Some {
        seq![(3int, None::<usize>, None::<SearchMode>, opts.path->0@)]
    } else {
        seq![]
    };
    if !has_key_exec(keys, "path") {
        if let Some(p) = &opts.path {
            r.push(ArgDefault::Path(string_of(chars_of(p.as_str()).as_slice())));
        }
    }
    assert(r@.map_values(|d: ArgDefault| arg_default_view(d)) =~= a + b + c + d);
    let ghost e = if !has_key(kv, "with_summaries"@) && opts.with_summaries {
        seq![(4int, None::<usize>, None::<SearchMode>, Seq::<char>::empty())]
    } else {
        seq![]
    };
    if !has_key_exec(keys, "with_summaries") && opts.with_summaries {
        r.push(ArgDefault::WithSummaries);
    }
    assert(r@.map_values(|d: ArgDefault| arg_default_view(d)) =~= a + b + c + d + e);
    r
}

/// What the summary generator asks the model about a piece of code.
pub open spec fn summary_prompt_spec(code: Seq<char>, context: Seq<char>) -> Seq<char> {
    "You are a code summarization assistant. Summarize the following code concisely.\nContext: "@ + context
        + "\nCode:\n```\n"@ + code + "\n```\nSummary:"@
}

/// The request that asks the model to summarize code in its context.
pub fn summary_prompt(code: &str, context: &str) -> (s: String)
    ensures
        s@ == summary_prompt_spec(code@, context@),
{
    let mut v = chars_of("You are a code summarization assistant. Summarize the following code concisely.\nContext: ");
    append(&mut v, chars_of(context).as_slice());
    append(&mut v, chars_of("\nCode:\n```\n").as_slice());
    append(&mut v, chars_of(code).as_slice());
    append(&mut v, chars_of("\n```\nSummary:").as_slice());
    string_of(v.as_slice())
}

} // verus!
