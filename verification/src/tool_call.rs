//! Reading a tool call out of a JSON object the model wrote.
use vstd::prelude::*;
use crate::text::{chars_of, str_eq, string_of};

verus! {

/// A JSON value as the agent reads it; numbers keep their written form and
/// objects their members in order.
pub enum JsonValue {
    Null,
    Bool(bool),
    Number(String),
    Text(String),
    Array(Vec<JsonValue>),
    Object(Vec<(String, JsonValue)>),
}

/// The first of the first `n` members whose key is `k`.
pub open spec fn find_key(ps: Seq<(String, JsonValue)>, k: Seq<char>, n: int) -> Option<int>
    decreases n,
{
    if n <= 0 {
        None
    } else {
        match find_key(ps, k, n - 1) {
            Some(i) => Some(i),
            None => if ps[n - 1].0@ == k {
                Some(n - 1)
            } else {
                None
            },
        }
    }
}

/// The first `n` members without those whose key is `k`, in order.
pub open spec fn without_key(ps: Seq<(String, JsonValue)>, k: Seq<char>, n: int) -> Seq<(String, JsonValue)>
    decreases n,
{
    if n <= 0 {
        seq![]
    } else {
        let prev = without_key(ps, k, n - 1);
        if ps[n - 1].0@ == k {
            prev
        } else {
            prev.push(ps[n - 1])
        }
    }
}

/// The value of the first member with key `k`.
pub open spec fn member(ps: Seq<(String, JsonValue)>, k: Seq<char>, n: int) -> Option<JsonValue> {
    match find_key(ps, k, n) {
        Some(i) => Some(ps[i].1),
        None => None,
    }
}

/// The arguments of a tool call in an object with members `ps`: the
/// `args` object; a non-object `args` under the key `value`; or, without
/// `args`, every member but `tool`.
pub open spec fn args_ok(ps: Seq<(String, JsonValue)>, args: JsonValue) -> bool {
    match member(ps, "args"@, ps.len() as int) {
        Some(JsonValue::Object(m)) => args == JsonValue::Object(m),
        Some(o) => args matches JsonValue::Object(m2) && m2@.len() == 1 && m2@[0].0@ == "value"@ && m2@[0].1 == o,
        None => args matches JsonValue::Object(m3) && m3@ == without_key(ps, "tool"@, ps.len() as int),
    }
}

pub proof fn lemma_find_key(ps: Seq<(String, JsonValue)>, k: Seq<char>, n: int)
    requires
        0 <= n <= ps.len(),
    ensures
        match find_key(ps, k, n) {
            Some(i) => 0 <= i < n && ps[i].0@ == k,
            None => forall|j: int| 0 <= j < n ==> (#[trigger] ps[j]).0@ != k,
        },
    decreases n,
{
    if n > 0 {
        lemma_find_key(ps, k, n - 1);
    }
}

/// The tool a JSON value calls, with its arguments: an object whose first
/// `tool` member is text names the tool; anything else calls none.
pub fn extract_tool_args(val: JsonValue) -> (r: Option<(String, JsonValue)>)
    ensures
        match val {
            JsonValue::Object(ps) => match r {
                None => !(member(ps@, "tool"@, ps@.len() as int) matches Some(JsonValue::Text(_))),
                Some((name, args)) => member(ps@, "tool"@, ps@.len() as int) == Some(JsonValue::Text(name))
                    && args_ok(ps@, args),
            },
            _ => r is None,
        },
{
    let mut ps = match val {
        JsonValue::Object(ps) => ps,
        _ => {
            return None;
        },
    };
    let ghost orig = ps@;
    let n0 = ps.len();
    assert(orig.len() == n0);
    proof {
        reveal_strlit("tool");
        reveal_strlit("args");
        reveal_strlit("value");
        assert("tool"@[0] != "args"@[0]);
        assert("tool"@ != "args"@);
    }
    let mut tool: Option<JsonValue> = None;
    let mut args: Option<JsonValue> = None;
    let mut rest: Vec<(String, JsonValue)> = Vec::new();
    let mut i: usize = 0;
    while ps.len() > 0
        invariant
            i + ps@.len() == orig.len(),
            orig.len() <= usize::MAX,
            ps@ == orig.skip(i as int),
            tool == member(orig, "tool"@, i as int),
            args == member(orig, "args"@, i as int),
            args is None ==> rest@ == without_key(orig, "tool"@, i as int),
        decreases ps.len(),
    {
        let ghost before = ps@;
        let (k, v) = ps.remove(0);
        assert(orig[i as int] == before[0]);
        assert(orig[i as int].0 == k && orig[i as int].1 == v);
        assert(ps@ =~= orig.skip(i + 1));
        let is_tool = str_eq(k.as_str(), "tool");
        let is_args = str_eq(k.as_str(), "args");
        assert(member(orig, "args"@, i + 1) == if member(orig, "args"@, i as int) is Some {
            member(orig, "args"@, i as int)
        } else if orig[i as int].0@ == "args"@ {
            Some(orig[i as int].1)
        } else {
            None::<JsonValue>
        });
        proof {
            reveal_strlit("tool");
            reveal_strlit("args");
            assert("tool"@[0] != "args"@[0]);
        }
        assert(is_tool ==> !is_args);
        if is_tool {
            if tool.is_none() {
                tool = Some(v);
            }
        } else if is_args {
            if args.is_none() {
                args = Some(v);
            }
        } else {
            if args.is_none() {
                rest.push((k, v));
            }
        }
        i = i + 1;
    }
    assert(orig.skip(i as int).len() == 0);
    match tool {
        Some(JsonValue::Text(name)) => {
            let a = match args {
                Some(JsonValue::Object(m)) => JsonValue::Object(m),
                Some(o) => {
                    let mut m2: Vec<(String, JsonValue)> = Vec::new();
                    m2.push((string_of(chars_of("value").as_slice()), o));
                    JsonValue::Object(m2)
                },
                None => JsonValue::Object(rest),
            };
            Some((name, a))
        },
        _ => None,
    }
}

} // verus!
