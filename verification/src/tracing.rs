use vstd::prelude::*;

use crate::json::JsonValue;
use crate::strings::string_eq;

verus! {

/// The tracing options of a runtime: whether tracing is on and the stage it
/// runs in.
#[derive(Debug)]
pub struct APIWrapper {
    pub enabled: bool,
    pub stage: String,
}

/// The tracer of a runtime: its options, whether it is on, and, when it is,
/// the batch size of the background tracer that sends the logs.
#[derive(Debug)]
pub struct BamlTracer {
    pub options: APIWrapper,
    pub enabled: bool,
    pub tracer_batch_size: Option<u32>,
}

/// The batch size of the background tracer for a stage: one event at a time
/// in `test`, twenty otherwise.
pub open spec fn batch_size_for(stage: Seq<char>) -> u32 {
    if stage == "test"@ {
        1
    } else {
        20
    }
}

/// A span of a traced function call.
#[derive(Debug)]
pub struct TracingSpan {
    pub span_id: u128,
    pub function_name: String,
    pub params: Vec<(String, JsonValue)>,
    pub parent_ids: Option<Vec<(String, u128)>>,
}

/// The version-4 UUID made from 128 random bits: the version nibble is set to
/// 4 and the two variant bits to `10`, every other bit is taken from
/// `random`.
pub open spec fn v4_id(random: u128) -> u128 {
    (random & 0xffff_ffff_ffff_0fff_3fff_ffff_ffff_ffffu128) | 0x0000_0000_0000_4000_8000_0000_0000_0000u128
}

/// Calls `uuid::Builder::from_random_bytes` on the big-endian bytes of
/// `random`, then `into_uuid` and `as_u128`. `from_random_bytes` sets byte
/// 6's high nibble to the version (4) and byte 8's two high bits to the RFC
/// 4122 variant (`10`) and keeps every other bit; `as_u128` reads the bytes
/// back big-endian. The contract claims exactly that.
#[verifier::external_body]
fn uuid_v4_from_random(random: u128) -> (r: u128)
    ensures
        r == v4_id(random),
{
    uuid::Builder::from_random_bytes(random.to_be_bytes()).into_uuid().as_u128()
}

impl BamlTracer {
    /// A tracer with the given options, or `fallback` when there are none;
    /// the background tracer exists only when tracing is enabled.
    pub fn new(options: Option<APIWrapper>, fallback: APIWrapper) -> (r: Self)
        ensures
            r.options == (match options {
                Some(o) => o,
                None => fallback,
            }),
            r.enabled == r.options.enabled,
            r.tracer_batch_size == (if r.options.enabled {
                Some(batch_size_for(r.options.stage@))
            } else {
                None
            }),
    {
        let options = match options {
            Some(o) => o,
            None => fallback,
        };
        let test = "test".to_owned();
        let tracer_batch_size = if options.enabled {
            Some(if string_eq(&options.stage, &test) { 1u32 } else { 20u32 })
        } else {
            None
        };
        BamlTracer { enabled: options.enabled, tracer_batch_size, options }
    }

    /// Whether there is a background tracer to flush.
    pub fn flush(&self) -> (r: bool)
        ensures
            r == self.tracer_batch_size is Some,
    {
        self.tracer_batch_size.is_some()
    }

    /// A new span for a call of `function_name`, under `parent` when given,
    /// whose id is the version-4 UUID made from the random bits `random`;
    /// none when tracing is off.
    pub fn start_span(
        &self,
        function_name: &str,
        params: &Vec<(String, JsonValue)>,
        parent: Option<&TracingSpan>,
        random: u128,
    ) -> (r: Option<TracingSpan>)
        ensures
            !self.enabled ==> r is None,
            self.enabled ==> (r matches Some(s) && s.function_name@ == function_name@ && s.params@.len() == params@.len()
                && (forall|i: int| 0 <= i < params@.len() ==> (#[trigger] s.params@[i]).0@ == params@[i].0@ && s.params@[i].1@ == params@[i].1@)
                && s.span_id == v4_id(random)
                && match parent {
                    None => s.parent_ids is None,
                    Some(p) => (s.parent_ids matches Some(ids) && ids@.len() == 1 && ids@[0].0@ == p.function_name@ && ids@[0].1 == p.span_id),
                }),
    {
        if !self.enabled {
            return None;
        }
        let mut copied: Vec<(String, JsonValue)> = Vec::new();
        let mut i: usize = 0;
        while i < params.len()
            invariant
                i <= params@.len(),
                copied@.len() == i,
                forall|j: int| 0 <= j < i ==> (#[trigger] copied@[j]).0@ == params@[j].0@ && copied@[j].1@ == params@[j].1@,
            decreases params@.len() - i,
        {
            copied.push((params[i].0.clone(), crate::schema::copy_json(&params[i].1)));
            i = i + 1;
        }
        let parent_ids = match parent {
            Some(p) => {
                let mut ids: Vec<(String, u128)> = Vec::new();
                ids.push((p.function_name.clone(), p.span_id));
                Some(ids)
            },
            None => None,
        };
        Some(TracingSpan { span_id: uuid_v4_from_random(random), function_name: function_name.to_owned(), params: copied, parent_ids })
    }
}

/// The id of the first event of a span's chain: its first parent's id, or
/// its own when it has no parent.
pub fn root_event_id(span: &TracingSpan) -> (r: u128)
    ensures
        r == (match span.parent_ids {
            Some(p) => if p@.len() > 0 {
                p@[0].1
            } else {
                span.span_id
            },
            None => span.span_id,
        }),
{
    match &span.parent_ids {
        Some(p) => if p.len() > 0 {
            p[0].1
        } else {
            span.span_id
        },
        None => span.span_id,
    }
}

/// The id of a span's direct parent event: its last parent's id, if any.
pub fn parent_event_id(span: &TracingSpan) -> (r: Option<u128>)
    ensures
        r == (match span.parent_ids {
            Some(p) => if p@.len() > 0 {
                Some(p@[p@.len() - 1].1)
            } else {
                None
            },
            None => None,
        }),
{
    match &span.parent_ids {
        Some(p) => if p.len() > 0 {
            Some(p[p.len() - 1].1)
        } else {
            None
        },
        None => None,
    }
}

/// The names of the functions of a span's parents, in order.
pub fn event_chain(span: &TracingSpan) -> (r: Vec<String>)
    ensures
        match span.parent_ids {
            Some(p) => r@.len() == p@.len() && forall|i: int| 0 <= i < p@.len() ==> (#[trigger] r@[i])@ == p@[i].0@,
            None => r@.len() == 0,
        },
{
    let mut out: Vec<String> = Vec::new();
    match &span.parent_ids {
        Some(p) => {
            let mut i: usize = 0;
            while i < p.len()
                invariant
                    i <= p@.len(),
                    out@.len() == i,
                    forall|j: int| 0 <= j < i ==> (#[trigger] out@[j])@ == p@[j].0@,
                decreases p@.len() - i,
            {
                out.push(p[i].0.clone());
                i = i + 1;
            }
        },
        None => {},
    }
    out
}

/// What a finished call produced, as far as tracing needs it: whether its
/// output was parsed (and the parse error text when parsing failed), and the
/// error text of the model's response when it has one.
#[derive(Debug)]
pub struct FunctionOutcome {
    pub parsed: Option<Result<(), String>>,
    pub llm_content_error: Option<String>,
}

/// The error recorded for a traced call.
#[derive(Debug)]
pub struct TraceError {
    pub code: i32,
    pub message: String,
}

/// The error message recorded for a call that produced no parsed value.
pub open spec fn unparsed_message(r: FunctionOutcome) -> Seq<char> {
    match r.parsed {
        Some(Err(e)) => e@,
        _ => match r.llm_content_error {
            Some(e) => e@,
            None => "Unknown error"@,
        },
    }
}

/// The error to record for a traced call: none when its output was parsed;
/// otherwise code -2 with the reason (the call's own error, the model's
/// response error, or `Unknown error`).
pub fn error_from_result(result: &Result<FunctionOutcome, String>) -> (r: Option<TraceError>)
    ensures
        match result {
            Ok(o) => if o.parsed is Some {
                r is None
            } else {
                r matches Some(e) && e.code == -2 && e.message@ == unparsed_message(*o)
            },
            Err(e) => r matches Some(t) && t.code == -2 && t.message@ == e@,
        },
{
    match result {
        Ok(r) => {
            if r.parsed.is_some() {
                None
            } else {
                let from_parsed: Option<String> = match &r.parsed {
                    Some(Err(e)) => Some(e.clone()),
                    _ => None,
                };
                let message = match from_parsed {
                    Some(m) => m,
                    None => match &r.llm_content_error {
                        Some(e) => e.clone(),
                        None => "Unknown error".to_owned(),
                    },
                };
                Some(TraceError { code: -2, message })
            }
        },
        Err(e) => Some(TraceError { code: -2, message: e.clone() }),
    }
}

} // verus!
