use vstd::prelude::*;

use crate::domain::effect::{
    Effect, JsonPathSelector, SnsEventEmission, SnsPublishEffect, SqsEventEmission,
    SqsReceiveEffect, SqsSendEffect, WebsocketEffect, WebsocketEventEmission,
};
use crate::engine::runner::{graphql_emission_refs, graphql_emits, rest_emission_refs, rest_emits};
use crate::json::JsonValue;
use crate::domain::environment::{RuntimeEnvironment, ServiceBinding};
use crate::domain::event::Event;
use crate::domain::workflow::{Handler, Workflow, CURRENT_WORKFLOW_VERSION};
use super::strings::{workflow_strings, workflow_strs};
use vstd::string::*;
use crate::engine::template::lemma_find_bounds;
use crate::jsonpath::{jsonpath_error, jsonpath_parse_error};
use crate::map::StrMap;
use crate::text::{
    blank, chars_of, decimal, find, is_blank, join_comma, seq_lt, push_decimal, push_seq, push_str, push_string,
    slice_of, str_eq, string_of, strip_prefix, strip_prefix_seq, trim, trim_seq, find_from_exec,
};

verus! {

/// Why a document could not be read: the message, and where in the text, when the YAML
/// parser knows (line and column count from one).
#[derive(Debug, Clone)]
pub struct ParseError {
    pub message: String,
    pub line: Option<usize>,
    pub column: Option<usize>,
}

impl ParseError {
    /// Whether this error is at the given place: line and column both known and equal to
    /// it, or both unknown where it is `None`.
    pub open spec fn location_is(&self, at: Option<(usize, usize)>) -> bool {
        match at {
            Some((l, c)) => self.line == Some(l) && self.column == Some(c),
            None => self.line is None && self.column is None,
        }
    }

    /// The line and column of the error, where they are known.
    pub fn location(&self) -> (r: Option<(usize, usize)>)
        ensures
            r == match (self.line, self.column) {
                (Some(l), Some(c)) => Some((l, c)),
                _ => None::<(usize, usize)>,
            },
    {
        match (self.line, self.column) {
            (Some(l), Some(c)) => Some((l, c)),
            _ => None,
        }
    }
}

/// Why a workflow or an environment could not be loaded.
#[derive(Debug, Clone)]
pub enum LoadError {
    Parse(ParseError),
    Validation(String),
}

/// The text of a load error.
pub open spec fn load_error_text(e: LoadError) -> Seq<char> {
    match e {
        LoadError::Parse(p) => "failed to parse workflow YAML: "@ + p.message@,
        LoadError::Validation(m) => "workflow validation failed: "@ + m@,
    }
}

impl LoadError {
    /// The text of this error.
    pub fn message(&self) -> (r: String)
        ensures
            r@ == load_error_text(*self),
    {
        let mut out: Vec<char> = Vec::new();
        match self {
            LoadError::Parse(p) => {
                push_str(&mut out, "failed to parse workflow YAML: ");
                push_string(&mut out, &p.message);
            },
            LoadError::Validation(m) => {
                push_str(&mut out, "workflow validation failed: ");
                push_string(&mut out, m);
            },
        }
        string_of(&out)
    }
}

/// The result of a check: `Ok` where there is no problem, else the validation error that
/// names it.
pub open spec fn checked(r: Result<(), LoadError>, problem: Option<Seq<char>>) -> bool {
    match problem {
        None => r is Ok,
        Some(m) => r matches Err(LoadError::Validation(e)) && e@ == m,
    }
}

// ---------------------------------------------------------------------------------------
// Template strings
// ---------------------------------------------------------------------------------------

/// A template expression that the engine can resolve: a non-empty event payload path,
/// environment value or secret name.
pub open spec fn valid_expression(e: Seq<char>) -> bool {
    ||| (strip_prefix(e, "event.payload."@) matches Some(n) && n.len() > 0)
    ||| (strip_prefix(e, "env."@) matches Some(n) && n.len() > 0)
    ||| (strip_prefix(e, "secret."@) matches Some(n) && n.len() > 0)
}

/// The first problem with the templates in `rem`, the rest of the string `value`: a
/// closing delimiter before any opening one, an unclosed expression, or an expression that
/// is not valid.
pub open spec fn template_scan(value: Seq<char>, rem: Seq<char>) -> Option<Seq<char>>
    decreases rem.len(),
{
    let opening = find(rem, seq!['{', '{']);
    let closing = find(rem, seq!['}', '}']);
    if closing matches Some(c) && (opening is None || c < opening->0) {
        Some("unexpected template closing delimiter in '"@ + value + "'"@)
    } else {
        match opening {
            None => None,
            Some(o) => if !(0 <= o && o + 2 <= rem.len()) {
                None
            } else {
                let after = rem.subrange(o + 2, rem.len() as int);
                match find(after, seq!['}', '}']) {
                    None => Some("unclosed template expression in '"@ + value + "'"@),
                    Some(c) => if !(0 <= c && c + 2 <= after.len()) {
                        None
                    } else {
                        let expression = trim(after.subrange(0, c));
                        if !valid_expression(expression) {
                            Some("unsupported template expression '"@ + expression + "'"@)
                        } else {
                            template_scan(value, after.subrange(c + 2, after.len() as int))
                        }
                    },
                }
            },
        }
    }
}

/// The first problem with the templates of a string.
pub open spec fn template_problem(value: Seq<char>) -> Option<Seq<char>> {
    template_scan(value, value)
}

fn has_nonempty_suffix(e: &Vec<char>, prefix: &str) -> (r: bool)
    ensures
        r == (strip_prefix(e@, prefix@) matches Some(n) && n.len() > 0),
{
    let p = chars_of(prefix);
    match strip_prefix_seq(e, &p) {
        Some(n) => n.len() > 0,
        None => false,
    }
}

/// Checks the `{{ expression }}` templates of a string.
pub fn validate_template_string(value: &str) -> (r: Result<(), LoadError>)
    ensures
        checked(r, template_problem(value@)),
{
    let v = chars_of(value);
    let open = vec!['{', '{'];
    let close = vec!['}', '}'];
    let mut remaining = v.clone();
    loop
        invariant
            v@ == value@,
            open@ == seq!['{', '{'],
            close@ == seq!['}', '}'],
            template_scan(value@, remaining@) == template_problem(value@),
        decreases remaining@.len(),
    {
        let ghost rem = remaining@;
        proof {
            lemma_find_bounds(rem, seq!['{', '{']);
            lemma_find_bounds(rem, seq!['}', '}']);
        }
        let opening = find_from_exec(&remaining, &open, 0);
        let closing = find_from_exec(&remaining, &close, 0);
        let early = match (closing, opening) {
            (Some(c), None) => true,
            (Some(c), Some(o)) => c < o,
            _ => false,
        };
        if early {
            let mut m: Vec<char> = Vec::new();
            push_str(&mut m, "unexpected template closing delimiter in '");
            push_seq(&mut m, &v);
            push_str(&mut m, "'");
            return Err(LoadError::Validation(string_of(&m)));
        }
        let o = match opening {
            None => {
                return Ok(());
            },
            Some(o) => o,
        };
        let after = slice_of(&remaining, o + 2, remaining.len());
        proof {
            lemma_find_bounds(after@, seq!['}', '}']);
        }
        let c = match find_from_exec(&after, &close, 0) {
            None => {
                let mut m: Vec<char> = Vec::new();
                push_str(&mut m, "unclosed template expression in '");
                push_seq(&mut m, &v);
                push_str(&mut m, "'");
                return Err(LoadError::Validation(string_of(&m)));
            },
            Some(c) => c,
        };
        let inner = slice_of(&after, 0, c);
        let expression = trim_seq(&inner);
        let valid = has_nonempty_suffix(&expression, "event.payload.") || has_nonempty_suffix(
            &expression,
            "env.",
        ) || has_nonempty_suffix(&expression, "secret.");
        if !valid {
            let mut m: Vec<char> = Vec::new();
            push_str(&mut m, "unsupported template expression '");
            push_seq(&mut m, &expression);
            push_str(&mut m, "'");
            return Err(LoadError::Validation(string_of(&m)));
        }
        remaining = slice_of(&after, c + 2, after.len());
    }
}

// ---------------------------------------------------------------------------------------
// Effects
// ---------------------------------------------------------------------------------------

/// Where an effect stands in a workflow: `handlers[h].effects[x]`.
pub open spec fn effect_at(h: nat, x: nat) -> Seq<char> {
    "handlers["@ + decimal(h) + "].effects["@ + decimal(x) + "]"@
}

/// Where an emission stands in a workflow: `handlers[h].effects[x].emits[k]`.
pub open spec fn emit_at(h: nat, x: nat, k: nat) -> Seq<char> {
    effect_at(h, x) + ".emits["@ + decimal(k) + "]"@
}

fn push_effect_at(out: &mut Vec<char>, h: usize, x: usize)
    ensures
        final(out)@ == old(out)@ + effect_at(h as nat, x as nat),
{
    push_str(out, "handlers[");
    push_decimal(out, h as u64);
    push_str(out, "].effects[");
    push_decimal(out, x as u64);
    push_str(out, "]");
}

fn push_emit_at(out: &mut Vec<char>, h: usize, x: usize, k: usize)
    ensures
        final(out)@ == old(out)@ + emit_at(h as nat, x as nat, k as nat),
{
    let ghost start = out@;
    push_effect_at(out, h, x);
    push_str(out, ".emits[");
    push_decimal(out, k as u64);
    push_str(out, "]");
    assert(out@ =~= start + emit_at(h as nat, x as nat, k as nat));
}

/// A validation error whose message is a place followed by a text.
fn error_at_effect(h: usize, x: usize, text: &str) -> (r: Result<(), LoadError>)
    ensures
        r matches Err(LoadError::Validation(m)) && m@ == effect_at(h as nat, x as nat) + text@,
{
    let mut m: Vec<char> = Vec::new();
    push_effect_at(&mut m, h, x);
    push_str(&mut m, text);
    Err(LoadError::Validation(string_of(&m)))
}

/// The first problem with the payload selectors of an emission at `at`: a blank field
/// name, a blank selector, or one that is not valid JSONPath.
pub open spec fn payload_problem(items: Seq<(String, JsonPathSelector)>, at: Seq<char>) -> Option<
    Seq<char>,
>
    decreases items.len(),
{
    if items.len() == 0 {
        None
    } else {
        match payload_problem(items.drop_last(), at) {
            Some(m) => Some(m),
            None => {
                let f = items.last().0@;
                let from = items.last().1.from@;
                if is_blank(f) {
                    Some(at + ".payload field name is required"@)
                } else if is_blank(from) {
                    Some(at + ".payload."@ + f + ".from is required"@)
                } else {
                    match jsonpath_error(from) {
                        Some(e) => Some(at + ".payload."@ + f + ".from is not valid JSONPath: "@ + e),
                        None => None,
                    }
                }
            },
        }
    }
}

/// Checks the payload selectors of the `k`th emission of `handlers[h].effects[x]`.
pub fn validate_json_path_payload(
    payload: &StrMap<JsonPathSelector>,
    handler_index: usize,
    effect_index: usize,
    emit_index: usize,
) -> (r: Result<(), LoadError>)
    ensures
        checked(
            r,
            payload_problem(
                payload.items(),
                emit_at(handler_index as nat, effect_index as nat, emit_index as nat),
            ),
        ),
{
    let ghost at = emit_at(handler_index as nat, effect_index as nat, emit_index as nat);
    let entries = payload.entries();
    let mut i: usize = 0;
    assert(entries@.take(0) =~= Seq::<(String, JsonPathSelector)>::empty());
    while i < entries.len()
        invariant
            i <= entries@.len(),
            entries@ == payload.items(),
            at == emit_at(handler_index as nat, effect_index as nat, emit_index as nat),
            payload_problem(entries@.take(i as int), at) is None,
        decreases entries.len() - i,
    {
        let ghost t = entries@.take(i + 1);
        assert(t.drop_last() =~= entries@.take(i as int));
        assert(t.last() == entries@[i as int]);
        let field = &entries[i].0;
        let from = &entries[i].1.from;
        let problem: Option<Vec<char>> = if blank(field.as_str()) {
            let mut m: Vec<char> = Vec::new();
            push_emit_at(&mut m, handler_index, effect_index, emit_index);
            push_str(&mut m, ".payload field name is required");
            Some(m)
        } else if blank(from.as_str()) {
            let mut m: Vec<char> = Vec::new();
            push_emit_at(&mut m, handler_index, effect_index, emit_index);
            push_str(&mut m, ".payload.");
            push_string(&mut m, field);
            push_str(&mut m, ".from is required");
            Some(m)
        } else {
            match jsonpath_parse_error(from.as_str()) {
                Some(e) => {
                    let mut m: Vec<char> = Vec::new();
                    push_emit_at(&mut m, handler_index, effect_index, emit_index);
                    push_str(&mut m, ".payload.");
                    push_string(&mut m, field);
                    push_str(&mut m, ".from is not valid JSONPath: ");
                    push_string(&mut m, &e);
                    Some(m)
                },
                None => None,
            }
        };
        match problem {
            Some(m) => {
                proof {
                    assert(payload_problem(t, at) == Some(m@));
                    lemma_payload_problem_prefix(entries@, i + 1, at);
                }
                return Err(LoadError::Validation(string_of(&m)));
            },
            None => {},
        }
        i = i + 1;
    }
    assert(entries@.take(i as int) =~= entries@);
    Ok(())
}

proof fn lemma_payload_problem_prefix(s: Seq<(String, JsonPathSelector)>, k: int, at: Seq<char>)
    requires
        0 <= k <= s.len(),
        payload_problem(s.take(k), at) is Some,
    ensures
        payload_problem(s, at) == payload_problem(s.take(k), at),
    decreases s.len() - k,
{
    if k < s.len() {
        assert(s.take(k + 1).drop_last() =~= s.take(k));
        lemma_payload_problem_prefix(s, k + 1, at);
    } else {
        assert(s.take(k) =~= s);
    }
}

/// Emissions as plain values: event type and payload selectors.
pub type EmitsV = Seq<(Seq<char>, Seq<(String, JsonPathSelector)>)>;

pub open spec fn sns_emits(e: SnsPublishEffect) -> EmitsV {
    e.emits@.map_values(|m: SnsEventEmission| (m.event_type@, m.payload.items()))
}

pub open spec fn sqs_send_emits(e: SqsSendEffect) -> EmitsV {
    e.emits@.map_values(|m: SqsEventEmission| (m.event_type@, m.payload.items()))
}

pub open spec fn sqs_receive_emits(e: SqsReceiveEffect) -> EmitsV {
    e.emits@.map_values(|m: SqsEventEmission| (m.event_type@, m.payload.items()))
}

pub open spec fn websocket_emits(e: WebsocketEffect) -> EmitsV {
    e.emits@.map_values(|m: WebsocketEventEmission| (m.event_type@, m.payload.items()))
}

/// The first problem with the emissions of `handlers[h].effects[x]`: a blank event type,
/// or a problem with the payload selectors.
pub open spec fn emits_problem(emits: EmitsV, h: nat, x: nat) -> Option<Seq<char>>
    decreases emits.len(),
{
    if emits.len() == 0 {
        None
    } else {
        match emits_problem(emits.drop_last(), h, x) {
            Some(m) => Some(m),
            None => {
                let at = emit_at(h, x, (emits.len() - 1) as nat);
                if is_blank(emits.last().0) {
                    Some(at + ".event_type is required"@)
                } else {
                    payload_problem(emits.last().1, at)
                }
            },
        }
    }
}

proof fn lemma_emits_problem_prefix(s: EmitsV, k: int, h: nat, x: nat)
    requires
        0 <= k <= s.len(),
        emits_problem(s.take(k), h, x) is Some,
    ensures
        emits_problem(s, h, x) == emits_problem(s.take(k), h, x),
    decreases s.len() - k,
{
    if k < s.len() {
        assert(s.take(k + 1).drop_last() =~= s.take(k));
        lemma_emits_problem_prefix(s, k + 1, h, x);
    } else {
        assert(s.take(k) =~= s);
    }
}

/// Checks the emissions of `handlers[h].effects[x]`, given by reference.
fn validate_emissions(
    emits: &Vec<(&String, &StrMap<JsonPathSelector>)>,
    handler_index: usize,
    effect_index: usize,
    Ghost(spec_emits): Ghost<EmitsV>,
) -> (r: Result<(), LoadError>)
    requires
        spec_emits.len() == emits@.len(),
        forall|k: int|
            0 <= k < emits@.len() ==> (#[trigger] spec_emits[k]) == (emits@[k].0@, emits@[k].1.items()),
    ensures
        checked(r, emits_problem(spec_emits, handler_index as nat, effect_index as nat)),
{
    let ghost h = handler_index as nat;
    let ghost x = effect_index as nat;
    let mut i: usize = 0;
    assert(spec_emits.take(0) =~= Seq::<(Seq<char>, Seq<(String, JsonPathSelector)>)>::empty());
    while i < emits.len()
        invariant
            i <= emits@.len(),
            spec_emits.len() == emits@.len(),
            forall|k: int|
                0 <= k < emits@.len() ==> (#[trigger] spec_emits[k]) == (emits@[k].0@, emits@[k].1.items()),
            emits_problem(spec_emits.take(i as int), h, x) is None,
            h == handler_index,
            x == effect_index,
        decreases emits.len() - i,
    {
        let ghost t = spec_emits.take(i + 1);
        assert(t.drop_last() =~= spec_emits.take(i as int));
        assert(t.last() == spec_emits[i as int]);
        if blank(emits[i].0.as_str()) {
            let mut m: Vec<char> = Vec::new();
            push_emit_at(&mut m, handler_index, effect_index, i);
            push_str(&mut m, ".event_type is required");
            proof {
                assert(emits_problem(t, h, x) == Some(m@));
                lemma_emits_problem_prefix(spec_emits, i + 1, h, x);
            }
            return Err(LoadError::Validation(string_of(&m)));
        }
        match validate_json_path_payload(emits[i].1, handler_index, effect_index, i) {
            Err(e) => {
                proof {
                    lemma_emits_problem_prefix(spec_emits, i + 1, h, x);
                }
                return Err(e);
            },
            Ok(()) => {},
        }
        i = i + 1;
    }
    assert(spec_emits.take(i as int) =~= spec_emits);
    Ok(())
}

pub(crate) fn sns_emission_refs(e: &SnsPublishEffect) -> (r: Vec<(&String, &StrMap<JsonPathSelector>)>)
    ensures
        r@.len() == sns_emits(*e).len(),
        forall|k: int| 0 <= k < r@.len() ==> (#[trigger] sns_emits(*e)[k]) == (r@[k].0@, r@[k].1.items()),
{
    let mut r: Vec<(&String, &StrMap<JsonPathSelector>)> = Vec::new();
    let mut i: usize = 0;
    while i < e.emits.len()
        invariant
            i <= e.emits@.len(),
            r@.len() == i,
            forall|k: int| 0 <= k < i ==> (#[trigger] sns_emits(*e)[k]) == (r@[k].0@, r@[k].1.items()),
        decreases e.emits.len() - i,
    {
        r.push((&e.emits[i].event_type, &e.emits[i].payload));
        i = i + 1;
    }
    r
}

pub(crate) fn sqs_emission_refs(emits: &Vec<SqsEventEmission>) -> (r: Vec<(&String, &StrMap<JsonPathSelector>)>)
    ensures
        r@.len() == emits@.len(),
        forall|k: int|
            0 <= k < r@.len() ==> (emits@[k].event_type@, emits@[k].payload.items()) == (
            #[trigger] r@[k].0@, r@[k].1.items()),
{
    let mut r: Vec<(&String, &StrMap<JsonPathSelector>)> = Vec::new();
    let mut i: usize = 0;
    while i < emits.len()
        invariant
            i <= emits@.len(),
            r@.len() == i,
            forall|k: int|
                0 <= k < i ==> (emits@[k].event_type@, emits@[k].payload.items()) == (
                #[trigger] r@[k].0@, r@[k].1.items()),
        decreases emits.len() - i,
    {
        r.push((&emits[i].event_type, &emits[i].payload));
        i = i + 1;
    }
    r
}

pub(crate) fn websocket_emission_refs(e: &WebsocketEffect) -> (r: Vec<(&String, &StrMap<JsonPathSelector>)>)
    ensures
        r@.len() == websocket_emits(*e).len(),
        forall|k: int| 0 <= k < r@.len() ==> (#[trigger] websocket_emits(*e)[k]) == (r@[k].0@, r@[k].1.items()),
{
    let mut r: Vec<(&String, &StrMap<JsonPathSelector>)> = Vec::new();
    let mut i: usize = 0;
    while i < e.emits.len()
        invariant
            i <= e.emits@.len(),
            r@.len() == i,
            forall|k: int| 0 <= k < i ==> (#[trigger] websocket_emits(*e)[k]) == (r@[k].0@, r@[k].1.items()),
        decreases e.emits.len() - i,
    {
        r.push((&e.emits[i].event_type, &e.emits[i].payload));
        i = i + 1;
    }
    r
}

/// Whether an optional text is missing or blank.
pub open spec fn blank_opt(o: Option<String>) -> bool {
    match o {
        Some(s) => is_blank(s@),
        None => true,
    }
}

fn blank_option(o: &Option<String>) -> (r: bool)
    ensures
        r == blank_opt(*o),
{
    match o {
        Some(s) => blank(s.as_str()),
        None => true,
    }
}

/// The problem with an AWS effect that names neither a service nor an endpoint.
pub open spec fn aws_problem(service: Option<String>, endpoint_url: Option<String>, h: nat, x: nat) -> Option<
    Seq<char>,
> {
    if blank_opt(service) && blank_opt(endpoint_url) {
        Some(effect_at(h, x) + " requires service or endpoint_url"@)
    } else {
        None
    }
}

/// Checks that an AWS effect names a service or an endpoint.
pub fn validate_aws_binding(
    service: &Option<String>,
    endpoint_url: &Option<String>,
    handler_index: usize,
    effect_index: usize,
) -> (r: Result<(), LoadError>)
    ensures
        checked(
            r,
            aws_problem(*service, *endpoint_url, handler_index as nat, effect_index as nat),
        ),
{
    if blank_option(service) && blank_option(endpoint_url) {
        return error_at_effect(handler_index, effect_index, " requires service or endpoint_url");
    }
    Ok(())
}

/// The first expected JSON path of a WebSocket effect that is not valid JSONPath.
pub open spec fn expect_problem(items: Seq<(String, JsonValue)>, h: nat, x: nat) -> Option<Seq<char>>
    decreases items.len(),
{
    if items.len() == 0 {
        None
    } else {
        match expect_problem(items.drop_last(), h, x) {
            Some(m) => Some(m),
            None => match jsonpath_error(items.last().0@) {
                Some(e) => Some(effect_at(h, x) + ".expect.json."@ + items.last().0@
                    + " is not valid JSONPath: "@ + e),
                None => None,
            },
        }
    }
}

proof fn lemma_expect_problem_prefix(s: Seq<(String, JsonValue)>, k: int, h: nat, x: nat)
    requires
        0 <= k <= s.len(),
        expect_problem(s.take(k), h, x) is Some,
    ensures
        expect_problem(s, h, x) == expect_problem(s.take(k), h, x),
    decreases s.len() - k,
{
    if k < s.len() {
        assert(s.take(k + 1).drop_last() =~= s.take(k));
        lemma_expect_problem_prefix(s, k + 1, h, x);
    } else {
        assert(s.take(k) =~= s);
    }
}

fn validate_expectations(json: &StrMap<JsonValue>, handler_index: usize, effect_index: usize) -> (r: Result<(), LoadError>)
    ensures
        checked(r, expect_problem(json.items(), handler_index as nat, effect_index as nat)),
{
    let ghost h = handler_index as nat;
    let ghost x = effect_index as nat;
    let entries = json.entries();
    let mut i: usize = 0;
    assert(entries@.take(0) =~= Seq::<(String, JsonValue)>::empty());
    while i < entries.len()
        invariant
            i <= entries@.len(),
            entries@ == json.items(),
            expect_problem(entries@.take(i as int), h, x) is None,
            h == handler_index,
            x == effect_index,
        decreases entries.len() - i,
    {
        let ghost t = entries@.take(i + 1);
        assert(t.drop_last() =~= entries@.take(i as int));
        assert(t.last() == entries@[i as int]);
        match jsonpath_parse_error(entries[i].0.as_str()) {
            Some(e) => {
                let mut m: Vec<char> = Vec::new();
                push_effect_at(&mut m, handler_index, effect_index);
                push_str(&mut m, ".expect.json.");
                push_string(&mut m, &entries[i].0);
                push_str(&mut m, " is not valid JSONPath: ");
                push_string(&mut m, &e);
                proof {
                    assert(expect_problem(t, h, x) == Some(m@));
                    lemma_expect_problem_prefix(entries@, i + 1, h, x);
                }
                return Err(LoadError::Validation(string_of(&m)));
            },
            None => {},
        }
        i = i + 1;
    }
    assert(entries@.take(i as int) =~= entries@);
    Ok(())
}

/// The first problem with an effect at `handlers[h].effects[x]`, checked in the order
/// of its fields.
#[verifier::opaque]
pub open spec fn effect_problem(effect: Effect, h: nat, x: nat) -> Option<Seq<char>> {
    let at = effect_at(h, x);
    match effect {
        Effect::Emit { event_type, .. } => if is_blank(event_type@) {
            Some(at + ".event_type is required"@)
        } else {
            None
        },
        Effect::Assert(a) => if is_blank(a.path@) {
            Some(at + ".path is required"@)
        } else {
            None
        },
        Effect::Rest(r) => if blank_opt(r.service) && blank_opt(r.base_url) {
            Some(at + " requires service or base_url"@)
        } else if is_blank(r.path@) {
            Some(at + ".path is required"@)
        } else {
            emits_problem(rest_emits(r), h, x)
        },
        Effect::Graphql(g) => if blank_opt(g.service) && blank_opt(g.base_url) {
            Some(at + " requires service or base_url"@)
        } else if is_blank(g.query@) {
            Some(at + ".query is required"@)
        } else {
            emits_problem(graphql_emits(g), h, x)
        },
        Effect::SnsPublish(s) => match aws_problem(s.service, s.endpoint_url, h, x) {
            Some(m) => Some(m),
            None => if is_blank(s.topic_arn@) {
                Some(at + ".topic_arn is required"@)
            } else {
                emits_problem(sns_emits(s), h, x)
            },
        },
        Effect::SqsSend(s) => match aws_problem(s.service, s.endpoint_url, h, x) {
            Some(m) => Some(m),
            None => if is_blank(s.queue_url@) {
                Some(at + ".queue_url is required"@)
            } else {
                emits_problem(sqs_send_emits(s), h, x)
            },
        },
        Effect::SqsReceive(s) => match aws_problem(s.service, s.endpoint_url, h, x) {
            Some(m) => Some(m),
            None => if is_blank(s.queue_url@) {
                Some(at + ".queue_url is required"@)
            } else if s.max_messages == 0 || s.max_messages > 10 {
                Some(at + ".max_messages must be between 1 and 10"@)
            } else {
                emits_problem(sqs_receive_emits(s), h, x)
            },
        },
        Effect::Websocket(w) => if blank_opt(w.service) && blank_opt(w.url) {
            Some(at + " requires service or url"@)
        } else if w.timeout_ms == 0 {
            Some(at + ".timeout_ms must be greater than 0"@)
        } else {
            match expect_problem(w.expect.json.items(), h, x) {
                Some(m) => Some(m),
                None => emits_problem(websocket_emits(w), h, x),
            }
        },
        Effect::Record { .. } => None,
    }
}

/// Checks an effect at `handlers[h].effects[x]`.
pub fn validate_effect(effect: &Effect, handler_index: usize, effect_index: usize) -> (r: Result<
    (),
    LoadError,
>)
    ensures
        checked(r, effect_problem(*effect, handler_index as nat, effect_index as nat)),
{
    let h = handler_index;
    let x = effect_index;
    proof {
        reveal(effect_problem);
    }
    match effect {
        Effect::Emit { event_type, .. } => {
            if blank(event_type.as_str()) {
                return error_at_effect(h, x, ".event_type is required");
            }
            Ok(())
        },
        Effect::Assert(assertion) => {
            if blank(assertion.path.as_str()) {
                return error_at_effect(h, x, ".path is required");
            }
            Ok(())
        },
        Effect::Rest(rest) => {
            if blank_option(&rest.service) && blank_option(&rest.base_url) {
                return error_at_effect(h, x, " requires service or base_url");
            }
            if blank(rest.path.as_str()) {
                return error_at_effect(h, x, ".path is required");
            }
            let refs = rest_emission_refs(rest);
            validate_emissions(&refs, h, x, Ghost(rest_emits(*rest)))
        },
        Effect::Graphql(graphql) => {
            if blank_option(&graphql.service) && blank_option(&graphql.base_url) {
                return error_at_effect(h, x, " requires service or base_url");
            }
            if blank(graphql.query.as_str()) {
                return error_at_effect(h, x, ".query is required");
            }
            let refs = graphql_emission_refs(graphql);
            validate_emissions(&refs, h, x, Ghost(graphql_emits(*graphql)))
        },
        Effect::SnsPublish(sns) => {
            validate_aws_binding(&sns.service, &sns.endpoint_url, h, x)?;
            if blank(sns.topic_arn.as_str()) {
                return error_at_effect(h, x, ".topic_arn is required");
            }
            let refs = sns_emission_refs(sns);
            validate_emissions(&refs, h, x, Ghost(sns_emits(*sns)))
        },
        Effect::SqsSend(sqs) => {
            validate_aws_binding(&sqs.service, &sqs.endpoint_url, h, x)?;
            if blank(sqs.queue_url.as_str()) {
                return error_at_effect(h, x, ".queue_url is required");
            }
            let refs = sqs_emission_refs(&sqs.emits);
            validate_emissions(&refs, h, x, Ghost(sqs_send_emits(*sqs)))
        },
        Effect::SqsReceive(sqs) => {
            validate_aws_binding(&sqs.service, &sqs.endpoint_url, h, x)?;
            if blank(sqs.queue_url.as_str()) {
                return error_at_effect(h, x, ".queue_url is required");
            }
            if sqs.max_messages == 0 || sqs.max_messages > 10 {
                return error_at_effect(h, x, ".max_messages must be between 1 and 10");
            }
            let refs = sqs_emission_refs(&sqs.emits);
            validate_emissions(&refs, h, x, Ghost(sqs_receive_emits(*sqs)))
        },
        Effect::Websocket(websocket) => {
            if blank_option(&websocket.service) && blank_option(&websocket.url) {
                return error_at_effect(h, x, " requires service or url");
            }
            if websocket.timeout_ms == 0 {
                return error_at_effect(h, x, ".timeout_ms must be greater than 0");
            }
            validate_expectations(&websocket.expect.json, h, x)?;
            let refs = websocket_emission_refs(websocket);
            validate_emissions(&refs, h, x, Ghost(websocket_emits(*websocket)))
        },
        Effect::Record { .. } => Ok(()),
    }
}

// ---------------------------------------------------------------------------------------
// Workflows
// ---------------------------------------------------------------------------------------

/// The first template problem among strings, in order.
pub open spec fn strings_problem(ss: Seq<Seq<char>>) -> Option<Seq<char>>
    decreases ss.len(),
{
    if ss.len() == 0 {
        None
    } else {
        match strings_problem(ss.drop_last()) {
            Some(m) => Some(m),
            None => template_problem(ss.last()),
        }
    }
}

/// The first seed event without a type.
pub open spec fn seeds_problem(es: Seq<Event>) -> Option<Seq<char>>
    decreases es.len(),
{
    if es.len() == 0 {
        None
    } else {
        match seeds_problem(es.drop_last()) {
            Some(m) => Some(m),
            None => if is_blank(es.last().event_type@) {
                Some("seed_events["@ + decimal((es.len() - 1) as nat) + "].type is required"@)
            } else {
                None
            },
        }
    }
}

/// The first problem with the effects of handler `h`.
pub open spec fn effects_problem(es: Seq<Effect>, h: nat) -> Option<Seq<char>>
    decreases es.len(),
{
    if es.len() == 0 {
        None
    } else {
        match effects_problem(es.drop_last(), h) {
            Some(m) => Some(m),
            None => effect_problem(es.last(), h, (es.len() - 1) as nat),
        }
    }
}

/// The first problem with the handlers: a handler for no event type, or a problem with
/// one of its effects.
pub open spec fn handlers_problem(hs: Seq<Handler>) -> Option<Seq<char>>
    decreases hs.len(),
{
    if hs.len() == 0 {
        None
    } else {
        match handlers_problem(hs.drop_last()) {
            Some(m) => Some(m),
            None => {
                let h = (hs.len() - 1) as nat;
                if is_blank(hs.last().on@) {
                    Some("handlers["@ + decimal(h) + "].on is required"@)
                } else {
                    effects_problem(hs.last().effects@, h)
                }
            },
        }
    }
}

/// The first problem with a workflow: its version, its name, its templates, its seed
/// events, then its handlers.
pub open spec fn workflow_problem(w: Workflow) -> Option<Seq<char>> {
    if is_blank(w.version@) {
        Some("workflow version is required"@)
    } else if w.version@ != CURRENT_WORKFLOW_VERSION@ {
        Some("unsupported workflow version '"@ + w.version@ + "'; expected "@
            + CURRENT_WORKFLOW_VERSION@)
    } else if is_blank(w.name@) {
        Some("workflow name is required"@)
    } else {
        match strings_problem(workflow_strs(w)) {
            Some(m) => Some(m),
            None => match seeds_problem(w.seed_events@) {
                Some(m) => Some(m),
                None => handlers_problem(w.handlers@),
            },
        }
    }
}

proof fn lemma_strings_problem_prefix(s: Seq<Seq<char>>, k: int)
    requires
        0 <= k <= s.len(),
        strings_problem(s.take(k)) is Some,
    ensures
        strings_problem(s) == strings_problem(s.take(k)),
    decreases s.len() - k,
{
    if k < s.len() {
        assert(s.take(k + 1).drop_last() =~= s.take(k));
        lemma_strings_problem_prefix(s, k + 1);
    } else {
        assert(s.take(k) =~= s);
    }
}

proof fn lemma_seeds_problem_prefix(s: Seq<Event>, k: int)
    requires
        0 <= k <= s.len(),
        seeds_problem(s.take(k)) is Some,
    ensures
        seeds_problem(s) == seeds_problem(s.take(k)),
    decreases s.len() - k,
{
    if k < s.len() {
        assert(s.take(k + 1).drop_last() =~= s.take(k));
        lemma_seeds_problem_prefix(s, k + 1);
    } else {
        assert(s.take(k) =~= s);
    }
}

proof fn lemma_effects_problem_prefix(s: Seq<Effect>, k: int, h: nat)
    requires
        0 <= k <= s.len(),
        effects_problem(s.take(k), h) is Some,
    ensures
        effects_problem(s, h) == effects_problem(s.take(k), h),
    decreases s.len() - k,
{
    if k < s.len() {
        assert(s.take(k + 1).drop_last() =~= s.take(k));
        lemma_effects_problem_prefix(s, k + 1, h);
    } else {
        assert(s.take(k) =~= s);
    }
}

proof fn lemma_handlers_problem_prefix(s: Seq<Handler>, k: int)
    requires
        0 <= k <= s.len(),
        handlers_problem(s.take(k)) is Some,
    ensures
        handlers_problem(s) == handlers_problem(s.take(k)),
    decreases s.len() - k,
{
    if k < s.len() {
        assert(s.take(k + 1).drop_last() =~= s.take(k));
        lemma_handlers_problem_prefix(s, k + 1);
    } else {
        assert(s.take(k) =~= s);
    }
}

/// Checks the templates of the strings of a workflow, in the order of its JSON form.
fn validate_template_expressions(w: &Workflow) -> (r: Result<(), LoadError>)
    ensures
        checked(r, strings_problem(workflow_strs(*w))),
{
    let strings = workflow_strings(w);
    let ghost ss = strings@.map_values(|s: String| s@);
    let mut i: usize = 0;
    assert(ss.take(0) =~= Seq::<Seq<char>>::empty());
    while i < strings.len()
        invariant
            i <= strings@.len(),
            ss == strings@.map_values(|s: String| s@),
            ss == workflow_strs(*w),
            strings_problem(ss.take(i as int)) is None,
        decreases strings.len() - i,
    {
        assert(ss.take(i + 1).drop_last() =~= ss.take(i as int));
        assert(ss.take(i + 1).last() == strings@[i as int]@);
        match validate_template_string(strings[i].as_str()) {
            Err(e) => {
                proof {
                    lemma_strings_problem_prefix(ss, i + 1);
                }
                return Err(e);
            },
            Ok(()) => {},
        }
        i = i + 1;
    }
    assert(ss.take(i as int) =~= ss);
    Ok(())
}

/// Checks the effects of handler `h`, in order.
fn validate_effects(es: &Vec<Effect>, h: usize) -> (r: Result<(), LoadError>)
    ensures
        checked(r, effects_problem(es@, h as nat)),
{
    let mut x: usize = 0;
    assert(es@.take(0) =~= Seq::<Effect>::empty());
    while x < es.len()
        invariant
            x <= es@.len(),
            effects_problem(es@.take(x as int), h as nat) is None,
        decreases es.len() - x,
    {
        assert(es@.take(x + 1).drop_last() =~= es@.take(x as int));
        assert(es@.take(x + 1).last() == es@[x as int]);
        match validate_effect(&es[x], h, x) {
            Err(e) => {
                proof {
                    lemma_effects_problem_prefix(es@, x + 1, h as nat);
                }
                return Err(e);
            },
            Ok(()) => {},
        }
        x = x + 1;
    }
    assert(es@.take(x as int) =~= es@);
    Ok(())
}

/// Checks a workflow: a supported version, a name, valid templates, typed seed events, and
/// handlers whose effects are complete.
#[verifier::loop_isolation(false)]
pub fn validate_workflow(workflow: &Workflow) -> (r: Result<(), LoadError>)
    ensures
        checked(r, workflow_problem(*workflow)),
{
    if blank(workflow.version.as_str()) {
        return Err(LoadError::Validation(String::from_str("workflow version is required")));
    }
    if !str_eq(workflow.version.as_str(), CURRENT_WORKFLOW_VERSION) {
        let mut m: Vec<char> = Vec::new();
        push_str(&mut m, "unsupported workflow version '");
        push_string(&mut m, &workflow.version);
        push_str(&mut m, "'; expected ");
        push_str(&mut m, CURRENT_WORKFLOW_VERSION);
        return Err(LoadError::Validation(string_of(&m)));
    }
    if blank(workflow.name.as_str()) {
        return Err(LoadError::Validation(String::from_str("workflow name is required")));
    }
    validate_template_expressions(workflow)?;
    let seeds = &workflow.seed_events;
    let mut i: usize = 0;
    assert(seeds@.take(0) =~= Seq::<Event>::empty());
    while i < seeds.len()
        invariant
            i <= seeds@.len(),
            seeds_problem(seeds@.take(i as int)) is None,
        decreases seeds.len() - i,
    {
        assert(seeds@.take(i + 1).drop_last() =~= seeds@.take(i as int));
        if blank(seeds[i].event_type.as_str()) {
            let mut m: Vec<char> = Vec::new();
            push_str(&mut m, "seed_events[");
            push_decimal(&mut m, i as u64);
            push_str(&mut m, "].type is required");
            proof {
                assert(seeds_problem(seeds@.take(i + 1)) == Some(m@));
                lemma_seeds_problem_prefix(seeds@, i + 1);
            }
            return Err(LoadError::Validation(string_of(&m)));
        }
        i = i + 1;
    }
    assert(seeds@.take(i as int) =~= seeds@);
    let hs = &workflow.handlers;
    let mut h: usize = 0;
    assert(hs@.take(0) =~= Seq::<Handler>::empty());
    while h < hs.len()
        invariant
            h <= hs@.len(),
            handlers_problem(hs@.take(h as int)) is None,
        decreases hs.len() - h,
    {
        assert(hs@.take(h + 1).drop_last() =~= hs@.take(h as int));
        assert(hs@.take(h + 1).last() == hs@[h as int]);
        if blank(hs[h].on.as_str()) {
            let mut m: Vec<char> = Vec::new();
            push_str(&mut m, "handlers[");
            push_decimal(&mut m, h as u64);
            push_str(&mut m, "].on is required");
            proof {
                assert(handlers_problem(hs@.take(h + 1)) == Some(m@));
                lemma_handlers_problem_prefix(hs@, h + 1);
            }
            return Err(LoadError::Validation(string_of(&m)));
        }
        match validate_effects(&hs[h].effects, h) {
            Err(e) => {
                proof {
                    assert(handlers_problem(hs@.take(h + 1)) == effects_problem(hs@[h as int].effects@, h as nat));
                    lemma_handlers_problem_prefix(hs@, h + 1);
                }
                return Err(e);
            },
            Ok(()) => {},
        }
        h = h + 1;
    }
    assert(hs@.take(h as int) =~= hs@);
    Ok(())
}

// ---------------------------------------------------------------------------------------
// Environments
// ---------------------------------------------------------------------------------------

/// The first service binding without a name or a base URL.
pub open spec fn services_problem(items: Seq<(String, ServiceBinding)>) -> Option<Seq<char>>
    decreases items.len(),
{
    if items.len() == 0 {
        None
    } else {
        match services_problem(items.drop_last()) {
            Some(m) => Some(m),
            None => if is_blank(items.last().0@) {
                Some("environment service name is required"@)
            } else if is_blank(items.last().1.base_url@) {
                Some("environment service "@ + items.last().0@ + ".base_url is required"@)
            } else {
                None
            },
        }
    }
}

/// The first secret reference without a name or a value.
pub open spec fn secrets_problem(items: Seq<(String, String)>) -> Option<Seq<char>>
    decreases items.len(),
{
    if items.len() == 0 {
        None
    } else {
        match secrets_problem(items.drop_last()) {
            Some(m) => Some(m),
            None => if is_blank(items.last().0@) {
                Some("environment secret reference name is required"@)
            } else if items.last().1@.len() == 0 {
                Some("environment secret reference '"@ + items.last().0@ + "' must not be empty"@)
            } else {
                None
            },
        }
    }
}

/// The first problem with an environment: its services, then its secret references.
pub open spec fn environment_problem(env: RuntimeEnvironment) -> Option<Seq<char>> {
    match services_problem(env.services.items()) {
        Some(m) => Some(m),
        None => secrets_problem(env.secret_refs.items()),
    }
}

proof fn lemma_services_problem_prefix(s: Seq<(String, ServiceBinding)>, k: int)
    requires
        0 <= k <= s.len(),
        services_problem(s.take(k)) is Some,
    ensures
        services_problem(s) == services_problem(s.take(k)),
    decreases s.len() - k,
{
    if k < s.len() {
        assert(s.take(k + 1).drop_last() =~= s.take(k));
        lemma_services_problem_prefix(s, k + 1);
    } else {
        assert(s.take(k) =~= s);
    }
}

proof fn lemma_secrets_problem_prefix(s: Seq<(String, String)>, k: int)
    requires
        0 <= k <= s.len(),
        secrets_problem(s.take(k)) is Some,
    ensures
        secrets_problem(s) == secrets_problem(s.take(k)),
    decreases s.len() - k,
{
    if k < s.len() {
        assert(s.take(k + 1).drop_last() =~= s.take(k));
        lemma_secrets_problem_prefix(s, k + 1);
    } else {
        assert(s.take(k) =~= s);
    }
}

/// Checks an environment: named services with base URLs, named secret references with
/// values.
pub fn validate_environment(environment: &RuntimeEnvironment) -> (r: Result<(), LoadError>)
    ensures
        checked(r, environment_problem(*environment)),
{
    let services = environment.services.entries();
    let mut i: usize = 0;
    assert(services@.take(0) =~= Seq::<(String, ServiceBinding)>::empty());
    while i < services.len()
        invariant
            i <= services@.len(),
            services@ == environment.services.items(),
            services_problem(services@.take(i as int)) is None,
        decreases services.len() - i,
    {
        assert(services@.take(i + 1).drop_last() =~= services@.take(i as int));
        assert(services@.take(i + 1).last() == services@[i as int]);
        let problem: Option<Vec<char>> = if blank(services[i].0.as_str()) {
            Some(chars_of("environment service name is required"))
        } else if blank(services[i].1.base_url.as_str()) {
            let mut m: Vec<char> = Vec::new();
            push_str(&mut m, "environment service ");
            push_string(&mut m, &services[i].0);
            push_str(&mut m, ".base_url is required");
            Some(m)
        } else {
            None
        };
        match problem {
            Some(m) => {
                proof {
                    assert(services_problem(services@.take(i + 1)) == Some(m@));
                    lemma_services_problem_prefix(services@, i + 1);
                }
                return Err(LoadError::Validation(string_of(&m)));
            },
            None => {},
        }
        i = i + 1;
    }
    assert(services@.take(i as int) =~= services@);
    let secrets = environment.secret_refs.entries();
    let mut j: usize = 0;
    assert(secrets@.take(0) =~= Seq::<(String, String)>::empty());
    while j < secrets.len()
        invariant
            j <= secrets@.len(),
            secrets@ == environment.secret_refs.items(),
            services_problem(environment.services.items()) is None,
            secrets_problem(secrets@.take(j as int)) is None,
        decreases secrets.len() - j,
    {
        assert(secrets@.take(j + 1).drop_last() =~= secrets@.take(j as int));
        assert(secrets@.take(j + 1).last() == secrets@[j as int]);
        let problem: Option<Vec<char>> = if blank(secrets[j].0.as_str()) {
            Some(chars_of("environment secret reference name is required"))
        } else if secrets[j].1.as_str().unicode_len() == 0 {
            let mut m: Vec<char> = Vec::new();
            push_str(&mut m, "environment secret reference '");
            push_string(&mut m, &secrets[j].0);
            push_str(&mut m, "' must not be empty");
            Some(m)
        } else {
            None
        };
        match problem {
            Some(m) => {
                proof {
                    assert(secrets_problem(secrets@.take(j + 1)) == Some(m@));
                    lemma_secrets_problem_prefix(secrets@, j + 1);
                }
                return Err(LoadError::Validation(string_of(&m)));
            },
            None => {},
        }
        j = j + 1;
    }
    assert(secrets@.take(j as int) =~= secrets@);
    Ok(())
}

// ---------------------------------------------------------------------------------------
// Workflows against environments
// ---------------------------------------------------------------------------------------

/// The service that an effect calls, where it names one.
pub open spec fn effect_service(e: Effect) -> Option<String> {
    match e {
        Effect::Rest(r) => r.service,
        Effect::Graphql(g) => g.service,
        Effect::SnsPublish(s) => s.service,
        Effect::SqsSend(s) => s.service,
        Effect::SqsReceive(s) => s.service,
        Effect::Websocket(w) => w.service,
        _ => None,
    }
}

/// The bindings that the effects of some handlers need and the environment lacks.
pub open spec fn handlers_missing(hs: Seq<Handler>, env: RuntimeEnvironment) -> Set<Seq<char>>
    decreases hs.len(),
{
    if hs.len() == 0 {
        Set::empty()
    } else {
        handlers_missing(hs.drop_last(), env) + effects_missing(hs.last().effects@, env)
    }
}

pub open spec fn effects_missing(es: Seq<Effect>, env: RuntimeEnvironment) -> Set<Seq<char>>
    decreases es.len(),
{
    if es.len() == 0 {
        Set::empty()
    } else {
        effects_missing(es.drop_last(), env) + match effect_service(es.last()) {
            Some(s) => if env.services.has(s@) {
                Set::empty()
            } else {
                set!["service '"@ + s@ + "'"@]
            },
            None => Set::empty(),
        }
    }
}

/// The environment values and secrets that the templates of `rem` name and the
/// environment lacks.
pub open spec fn template_missing(rem: Seq<char>, env: RuntimeEnvironment) -> Set<Seq<char>>
    decreases rem.len(),
{
    match find(rem, seq!['{', '{']) {
        None => Set::empty(),
        Some(o) => if !(0 <= o && o + 2 <= rem.len()) {
            Set::empty()
        } else {
            let after = rem.subrange(o + 2, rem.len() as int);
            match find(after, seq!['}', '}']) {
                None => Set::empty(),
                Some(c) => if !(0 <= c && c + 2 <= after.len()) {
                    Set::empty()
                } else {
                    let expression = trim(after.subrange(0, c));
                    let here = match strip_prefix(expression, "env."@) {
                        Some(n) => if env.values.has(n) {
                            Set::empty()
                        } else {
                            set!["value '"@ + n + "'"@]
                        },
                        None => match strip_prefix(expression, "secret."@) {
                            Some(n) => if env.secret_refs.has(n) {
                                Set::empty()
                            } else {
                                set!["secret '"@ + n + "'"@]
                            },
                            None => Set::empty(),
                        },
                    };
                    here + template_missing(after.subrange(c + 2, after.len() as int), env)
                },
            }
        },
    }
}

pub open spec fn strings_missing(ss: Seq<Seq<char>>, env: RuntimeEnvironment) -> Set<Seq<char>>
    decreases ss.len(),
{
    if ss.len() == 0 {
        Set::empty()
    } else {
        strings_missing(ss.drop_last(), env) + template_missing(ss.last(), env)
    }
}

/// The bindings that a workflow needs and an environment lacks: services that effects
/// call, and values and secrets that templates name.
pub open spec fn missing_bindings(w: Workflow, env: RuntimeEnvironment) -> Set<Seq<char>> {
    handlers_missing(w.handlers@, env) + strings_missing(workflow_strs(w), env)
}

/// A string map used as a set holds exactly the texts of `s`.
pub open spec fn holds_exactly(m: StrMap<bool>, s: Set<Seq<char>>) -> bool {
    &&& m.wf()
    &&& forall|k: Seq<char>| #[trigger] m.has(k) <==> s.contains(k)
}

fn add_text(set: &mut StrMap<bool>, text: Vec<char>, Ghost(s): Ghost<Set<Seq<char>>>)
    requires
        holds_exactly(*old(set), s),
    ensures
        holds_exactly(*final(set), s.insert(text@)),
{
    let ghost before = *set;
    set.insert(string_of(&text), true);
    assert forall|k: Seq<char>| #[trigger] set.has(k) <==> s.insert(text@).contains(k) by {
        assert(set.has(k) == set.get_spec(k) is Some);
        assert(before.has(k) == before.get_spec(k) is Some);
        if k != text@ {
            assert(set.get_spec(k) == before.get_spec(k));
        }
    }
}

/// Adds the environment values and secrets that the templates of a string name and the
/// environment lacks.
pub fn collect_missing_template_bindings(
    value: &str,
    environment: &RuntimeEnvironment,
    missing: &mut StrMap<bool>,
    Ghost(s): Ghost<Set<Seq<char>>>,
)
    requires
        holds_exactly(*old(missing), s),
    ensures
        holds_exactly(*final(missing), s + template_missing(value@, *environment)),
{
    let open = vec!['{', '{'];
    let close = vec!['}', '}'];
    let mut remaining = chars_of(value);
    let ghost mut acc = s;
    assert(s + template_missing(value@, *environment) == acc + template_missing(remaining@, *environment));
    loop
        invariant
            open@ == seq!['{', '{'],
            close@ == seq!['}', '}'],
            holds_exactly(*missing, acc),
            s + template_missing(value@, *environment) == acc + template_missing(remaining@, *environment),
        decreases remaining@.len(),
    {
        let ghost rem = remaining@;
        proof {
            lemma_find_bounds(rem, seq!['{', '{']);
        }
        let o = match find_from_exec(&remaining, &open, 0) {
            None => {
                assert(acc + template_missing(rem, *environment) =~= acc);
                return;
            },
            Some(o) => o,
        };
        assert(find(rem, seq!['{', '{']) == Some(o as int));
        assert(o + 2 <= remaining.len());
        let after = slice_of(&remaining, o + 2, remaining.len());
        proof {
            lemma_find_bounds(after@, seq!['}', '}']);
        }
        let c = match find_from_exec(&after, &close, 0) {
            None => {
                assert(acc + template_missing(rem, *environment) =~= acc);
                return;
            },
            Some(c) => c,
        };
        let inner = slice_of(&after, 0, c);
        let expression = trim_seq(&inner);
        let rest = slice_of(&after, c + 2, after.len());
        let ghost next = template_missing(rest@, *environment);
        let env_prefix = chars_of("env.");
        let secret_prefix = chars_of("secret.");
        match strip_prefix_seq(&expression, &env_prefix) {
            Some(name) => {
                if !environment.values.contains_key(string_of(&name).as_str()) {
                    let mut m: Vec<char> = Vec::new();
                    push_str(&mut m, "value '");
                    push_seq(&mut m, &name);
                    push_str(&mut m, "'");
                    add_text(missing, m, Ghost(acc));
                    proof {
                        assert(set![m@] + next + acc =~= acc.insert(m@) + next);
                        acc = acc.insert(m@);
                    }
                } else {
                    assert(Set::<Seq<char>>::empty() + next =~= next);
                }
            },
            None => match strip_prefix_seq(&expression, &secret_prefix) {
                Some(name) => {
                    if !environment.secret_refs.contains_key(string_of(&name).as_str()) {
                        let mut m: Vec<char> = Vec::new();
                        push_str(&mut m, "secret '");
                        push_seq(&mut m, &name);
                        push_str(&mut m, "'");
                        add_text(missing, m, Ghost(acc));
                        proof {
                            assert(set![m@] + next + acc =~= acc.insert(m@) + next);
                            acc = acc.insert(m@);
                        }
                    } else {
                        assert(Set::<Seq<char>>::empty() + next =~= next);
                    }
                },
                None => {
                    assert(Set::<Seq<char>>::empty() + next =~= next);
                },
            },
        }
        proof {
            assert(s + template_missing(value@, *environment) =~= acc + template_missing(rest@, *environment));
        }
        remaining = rest;
    }
}

/// Checks that an environment binds every service, value and secret that a workflow needs;
/// the error lists the missing ones in order.
#[verifier::loop_isolation(false)]
pub fn validate_workflow_environment(workflow: &Workflow, environment: &RuntimeEnvironment) -> (r: Result<
    (),
    LoadError,
>)
    ensures
        match r {
            Ok(()) => missing_bindings(*workflow, *environment) == Set::<Seq<char>>::empty(),
            Err(e) => e matches LoadError::Validation(m) && exists|keys: Seq<Seq<char>>|
                {
                    &&& forall|i: int, j: int|
                        0 <= i < j < keys.len() ==> seq_lt(#[trigger] keys[i], #[trigger] keys[j])
                    &&& keys.to_set() == missing_bindings(*workflow, *environment)
                    &&& keys.len() > 0
                    &&& m@ == "missing environment bindings: "@ + join_comma(keys)
                },
        },
{
    let mut missing: StrMap<bool> = StrMap::new();
    let ghost mut acc: Set<Seq<char>> = Set::empty();
    let hs = &workflow.handlers;
    let mut h: usize = 0;
    assert(hs@.take(0) =~= Seq::<Handler>::empty());
    assert forall|k: Seq<char>| #[trigger] missing.has(k) <==> acc.contains(k) by {
        crate::map::lemma_has_iff_entry(missing, k);
    }
    while h < hs.len()
        invariant
            h <= hs@.len(),
            holds_exactly(missing, acc),
            acc == handlers_missing(hs@.take(h as int), *environment),
        decreases hs.len() - h,
    {
        assert(hs@.take(h + 1).drop_last() =~= hs@.take(h as int));
        let es = &hs[h].effects;
        let ghost base = acc;
        let mut x: usize = 0;
        assert(es@.take(0) =~= Seq::<Effect>::empty());
        assert(base + effects_missing(es@.take(0), *environment) =~= base);
        while x < es.len()
            invariant
                x <= es@.len(),
                h < hs@.len(),
                es@ == hs@[h as int].effects@,
                holds_exactly(missing, acc),
                acc == base + effects_missing(es@.take(x as int), *environment),
            decreases es.len() - x,
        {
            assert(es@.take(x + 1).drop_last() =~= es@.take(x as int));
            let service = match &es[x] {
                Effect::Rest(e) => &e.service,
                Effect::Graphql(e) => &e.service,
                Effect::SnsPublish(e) => &e.service,
                Effect::SqsSend(e) => &e.service,
                Effect::SqsReceive(e) => &e.service,
                Effect::Websocket(e) => &e.service,
                _ => &None,
            };
            assert(*service == effect_service(es@[x as int]));
            match service {
                Some(name) => {
                    if !environment.services.contains_key(name.as_str()) {
                        let mut m: Vec<char> = Vec::new();
                        push_str(&mut m, "service '");
                        push_string(&mut m, name);
                        push_str(&mut m, "'");
                        add_text(&mut missing, m, Ghost(acc));
                        proof {
                            assert(base + effects_missing(es@.take(x + 1), *environment) =~= acc.insert(m@));
                            acc = acc.insert(m@);
                        }
                    } else {
                        assert(base + effects_missing(es@.take(x + 1), *environment) =~= acc);
                    }
                },
                None => {
                    assert(base + effects_missing(es@.take(x + 1), *environment) =~= acc);
                },
            }
            x = x + 1;
        }
        assert(es@.take(x as int) =~= es@);
        h = h + 1;
    }
    assert(hs@.take(h as int) =~= hs@);
    let strings = workflow_strings(workflow);
    let ghost ss = strings@.map_values(|s: String| s@);
    let ghost base = acc;
    let mut i: usize = 0;
    assert(ss.take(0) =~= Seq::<Seq<char>>::empty());
    assert(base + strings_missing(ss.take(0), *environment) =~= base);
    while i < strings.len()
        invariant
            i <= strings@.len(),
            ss == strings@.map_values(|s: String| s@),
            holds_exactly(missing, acc),
            acc == base + strings_missing(ss.take(i as int), *environment),
        decreases strings.len() - i,
    {
        assert(ss.take(i + 1).drop_last() =~= ss.take(i as int));
        assert(ss.take(i + 1).last() == strings@[i as int]@);
        collect_missing_template_bindings(strings[i].as_str(), environment, &mut missing, Ghost(acc));
        proof {
            assert(base + strings_missing(ss.take(i + 1), *environment) =~= acc + template_missing(
                strings@[i as int]@,
                *environment,
            ));
            acc = acc + template_missing(strings@[i as int]@, *environment);
        }
        i = i + 1;
    }
    assert(ss.take(i as int) =~= ss);
    assert(acc =~= missing_bindings(*workflow, *environment));
    let entries = missing.entries();
    let ghost keys = entries@.map_values(|e: (String, bool)| e.0@);
    proof {
        assert forall|k: Seq<char>| keys.contains(k) <==> acc.contains(k) by {
            crate::map::lemma_has_iff_entry(missing, k);
            if keys.contains(k) {
                let i = choose|i: int| 0 <= i < keys.len() && keys[i] == k;
                assert(entries@[i].0@ == k);
            }
            if missing.has(k) {
                let i = choose|i: int| 0 <= i < missing.items().len() && (#[trigger] missing.items()[i]).0@ == k;
                assert(keys[i] == k);
            }
        }
        assert(keys.to_set() =~= acc);
    }
    if entries.len() == 0 {
        proof {
            assert forall|k: Seq<char>| !acc.contains(k) by {
                if acc.contains(k) {
                    assert(keys.to_set().contains(k));
                }
            }
            assert(acc =~= Set::<Seq<char>>::empty());
        }
        return Ok(());
    }
    let mut m: Vec<char> = Vec::new();
    push_str(&mut m, "missing environment bindings: ");
    let ghost head = m@;
    push_string(&mut m, &entries[0].0);
    let mut j: usize = 1;
    assert(keys.take(1).drop_last().len() == 0);
    assert(head + join_comma(keys.take(1)) =~= m@);
    while j < entries.len()
        invariant
            1 <= j <= entries@.len(),
            keys == entries@.map_values(|e: (String, bool)| e.0@),
            m@ == head + join_comma(keys.take(j as int)),
        decreases entries.len() - j,
    {
        push_str(&mut m, ", ");
        push_string(&mut m, &entries[j].0);
        assert(keys.take(j + 1).drop_last() =~= keys.take(j as int));
        assert(head + join_comma(keys.take(j + 1)) =~= m@);
        j = j + 1;
    }
    assert(keys.take(j as int) =~= keys);
    proof {
        assert forall|i: int, j: int| 0 <= i < j < keys.len() implies seq_lt(#[trigger] keys[i], #[trigger] keys[j]) by {
            assert(keys[i] == missing.items()[i].0@);
            assert(keys[j] == missing.items()[j].0@);
        }
    }
    Err(LoadError::Validation(string_of(&m)))
}

} // verus!
