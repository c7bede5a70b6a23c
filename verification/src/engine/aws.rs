use vstd::prelude::*;

use super::error::EngineError;
use super::http::{
    base_template, body_view, http_base_url, join_amp, parse_http_base_url, percent_encode,
    percent_encoding, request_view, BodyV, HttpRequest, RequestV,
};
use super::runner::{read_reply, reply_response, HttpReply};
use crate::domain::observation::RestBody;
use super::redact::{redact, redact_secrets};
use super::template::{interpolate, interpolate_json, interpolate_string, interpolate_value};
use crate::domain::environment::RuntimeEnvironment;
use crate::json::{json_text, JsonV, JsonValue};
use crate::text::{
    decimal, chars_of, find, find_from_exec, push_seq, push_str, push_string, slice_of, split_once_char,
    split_once_exec, string_of, strip_prefix, strip_prefix_seq,
};

verus! {

/// The text of the error when the request of an AWS action could not be built.
pub open spec fn aws_build_text(action: Seq<char>, message: Seq<char>) -> Seq<char> {
    "failed to build AWS "@ + action + " request: "@ + message
}

/// The text of the error when an AWS effect names no endpoint that the environment binds.
pub open spec fn missing_aws_text(service: Option<String>) -> Seq<char> {
    match service {
        Some(s) => "missing AWS service binding for '"@ + s@ + "'"@,
        None => "AWS effect requires service or endpoint_url"@,
    }
}

/// The path of a URL: from the first `/` after its scheme and authority, or `/`.
pub open spec fn url_path(url: Seq<char>) -> Seq<char> {
    let rest = match strip_prefix(url, "http://"@) {
        Some(r) => r,
        None => url,
    };
    match split_once_char(rest, '/') {
        Some((_, p)) => "/"@ + p,
        None => "/"@,
    }
}

/// The fields of a form body as `key=value`, both percent-encoded.
pub open spec fn form_fields(fields: Seq<(Seq<char>, Seq<char>)>) -> Seq<Seq<char>> {
    fields.map_values(|f: (Seq<char>, Seq<char>)| percent_encoding(f.0) + "="@ + percent_encoding(f.1))
}

/// The request of an AWS query-API action for an event: a form POST to the path (`/` where
/// there is none) of the endpoint, with the action, the given fields and the interpolated
/// message as JSON text; or the text of the error.
pub open spec fn aws_request(
    action: Seq<char>,
    endpoint_url: Option<String>,
    service: Option<String>,
    path: Option<Seq<char>>,
    fields: Seq<(Seq<char>, Seq<char>)>,
    message_field: Seq<char>,
    message: JsonV,
    payload: JsonV,
    env: RuntimeEnvironment,
) -> Result<RequestV, Seq<char>> {
    match base_template(endpoint_url, service, env) {
        None => Err(missing_aws_text(service)),
        Some(t) => match interpolate(t, t, payload, env) {
            Err(m) => Err(aws_build_text(action, m)),
            Ok(base_url) => match http_base_url(base_url) {
                Err(m) => Err(m),
                Ok((origin, host, port)) => match interpolate_value(message, payload, env) {
                    Err(m) => Err(aws_build_text(action, m)),
                    Ok(mv) => {
                        let p = match path {
                            Some(p) => p,
                            None => "/"@,
                        };
                        Ok(
                            RequestV {
                                operation: action,
                                method: "POST"@,
                                host,
                                port,
                                path_and_query: p,
                                headers: Seq::empty(),
                                body: Some(
                                    join_amp(
                                        form_fields(
                                            seq![("Action"@, action)] + fields + seq![
                                                (message_field, json_text(mv)),
                                            ],
                                        ),
                                    ),
                                ),
                                content_type: "application/x-www-form-urlencoded"@,
                                url: redact(origin + p, env.secret_refs.items()),
                            },
                        )
                    },
                },
            },
        },
    }
}

/// The path of a URL.
pub fn url_path_exec(url: &str) -> (r: Vec<char>)
    ensures
        r@ == url_path(url@),
{
    let u = chars_of(url);
    let prefix = chars_of("http://");
    let rest = match strip_prefix_seq(&u, &prefix) {
        Some(r) => r,
        None => u,
    };
    match split_once_exec(&rest, '/') {
        Some((_, p)) => {
            let mut out = vec!['/'];
            push_seq(&mut out, &p);
            proof {
                reveal_strlit("/");
                assert(out@ =~= "/"@ + p@);
            }
            out
        },
        None => {
            let out = vec!['/'];
            proof {
                reveal_strlit("/");
                assert(out@ =~= "/"@);
            }
            out
        },
    }
}

fn form_body(fields: &Vec<(Vec<char>, Vec<char>)>) -> (r: Vec<char>)
    ensures
        r@ == join_amp(form_fields(fields@.map_values(|f: (Vec<char>, Vec<char>)| (f.0@, f.1@)))),
{
    let ghost fv = fields@.map_values(|f: (Vec<char>, Vec<char>)| (f.0@, f.1@));
    let mut out: Vec<char> = Vec::new();
    let mut i: usize = 0;
    assert(form_fields(fv).take(0) =~= Seq::<Seq<char>>::empty());
    while i < fields.len()
        invariant
            i <= fields@.len(),
            fv == fields@.map_values(|f: (Vec<char>, Vec<char>)| (f.0@, f.1@)),
            out@ == join_amp(form_fields(fv).take(i as int)),
        decreases fields.len() - i,
    {
        let ghost before = form_fields(fv).take(i as int);
        if i > 0 {
            push_str(&mut out, "&");
        }
        let k = string_of(&fields[i].0);
        let v = string_of(&fields[i].1);
        let ke = percent_encode(k.as_str());
        let ve = percent_encode(v.as_str());
        push_seq(&mut out, &ke);
        push_str(&mut out, "=");
        push_seq(&mut out, &ve);
        proof {
            let item = form_fields(fv)[i as int];
            assert(item == percent_encoding(fields@[i as int].0@) + "="@ + percent_encoding(
                fields@[i as int].1@,
            ));
            assert(form_fields(fv).take(i + 1) =~= before.push(item));
            if i > 0 {
                assert(before.push(item).drop_last() =~= before);
                assert(join_amp(before.push(item)) == join_amp(before) + "&"@ + item);
            } else {
                assert(before.push(item) =~= seq![item]);
            }
        }
        i = i + 1;
    }
    assert(form_fields(fv).take(i as int) =~= form_fields(fv));
    out
}

fn base_template_of(
    base_url: &Option<String>,
    service: &Option<String>,
    environment: &RuntimeEnvironment,
) -> (r: Option<String>)
    ensures
        match r {
            Some(t) => base_template(*base_url, *service, *environment) == Some(t@),
            None => base_template(*base_url, *service, *environment) is None,
        },
{
    super::http::base_template_exec(base_url, service, environment)
}

fn missing_aws_message(service: &Option<String>) -> (r: String)
    ensures
        r@ == missing_aws_text(*service),
{
    match service {
        Some(s) => {
            let mut m: Vec<char> = Vec::new();
            push_str(&mut m, "missing AWS service binding for '");
            push_string(&mut m, s);
            push_str(&mut m, "'");
            string_of(&m)
        },
        None => String::from_str("AWS effect requires service or endpoint_url"),
    }
}

fn aws_build_message(action: &str, message: &String) -> (r: String)
    ensures
        r@ == aws_build_text(action@, message@),
{
    let mut m: Vec<char> = Vec::new();
    push_str(&mut m, "failed to build AWS ");
    push_str(&mut m, action);
    push_str(&mut m, " request: ");
    push_string(&mut m, message);
    string_of(&m)
}

/// Builds the request of an AWS query-API action for an event, or the text of the error.
pub fn build_aws_request(
    action: &str,
    endpoint_url: &Option<String>,
    service: &Option<String>,
    path: Option<Vec<char>>,
    fields: Vec<(Vec<char>, Vec<char>)>,
    message_field: &str,
    message: &JsonValue,
    payload: &JsonValue,
    environment: &RuntimeEnvironment,
) -> (r: Result<HttpRequest, String>)
    ensures
        match r {
            Ok(q) => aws_request(
                action@,
                *endpoint_url,
                *service,
                match path {
                    Some(p) => Some(p@),
                    None => None,
                },
                fields@.map_values(|f: (Vec<char>, Vec<char>)| (f.0@, f.1@)),
                message_field@,
                message@,
                payload@,
                *environment,
            ) == Ok::<RequestV, Seq<char>>(request_view(q)),
            Err(m) => aws_request(
                action@,
                *endpoint_url,
                *service,
                match path {
                    Some(p) => Some(p@),
                    None => None,
                },
                fields@.map_values(|f: (Vec<char>, Vec<char>)| (f.0@, f.1@)),
                message_field@,
                message@,
                payload@,
                *environment,
            ) == Err::<RequestV, Seq<char>>(m@),
        },
{
    let template = match base_template_of(endpoint_url, service, environment) {
        Some(t) => t,
        None => {
            return Err(missing_aws_message(service));
        },
    };
    let base_url = match interpolate_string(template.as_str(), payload, environment, action) {
        Ok(b) => b,
        Err(e) => {
            return match e {
                EngineError::RestRequestBuild { message, .. } => Err(aws_build_message(action, &message)),
                _ => Err(String::new()),
            };
        },
    };
    let base = match parse_http_base_url(base_url.as_str()) {
        Ok(b) => b,
        Err(e) => {
            return Err(e.message());
        },
    };
    let mv = match interpolate_json(message, payload, environment, action) {
        Ok(v) => v,
        Err(e) => {
            return match e {
                EngineError::RestRequestBuild { message, .. } => Err(aws_build_message(action, &message)),
                _ => Err(String::new()),
            };
        },
    };
    let p = match path {
        Some(p) => p,
        None => {
            let out = vec!['/'];
            proof {
                reveal_strlit("/");
                assert(out@ =~= "/"@);
            }
            out
        },
    };
    let ghost fv = fields@.map_values(|f: (Vec<char>, Vec<char>)| (f.0@, f.1@));
    let mut all: Vec<(Vec<char>, Vec<char>)> = Vec::new();
    all.push((chars_of("Action"), chars_of(action)));
    let mut fields = fields;
    all.append(&mut fields);
    all.push((chars_of(message_field), chars_of(mv.to_json_text().as_str())));
    let body = form_body(&all);
    proof {
        assert(all@.map_values(|f: (Vec<char>, Vec<char>)| (f.0@, f.1@)) =~= seq![
            ("Action"@, action@),
        ] + fv + seq![(message_field@, json_text(mv@))]);
    }
    let mut url = chars_of(base.origin.as_str());
    push_seq(&mut url, &p);
    let url = redact_secrets(&url, &environment.secret_refs);
    let q = HttpRequest {
        operation: action.to_owned(),
        method: String::from_str("POST"),
        host: base.host,
        port: base.port,
        path_and_query: string_of(&p),
        headers: Vec::new(),
        body: Some(string_of(&body)),
        content_type: String::from_str("application/x-www-form-urlencoded"),
        url: string_of(&url),
    };
    assert(request_view(q).headers =~= Seq::<(Seq<char>, Seq<char>)>::empty());
    Ok(q)
}

/// The text between the first `<MessageId>` of an XML text and the `</MessageId>` after it.
pub open spec fn message_id_of(text: Seq<char>) -> Option<Seq<char>> {
    let open = "<MessageId>"@;
    match find(text, open) {
        Some(i) => if 0 <= i && i + open.len() <= text.len() {
            let after = text.subrange(i + open.len(), text.len() as int);
            match find(after, "</MessageId>"@) {
                Some(j) => if 0 <= j <= after.len() {
                    Some(after.subrange(0, j))
                } else {
                    None
                },
                None => None,
            }
        } else {
            None
        },
        None => None,
    }
}

pub open spec fn aws_status_text(action: Seq<char>, status: u16) -> Seq<char> {
    "AWS "@ + action + " returned status "@ + decimal(status as nat)
}

pub open spec fn aws_no_id_text(action: Seq<char>) -> Seq<char> {
    "AWS "@ + action + " response has no MessageId"@
}

/// What the reply to an AWS action says: the message id of a successful response, or the
/// text of why there is none.
pub open spec fn aws_reply(action: Seq<char>, reply: HttpReply) -> Result<Seq<char>, Seq<char>> {
    match reply_response(action, reply) {
        Err(m) => Err(m),
        Ok(v) => if !(200 <= v.0 < 300) {
            Err(aws_status_text(action, v.0))
        } else {
            match v.2 {
                BodyV::Text(t) => match message_id_of(t) {
                    Some(id) => Ok(id),
                    None => Err(aws_no_id_text(action)),
                },
                _ => Err(aws_no_id_text(action)),
            }
        },
    }
}

fn message_id_exec(text: &Vec<char>) -> (r: Option<Vec<char>>)
    ensures
        match r {
            Some(id) => message_id_of(text@) == Some(id@),
            None => message_id_of(text@) is None,
        },
{
    let open = chars_of("<MessageId>");
    let close = chars_of("</MessageId>");
    proof {
        crate::json::lemma_find_from_bounds(text@, open@, 0);
    }
    match find_from_exec(text, &open, 0) {
        Some(i) => {
            let n = text.len();
            let on = open.len();
            let after = slice_of(text, i + on, n);
            proof {
                crate::json::lemma_find_from_bounds(after@, close@, 0);
            }
            match find_from_exec(&after, &close, 0) {
                Some(j) => Some(slice_of(&after, 0, j)),
                None => None,
            }
        },
        None => None,
    }
}

/// Reads the message id from the reply to an AWS action, or the text of why there is none.
pub fn read_aws_reply(action: &str, reply: &HttpReply) -> (r: Result<String, String>)
    ensures
        match r {
            Ok(id) => aws_reply(action@, *reply) == Ok::<Seq<char>, Seq<char>>(id@),
            Err(m) => aws_reply(action@, *reply) == Err::<Seq<char>, Seq<char>>(m@),
        },
{
    let response = match read_reply(action, reply) {
        Ok(response) => response,
        Err(e) => {
            return Err(e.message());
        },
    };
    if !(200 <= response.status && response.status < 300) {
        let mut m: Vec<char> = Vec::new();
        push_str(&mut m, "AWS ");
        push_str(&mut m, action);
        push_str(&mut m, " returned status ");
        crate::text::push_decimal(&mut m, response.status as u64);
        return Err(string_of(&m));
    }
    let mut none: Vec<char> = Vec::new();
    push_str(&mut none, "AWS ");
    push_str(&mut none, action);
    push_str(&mut none, " response has no MessageId");
    match &response.body {
        RestBody::Text { value } => match message_id_exec(&chars_of(value.as_str())) {
            Some(id) => Ok(string_of(&id)),
            None => Err(string_of(&none)),
        },
        _ => Err(string_of(&none)),
    }
}

} // verus!
