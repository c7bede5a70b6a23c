use vstd::prelude::*;
use vstd::string::*;

use super::error::{engine_error_text, EngineError};
use super::template::{interpolate, interpolate_json, interpolate_string, interpolate_value};
use crate::domain::effect::{method_text, GraphqlEffect, RestEffect};
use crate::domain::environment::RuntimeEnvironment;
use super::redact::{redact, redact_secrets};
use crate::domain::observation::{
    GraphqlOperationObservation, RestBody, RestOperationObservation, RestResponseObservation,
};
use crate::json::{json_parse, json_text, JsonV, JsonValue};
use crate::map::StrMap;
use crate::text::{
    chars_of, decimal, find_char, push_decimal, push_seq, push_str, push_string,
    rsplit_once_char, rsplit_once_exec, split_once_char, split_once_exec, string_of,
    strip_prefix, strip_prefix_seq, trim_end_char, trim_end_char_seq, parse_u16, parse_u16_exec,
    find, find_from_exec, lines, lines_exec, second_token, slice_of, to_ascii_lowercase,
    to_ascii_lowercase_exec, trim, trim_seq, ws_tokens, contains_seq,
};

verus! {

/// An HTTP request ready to be sent, with what a trace needs to name it.
#[derive(Debug)]
pub struct HttpRequest {
    pub operation: String,
    pub method: String,
    pub host: String,
    pub port: u16,
    pub path_and_query: String,
    pub headers: Vec<(String, String)>,
    pub body: Option<String>,
    pub content_type: String,
    pub url: String,
}

/// An HTTP request as plain values.
pub struct RequestV {
    pub operation: Seq<char>,
    pub method: Seq<char>,
    pub host: Seq<char>,
    pub port: u16,
    pub path_and_query: Seq<char>,
    pub headers: Seq<(Seq<char>, Seq<char>)>,
    pub body: Option<Seq<char>>,
    pub content_type: Seq<char>,
    pub url: Seq<char>,
}

pub open spec fn request_view(r: HttpRequest) -> RequestV {
    RequestV {
        operation: r.operation@,
        method: r.method@,
        host: r.host@,
        port: r.port,
        path_and_query: r.path_and_query@,
        headers: r.headers@.map_values(|h: (String, String)| (h.0@, h.1@)),
        body: match r.body {
            Some(b) => Some(b@),
            None => None,
        },
        content_type: r.content_type@,
        url: r.url@,
    }
}

pub open spec fn unsupported_rest_text(base_url: Seq<char>) -> Seq<char> {
    "unsupported REST base URL '"@ + base_url + "': only http:// URLs are supported in this phase"@
}

pub open spec fn unsupported_graphql_text(base_url: Seq<char>) -> Seq<char> {
    "unsupported GraphQL base URL '"@ + base_url
        + "': only http:// URLs are supported in this phase"@
}

/// Host and port of an authority (`host` or `host:port`); the port defaults to 80.
pub open spec fn host_port(authority: Seq<char>) -> Result<(Seq<char>, u16), Seq<char>> {
    match rsplit_once_char(authority, ':') {
        Some((host, port)) => match parse_u16(port) {
            Ok(p) => Ok((host, p)),
            Err(m) => Err(m),
        },
        None => Ok((authority, 80u16)),
    }
}

/// The parts of a REST base URL (origin, host, port), or the text of the error.
pub open spec fn http_base_url(base_url: Seq<char>) -> Result<(Seq<char>, Seq<char>, u16), Seq<char>> {
    match strip_prefix(base_url, "http://"@) {
        None => Err(unsupported_rest_text(base_url)),
        Some(rest) => {
            let authority = trim_end_char(rest, '/');
            if find_char(authority, '/') is Some {
                Err(unsupported_rest_text(base_url))
            } else {
                match host_port(authority) {
                    Err(m) => Err(unsupported_rest_text(base_url + " ("@ + m + ")"@)),
                    Ok((host, port)) => Ok(
                        ("http://"@ + host + ":"@ + decimal(port as nat), host, port),
                    ),
                }
            }
        },
    }
}

/// The parts of a GraphQL URL (host, port, path, url), or the text of the error.
pub open spec fn graphql_base_url(base_url: Seq<char>) -> Result<
    (Seq<char>, u16, Seq<char>, Seq<char>),
    Seq<char>,
> {
    match strip_prefix(base_url, "http://"@) {
        None => Err(unsupported_graphql_text(base_url)),
        Some(rest) => {
            let (authority, path) = match split_once_char(rest, '/') {
                Some((a, p)) => (a, "/"@ + p),
                None => (rest, "/graphql"@),
            };
            match host_port(trim_end_char(authority, '/')) {
                Err(m) => Err(unsupported_graphql_text(base_url + " ("@ + m + ")"@)),
                Ok((host, port)) => Ok(
                    (host, port, path, "http://"@ + host + ":"@ + decimal(port as nat) + path),
                ),
            }
        },
    }
}

pub struct HttpBaseUrl {
    pub origin: String,
    pub host: String,
    pub port: u16,
}

pub struct GraphqlBaseUrl {
    pub host: String,
    pub port: u16,
    pub path: String,
    pub url: String,
}

pub(crate) fn host_port_exec(authority: &Vec<char>) -> (r: Result<(Vec<char>, u16), String>)
    ensures
        match r {
            Ok(p) => host_port(authority@) == Ok::<(Seq<char>, u16), Seq<char>>((p.0@, p.1)),
            Err(m) => host_port(authority@) == Err::<(Seq<char>, u16), Seq<char>>(m@),
        },
{
    match rsplit_once_exec(authority, ':') {
        Some((host, port)) => match parse_u16_exec(&port) {
            Ok(p) => Ok((host, p)),
            Err(m) => Err(m),
        },
        None => Ok((authority.clone(), 80)),
    }
}

/// Splits an `http://host[:port]` base URL.
pub fn parse_http_base_url(base_url: &str) -> (r: Result<HttpBaseUrl, EngineError>)
    ensures
        match r {
            Ok(b) => http_base_url(base_url@) == Ok::<(Seq<char>, Seq<char>, u16), Seq<char>>(
                (b.origin@, b.host@, b.port),
            ),
            Err(e) => http_base_url(base_url@) == Err::<(Seq<char>, Seq<char>, u16), Seq<char>>(
                engine_error_text(e),
            ) && e is UnsupportedRestBaseUrl,
        },
{
    let b = chars_of(base_url);
    let scheme = chars_of("http://");
    let rest = match strip_prefix_seq(&b, &scheme) {
        Some(rest) => rest,
        None => {
            return Err(EngineError::UnsupportedRestBaseUrl { base_url: base_url.to_owned() });
        },
    };
    let authority = trim_end_char_seq(&rest, '/');
    if split_once_exec(&authority, '/').is_some() {
        proof {
            crate::json::lemma_find_from_bounds(authority@, seq!['/'], 0);
        }
        return Err(EngineError::UnsupportedRestBaseUrl { base_url: base_url.to_owned() });
    }
    proof {
        crate::json::lemma_find_from_bounds(authority@, seq!['/'], 0);
    }
    match host_port_exec(&authority) {
        Err(m) => {
            let mut t: Vec<char> = Vec::new();
            push_seq(&mut t, &b);
            push_str(&mut t, " (");
            push_string(&mut t, &m);
            push_str(&mut t, ")");
            Err(EngineError::UnsupportedRestBaseUrl { base_url: string_of(&t) })
        },
        Ok((host, port)) => {
            let mut origin: Vec<char> = Vec::new();
            push_str(&mut origin, "http://");
            push_seq(&mut origin, &host);
            push_str(&mut origin, ":");
            push_decimal(&mut origin, port as u64);
            Ok(HttpBaseUrl { origin: string_of(&origin), host: string_of(&host), port })
        },
    }
}

/// Splits an `http://host[:port][/path]` GraphQL URL; the path defaults to `/graphql`.
pub fn parse_graphql_base_url(base_url: &str) -> (r: Result<GraphqlBaseUrl, EngineError>)
    ensures
        match r {
            Ok(b) => graphql_base_url(base_url@) == Ok::<
                (Seq<char>, u16, Seq<char>, Seq<char>),
                Seq<char>,
            >((b.host@, b.port, b.path@, b.url@)),
            Err(e) => graphql_base_url(base_url@) == Err::<
                (Seq<char>, u16, Seq<char>, Seq<char>),
                Seq<char>,
            >(engine_error_text(e)) && e is UnsupportedGraphqlBaseUrl,
        },
{
    let b = chars_of(base_url);
    let scheme = chars_of("http://");
    let rest = match strip_prefix_seq(&b, &scheme) {
        Some(rest) => rest,
        None => {
            return Err(EngineError::UnsupportedGraphqlBaseUrl { base_url: base_url.to_owned() });
        },
    };
    let (authority, path) = match split_once_exec(&rest, '/') {
        Some((a, p)) => {
            let mut path: Vec<char> = Vec::new();
            push_str(&mut path, "/");
            push_seq(&mut path, &p);
            (a, path)
        },
        None => (rest.clone(), chars_of("/graphql")),
    };
    let authority = trim_end_char_seq(&authority, '/');
    match host_port_exec(&authority) {
        Err(m) => {
            let mut t: Vec<char> = Vec::new();
            push_seq(&mut t, &b);
            push_str(&mut t, " (");
            push_string(&mut t, &m);
            push_str(&mut t, ")");
            Err(EngineError::UnsupportedGraphqlBaseUrl { base_url: string_of(&t) })
        },
        Ok((host, port)) => {
            let mut url: Vec<char> = Vec::new();
            push_str(&mut url, "http://");
            push_seq(&mut url, &host);
            push_str(&mut url, ":");
            push_decimal(&mut url, port as u64);
            push_seq(&mut url, &path);
            Ok(
                GraphqlBaseUrl {
                    host: string_of(&host),
                    port,
                    path: string_of(&path),
                    url: string_of(&url),
                },
            )
        },
    }
}

pub open spec fn unreserved(b: u8) -> bool {
    (65 <= b <= 90) || (97 <= b <= 122) || (48 <= b <= 57) || b == 45 || b == 95 || b == 46
        || b == 126
}

pub open spec fn hex_digit(n: u8) -> char {
    if n < 10 {
        (n + 48) as char
    } else {
        (n + 55) as char
    }
}

pub open spec fn percent_byte(b: u8) -> Seq<char> {
    if unreserved(b) {
        seq![b as char]
    } else {
        seq!['%', hex_digit(b / 16), hex_digit(b % 16)]
    }
}

pub open spec fn percent_bytes(bs: Seq<u8>) -> Seq<char>
    decreases bs.len(),
{
    if bs.len() == 0 {
        Seq::empty()
    } else {
        percent_bytes(bs.drop_last()) + percent_byte(bs.last())
    }
}

/// Percent-encoding of the UTF-8 bytes of a text: unreserved ASCII stays, the rest
/// becomes `%XX` with uppercase hex digits.
pub open spec fn percent_encoding(s: Seq<char>) -> Seq<char> {
    percent_bytes(vstd::utf8::encode_utf8(s))
}

fn hex_digit_exec(n: u8) -> (c: char)
    requires
        n < 16,
    ensures
        c == hex_digit(n),
{
    if n < 10 {
        (n + 48) as char
    } else {
        (n + 55) as char
    }
}

/// Percent-encodes a query key or value.
pub fn percent_encode(value: &str) -> (r: Vec<char>)
    ensures
        r@ == percent_encoding(value@),
{
    let bytes = value.as_bytes();
    let mut out: Vec<char> = Vec::new();
    let mut i: usize = 0;
    while i < bytes.len()
        invariant
            bytes@ == vstd::utf8::encode_utf8(value@),
            i <= bytes@.len(),
            out@ == percent_bytes(bytes@.subrange(0, i as int)),
        decreases bytes.len() - i,
    {
        let b = bytes[i];
        if (65 <= b && b <= 90) || (97 <= b && b <= 122) || (48 <= b && b <= 57) || b == 45 || b
            == 95 || b == 46 || b == 126 {
            out.push(b as char);
        } else {
            out.push('%');
            out.push(hex_digit_exec(b / 16));
            out.push(hex_digit_exec(b % 16));
        }
        assert(bytes@.subrange(0, i + 1).drop_last() =~= bytes@.subrange(0, i as int));
        i = i + 1;
    }
    assert(bytes@.subrange(0, bytes@.len() as int) =~= bytes@);
    out
}

/// The operation name of a REST effect: its own, or the method and path.
pub open spec fn rest_operation(rest: RestEffect) -> Seq<char> {
    match rest.operation {
        Some(o) => o@,
        None => method_text(rest.method) + " "@ + rest.path@,
    }
}

/// The base URL template of a service binding, where the environment has one.
pub open spec fn service_base_url(service: Option<String>, env: RuntimeEnvironment) -> Option<
    Seq<char>,
> {
    match service {
        Some(s) => match env.services.get_spec(s@) {
            Some(binding) => Some(binding.base_url@),
            None => None,
        },
        None => None,
    }
}

/// The base URL template of an effect: its own, or its service's.
pub open spec fn base_template(base_url: Option<String>, service: Option<String>, env: RuntimeEnvironment) -> Option<Seq<char>> {
    match base_url {
        Some(b) => Some(b@),
        None => service_base_url(service, env),
    }
}

pub open spec fn rest_build_text(operation: Seq<char>, message: Seq<char>) -> Seq<char> {
    "failed to build REST request for "@ + operation + ": "@ + message
}

/// The `key=value` pairs of the query, each part interpolated and percent-encoded.
pub open spec fn query_pairs(items: Seq<(String, String)>, payload: JsonV, values: RuntimeEnvironment) -> Result<
    Seq<Seq<char>>,
    Seq<char>,
>
    decreases items.len(),
{
    if items.len() == 0 {
        Ok(Seq::empty())
    } else {
        match query_pairs(items.drop_last(), payload, values) {
            Err(m) => Err(m),
            Ok(p) => match interpolate(items.last().1@, items.last().1@, payload, values) {
                Err(m) => Err(m),
                Ok(v) => Ok(p.push(percent_encoding(items.last().0@) + "="@ + percent_encoding(v))),
            },
        }
    }
}

/// The texts joined with `&` between them.
pub open spec fn join_amp(ps: Seq<Seq<char>>) -> Seq<char>
    decreases ps.len(),
{
    if ps.len() == 0 {
        Seq::empty()
    } else if ps.len() == 1 {
        ps[0]
    } else {
        join_amp(ps.drop_last()) + "&"@ + ps.last()
    }
}

/// The headers with each value interpolated.
pub open spec fn header_values(items: Seq<(String, String)>, payload: JsonV, values: RuntimeEnvironment) -> Result<
    Seq<(Seq<char>, Seq<char>)>,
    Seq<char>,
>
    decreases items.len(),
{
    if items.len() == 0 {
        Ok(Seq::empty())
    } else {
        match header_values(items.drop_last(), payload, values) {
            Err(m) => Err(m),
            Ok(p) => match interpolate(items.last().1@, items.last().1@, payload, values) {
                Err(m) => Err(m),
                Ok(v) => Ok(p.push((items.last().0@, v))),
            },
        }
    }
}

pub open spec fn missing_rest_text(service: Option<String>) -> Seq<char> {
    match service {
        Some(s) => "missing REST service binding for '"@ + s@ + "'"@,
        None => "REST effect requires service or base_url"@,
    }
}

/// The request that a REST effect makes for an event, or the text of the error.
pub open spec fn rest_request(rest: RestEffect, payload: JsonV, env: RuntimeEnvironment) -> Result<
    RequestV,
    Seq<char>,
> {
    let op = rest_operation(rest);
    let values = env;
    match base_template(rest.base_url, rest.service, env) {
        None => Err(missing_rest_text(rest.service)),
        Some(t) => match interpolate(t, t, payload, values) {
            Err(m) => Err(rest_build_text(op, m)),
            Ok(base_url) => match http_base_url(base_url) {
                Err(m) => Err(m),
                Ok((origin, host, port)) => match interpolate(rest.path@, rest.path@, payload, values) {
                    Err(m) => Err(rest_build_text(op, m)),
                    Ok(path) => match query_pairs(rest.query.items(), payload, values) {
                        Err(m) => Err(rest_build_text(op, m)),
                        Ok(pairs) => {
                            let pq = if pairs.len() == 0 {
                                path
                            } else {
                                path + "?"@ + join_amp(pairs)
                            };
                            match header_values(rest.headers.items(), payload, values) {
                                Err(m) => Err(rest_build_text(op, m)),
                                Ok(hs) => {
                                    let body: Result<Option<Seq<char>>, Seq<char>> = match rest.json_body {
                                        None => Ok(None),
                                        Some(b) => match interpolate_value(b@, payload, values) {
                                            Err(m) => Err(m),
                                            Ok(bv) => Ok(Some(json_text(bv))),
                                        },
                                    };
                                    match body {
                                        Err(m) => Err(rest_build_text(op, m)),
                                        Ok(body) => Ok(
                                            RequestV {
                                                operation: op,
                                                method: method_text(rest.method),
                                                host,
                                                port,
                                                path_and_query: pq,
                                                headers: hs,
                                                body,
                                                content_type: "application/json"@,
                                                url: redact(origin + pq, env.secret_refs.items()),
                                            },
                                        ),
                                    }
                                },
                            }
                        },
                    },
                },
            },
        },
    }
}

pub(crate) fn base_template_exec(
    base_url: &Option<String>,
    service: &Option<String>,
    environment: &RuntimeEnvironment,
) -> (r: Option<String>)
    ensures
        match r {
            Some(t) => base_template(*base_url, *service, *environment) == Some(t@),
            None => base_template(*base_url, *service, *environment) is None,
        },
{
    match base_url {
        Some(b) => Some(b.clone()),
        None => match service {
            Some(s) => match environment.services.get(s.as_str()) {
                Some(binding) => Some(binding.base_url.clone()),
                None => None,
            },
            None => None,
        },
    }
}

proof fn lemma_join_amp_push(ps: Seq<Seq<char>>, p: Seq<char>)
    requires
        ps.len() > 0,
    ensures
        join_amp(ps.push(p)) == join_amp(ps) + "&"@ + p,
{
    assert(ps.push(p).drop_last() =~= ps);
}

/// Which error building a REST request gives: a missing binding (or base URL) where no base
/// URL template is found, an unsupported base URL where the interpolated one is not
/// `http://`, and a build error where a template fails.
pub open spec fn rest_error_is(e: EngineError, rest: RestEffect, payload: JsonV, env: RuntimeEnvironment) -> bool {
    match base_template(rest.base_url, rest.service, env) {
        None => if rest.service is Some {
            e is MissingRestServiceBinding
        } else {
            e is MissingRestBaseUrl
        },
        Some(t) => match interpolate(t, t, payload, env) {
            Err(_) => e is RestRequestBuild,
            Ok(b) => if http_base_url(b) is Err {
                e is UnsupportedRestBaseUrl
            } else {
                e is RestRequestBuild
            },
        },
    }
}

/// Which error building a GraphQL request gives, in the same way as for REST.
pub open spec fn graphql_error_is(e: EngineError, g: GraphqlEffect, payload: JsonV, env: RuntimeEnvironment) -> bool {
    match base_template(g.base_url, g.service, env) {
        None => if g.service is Some {
            e is MissingGraphqlServiceBinding
        } else {
            e is MissingGraphqlBaseUrl
        },
        Some(t) => match interpolate(t, t, payload, env) {
            Err(_) => e is GraphqlRequestBuild,
            Ok(b) => if graphql_base_url(b) is Err {
                e is UnsupportedGraphqlBaseUrl
            } else {
                e is GraphqlRequestBuild
            },
        },
    }
}

/// Builds the HTTP request of a REST effect for an event.
#[verifier::loop_isolation(false)]
#[verifier::rlimit(40)]
pub fn build_rest_request(
    rest: &RestEffect,
    payload: &JsonValue,
    environment: &RuntimeEnvironment,
) -> (r: Result<HttpRequest, EngineError>)
    ensures
        match r {
            Ok(req) => rest_request(*rest, payload@, *environment) == Ok::<RequestV, Seq<char>>(
                request_view(req),
            ),
            Err(e) => rest_request(*rest, payload@, *environment) == Err::<RequestV, Seq<char>>(
                engine_error_text(e),
) && rest_error_is(e, *rest, payload@, *environment),
        },
{
    let operation = match &rest.operation {
        Some(o) => o.clone(),
        None => {
            let mut o: Vec<char> = Vec::new();
            push_str(&mut o, rest.method.as_str());
            push_str(&mut o, " ");
            push_string(&mut o, &rest.path);
            string_of(&o)
        },
    };
    assert(operation@ == rest_operation(*rest));
    let values = environment;
    let template = match base_template_exec(&rest.base_url, &rest.service, environment) {
        Some(t) => t,
        None => {
            return match &rest.service {
                Some(s) => Err(EngineError::MissingRestServiceBinding { service: s.clone() }),
                None => Err(EngineError::MissingRestBaseUrl),
            };
        },
    };
    let base_url = interpolate_string(template.as_str(), payload, values, operation.as_str())?;
    let base = parse_http_base_url(base_url.as_str())?;
    let path = interpolate_string(rest.path.as_str(), payload, values, operation.as_str())?;
    let query = rest.query.entries();
    let mut pairs: Vec<Vec<char>> = Vec::new();
    let mut i: usize = 0;
    assert(query@.take(0) =~= Seq::<(String, String)>::empty());
    assert(pairs@.map_values(|p: Vec<char>| p@) =~= Seq::<Seq<char>>::empty());
    while i < query.len()
        invariant
            i <= query@.len(),
            query@ == rest.query.items(),
            query_pairs(query@.take(i as int), payload@, *values) == Ok::<Seq<Seq<char>>, Seq<char>>(
                pairs@.map_values(|p: Vec<char>| p@),
            ),
        decreases query.len() - i,
    {
        assert(query@.take(i + 1).drop_last() =~= query@.take(i as int));
        let v = match interpolate_string(query[i].1.as_str(), payload, values, operation.as_str()) {
            Ok(v) => v,
            Err(e) => {
                proof {
                    lemma_query_err_prefix(query@, i + 1, payload@, *values);
                }
                return Err(e);
            },
        };
        let mut pair = percent_encode(query[i].0.as_str());
        push_str(&mut pair, "=");
        let enc = percent_encode(v.as_str());
        push_seq(&mut pair, &enc);
        let ghost before = pairs@;
        pairs.push(pair);
        assert(pairs@.map_values(|p: Vec<char>| p@) =~= before.map_values(|p: Vec<char>| p@).push(
            pair@,
        ));
        i = i + 1;
    }
    assert(query@.take(i as int) =~= query@);
    let ghost pv = pairs@.map_values(|p: Vec<char>| p@);
    let mut pq: Vec<char> = chars_of(path.as_str());
    if pairs.len() > 0 {
        push_str(&mut pq, "?");
        let mut j: usize = 0;
        while j < pairs.len()
            invariant
                j <= pairs@.len(),
                pv == pairs@.map_values(|p: Vec<char>| p@),
                pq@ == path@ + "?"@ + join_amp(pv.take(j as int)),
            decreases pairs.len() - j,
        {
            let ghost pre = pq@;
            if j > 0 {
                push_str(&mut pq, "&");
            }
            push_seq(&mut pq, &pairs[j]);
            proof {
                if j > 0 {
                    lemma_join_amp_push(pv.take(j as int), pv[j as int]);
                    assert(pv.take(j + 1) =~= pv.take(j as int).push(pv[j as int]));
                } else {
                    assert(pv.take(1) =~= seq![pv[0]]);
                    assert(pv.take(0) =~= Seq::<Seq<char>>::empty());
                }
            }
            j = j + 1;
        }
        assert(pv.take(j as int) =~= pv);
    }
    let headers_in = rest.headers.entries();
    let mut headers: Vec<(String, String)> = Vec::new();
    let mut k: usize = 0;
    assert(headers_in@.take(0) =~= Seq::<(String, String)>::empty());
    assert(headers@.map_values(|h: (String, String)| (h.0@, h.1@)) =~= Seq::<
        (Seq<char>, Seq<char>),
    >::empty());
    while k < headers_in.len()
        invariant
            k <= headers_in@.len(),
            headers_in@ == rest.headers.items(),
            header_values(headers_in@.take(k as int), payload@, *values) == Ok::<
                Seq<(Seq<char>, Seq<char>)>,
                Seq<char>,
            >(headers@.map_values(|h: (String, String)| (h.0@, h.1@))),
        decreases headers_in.len() - k,
    {
        assert(headers_in@.take(k + 1).drop_last() =~= headers_in@.take(k as int));
        let v = match interpolate_string(headers_in[k].1.as_str(), payload, values, operation.as_str()) {
            Ok(v) => v,
            Err(e) => {
                proof {
                    lemma_header_err_prefix(headers_in@, k + 1, payload@, *values);
                }
                return Err(e);
            },
        };
        let key = headers_in[k].0.clone();
        let ghost before = headers@;
        headers.push((key, v));
        assert(headers@.map_values(|h: (String, String)| (h.0@, h.1@)) =~= before.map_values(
            |h: (String, String)| (h.0@, h.1@),
        ).push((headers_in@[k as int].0@, v@)));
        k = k + 1;
    }
    assert(headers_in@.take(k as int) =~= headers_in@);
    let body = match &rest.json_body {
        None => None,
        Some(b) => {
            let bv = interpolate_json(b, payload, values, operation.as_str())?;
            Some(bv.to_json_text())
        },
    };
    let mut url: Vec<char> = chars_of(base.origin.as_str());
    push_seq(&mut url, &pq);
    let url = redact_secrets(&url, &environment.secret_refs);
    Ok(
        HttpRequest {
            operation,
            method: rest.method.as_str().to_owned(),
            host: base.host,
            port: base.port,
            path_and_query: string_of(&pq),
            headers,
            body,
            content_type: String::from_str("application/json"),
            url: string_of(&url),
        },
    )
}

proof fn lemma_query_err_prefix(s: Seq<(String, String)>, k: int, payload: JsonV, values: RuntimeEnvironment)
    requires
        0 <= k <= s.len(),
        query_pairs(s.take(k), payload, values) is Err,
    ensures
        query_pairs(s, payload, values) == query_pairs(s.take(k), payload, values),
    decreases s.len() - k,
{
    if k < s.len() {
        assert(s.take(k + 1).drop_last() =~= s.take(k));
        lemma_query_err_prefix(s, k + 1, payload, values);
    } else {
        assert(s.take(k) =~= s);
    }
}

proof fn lemma_header_err_prefix(s: Seq<(String, String)>, k: int, payload: JsonV, values: RuntimeEnvironment)
    requires
        0 <= k <= s.len(),
        header_values(s.take(k), payload, values) is Err,
    ensures
        header_values(s, payload, values) == header_values(s.take(k), payload, values),
    decreases s.len() - k,
{
    if k < s.len() {
        assert(s.take(k + 1).drop_last() =~= s.take(k));
        lemma_header_err_prefix(s, k + 1, payload, values);
    } else {
        assert(s.take(k) =~= s);
    }
}

/// What a REST effect's trace names when its request could not be built.
pub open spec fn rest_fallback(rest: RestEffect, payload: JsonV, env: RuntimeEnvironment) -> (Seq<char>, Seq<char>) {
    let base = match base_template(rest.base_url, rest.service, env) {
        Some(b) => b,
        None => "<unbound>"@,
    };
    let path = match interpolate(rest.path@, rest.path@, payload, env) {
        Ok(p) => p,
        Err(_) => rest.path@,
    };
    (method_text(rest.method), redact(trim_end_char(base, '/') + path, env.secret_refs.items()))
}

/// The operation that a REST effect's trace names when its request could not be built.
pub fn fallback_rest_operation(
    rest: &RestEffect,
    payload: &JsonValue,
    environment: &RuntimeEnvironment,
) -> (r: RestOperationObservation)
    ensures
        r.service == rest.service,
        (r.method@, r.url@) == rest_fallback(*rest, payload@, *environment),
{
    let base = match base_template_exec(&rest.base_url, &rest.service, environment) {
        Some(b) => b,
        None => String::from_str("<unbound>"),
    };
    let operation = match &rest.operation {
        Some(o) => o.clone(),
        None => String::from_str("rest"),
    };
    let path = match interpolate_string(rest.path.as_str(), payload, environment, operation.as_str()) {
        Ok(p) => p,
        Err(_) => rest.path.clone(),
    };
    let b = chars_of(base.as_str());
    let mut url = trim_end_char_seq(&b, '/');
    push_string(&mut url, &path);
    let url = redact_secrets(&url, &environment.secret_refs);
    let service = match &rest.service {
        Some(s) => Some(s.clone()),
        None => None,
    };
    RestOperationObservation { service, method: rest.method.as_str().to_owned(), url: string_of(&url) }
}

pub open spec fn graphql_operation(g: GraphqlEffect) -> Seq<char> {
    match g.operation_name {
        Some(o) => o@,
        None => "anonymous"@,
    }
}

pub open spec fn graphql_build_text(operation: Seq<char>, message: Seq<char>) -> Seq<char> {
    "failed to build GraphQL request for "@ + operation + ": "@ + message
}

pub open spec fn missing_graphql_text(service: Option<String>) -> Seq<char> {
    match service {
        Some(s) => "missing GraphQL service binding for '"@ + s@ + "'"@,
        None => "GraphQL effect requires service or base_url"@,
    }
}

/// The JSON body of a GraphQL request: operation name (where given), query and variables.
pub open spec fn graphql_body(name: Option<String>, query: Seq<char>, variables: JsonV) -> JsonV {
    match name {
        Some(n) => JsonV::Object(seq![
            ("operationName"@, JsonV::Str(n@)),
            ("query"@, JsonV::Str(query)),
            ("variables"@, variables),
        ]),
        None => JsonV::Object(seq![("query"@, JsonV::Str(query)), ("variables"@, variables)]),
    }
}

/// The request that a GraphQL effect makes for an event, or the text of the error.
pub open spec fn graphql_request(g: GraphqlEffect, payload: JsonV, env: RuntimeEnvironment) -> Result<
    RequestV,
    Seq<char>,
> {
    let op = graphql_operation(g);
    let values = env;
    match base_template(g.base_url, g.service, env) {
        None => Err(missing_graphql_text(g.service)),
        Some(t) => match interpolate(t, t, payload, values) {
            Err(m) => Err(graphql_build_text(op, rest_build_text(op, m))),
            Ok(base_url) => match graphql_base_url(base_url) {
                Err(m) => Err(m),
                Ok((host, port, path, url)) => match interpolate(g.query@, g.query@, payload, values) {
                    Err(m) => Err(graphql_build_text(op, rest_build_text(op, m))),
                    Ok(query) => match interpolate_value(g.variables@, payload, values) {
                        Err(m) => Err(graphql_build_text(op, rest_build_text(op, m))),
                        Ok(vars) => Ok(
                            RequestV {
                                operation: op,
                                method: "POST"@,
                                host,
                                port,
                                path_and_query: path,
                                headers: Seq::empty(),
                                body: Some(json_text(graphql_body(g.operation_name, query, vars))),
                                content_type: "application/json"@,
                                url: redact(url, env.secret_refs.items()),
                            },
                        ),
                    },
                },
            },
        },
    }
}

/// The error of a GraphQL request that could not be built, from the error that stopped it.
pub fn graphql_build_error(operation: &str, error: EngineError) -> (r: EngineError)
    ensures
        engine_error_text(r) == graphql_build_text(operation@, engine_error_text(error)),
        r is GraphqlRequestBuild,
{
    EngineError::GraphqlRequestBuild { operation: operation.to_owned(), message: error.message() }
}

/// Builds the HTTP request of a GraphQL effect for an event.
pub fn build_graphql_request(
    graphql: &GraphqlEffect,
    payload: &JsonValue,
    environment: &RuntimeEnvironment,
) -> (r: Result<HttpRequest, EngineError>)
    ensures
        match r {
            Ok(req) => graphql_request(*graphql, payload@, *environment) == Ok::<RequestV, Seq<char>>(
                request_view(req),
            ),
            Err(e) => graphql_request(*graphql, payload@, *environment) == Err::<RequestV, Seq<char>>(
                engine_error_text(e),
) && graphql_error_is(e, *graphql, payload@, *environment),
        },
{
    let operation = match &graphql.operation_name {
        Some(o) => o.clone(),
        None => String::from_str("anonymous"),
    };
    let values = environment;
    let template = match base_template_exec(&graphql.base_url, &graphql.service, environment) {
        Some(t) => t,
        None => {
            return match &graphql.service {
                Some(s) => Err(EngineError::MissingGraphqlServiceBinding { service: s.clone() }),
                None => Err(EngineError::MissingGraphqlBaseUrl),
            };
        },
    };
    let base_url = match interpolate_string(template.as_str(), payload, values, operation.as_str()) {
        Ok(b) => b,
        Err(e) => {
            return Err(graphql_build_error(operation.as_str(), e));
        },
    };
    let base = parse_graphql_base_url(base_url.as_str())?;
    let query = match interpolate_string(graphql.query.as_str(), payload, values, operation.as_str()) {
        Ok(q) => q,
        Err(e) => {
            return Err(graphql_build_error(operation.as_str(), e));
        },
    };
    let variables = match interpolate_json(&graphql.variables, payload, values, operation.as_str()) {
        Ok(v) => v,
        Err(e) => {
            return Err(graphql_build_error(operation.as_str(), e));
        },
    };
    let ghost vars = variables@;
    let mut members: Vec<(String, JsonValue)> = Vec::new();
    match &graphql.operation_name {
        Some(name) => {
            members.push((String::from_str("operationName"), JsonValue::String(name.clone())));
        },
        None => {},
    }
    members.push((String::from_str("query"), JsonValue::String(query)));
    members.push((String::from_str("variables"), variables));
    let body = JsonValue::Object(members);
    proof {
        crate::json::lemma_object_view(members);
        assert(crate::json::members_view(members@) =~= graphql_body(graphql.operation_name, query@, vars)->Object_0);
    }
    let req = HttpRequest {
        operation,
        method: String::from_str("POST"),
        host: base.host,
        port: base.port,
        path_and_query: base.path,
        headers: Vec::new(),
        body: Some(body.to_json_text()),
        content_type: String::from_str("application/json"),
        url: string_of(&redact_secrets(&chars_of(base.url.as_str()), &environment.secret_refs)),
    };
    assert(request_view(req).headers =~= Seq::<(Seq<char>, Seq<char>)>::empty());
    assert(body@ == graphql_body(graphql.operation_name, query@, vars));
    Ok(req)
}

/// The URL that a GraphQL effect's trace names when its request could not be built.
pub open spec fn graphql_fallback_url(g: GraphqlEffect, payload: JsonV, env: RuntimeEnvironment) -> Seq<char> {
    let base = match base_template(g.base_url, g.service, env) {
        Some(b) => b,
        None => "<unbound>"@,
    };
    redact(
        match interpolate(base, base, payload, env) {
            Ok(u) => u,
            Err(_) => base,
        },
        env.secret_refs.items(),
    )
}

/// The operation that a GraphQL effect's trace names when its request could not be built.
pub fn fallback_graphql_operation(
    graphql: &GraphqlEffect,
    payload: &JsonValue,
    environment: &RuntimeEnvironment,
) -> (r: GraphqlOperationObservation)
    ensures
        r.service == graphql.service,
        r.operation_name == graphql.operation_name,
        r.url@ == graphql_fallback_url(*graphql, payload@, *environment),
{
    let base = match base_template_exec(&graphql.base_url, &graphql.service, environment) {
        Some(b) => b,
        None => String::from_str("<unbound>"),
    };
    let operation = match &graphql.operation_name {
        Some(o) => o.clone(),
        None => String::from_str("graphql"),
    };
    let url = match interpolate_string(base.as_str(), payload, environment, operation.as_str()) {
        Ok(u) => u,
        Err(_) => base,
    };
    let url = string_of(&redact_secrets(&chars_of(url.as_str()), &environment.secret_refs));
    let service = match &graphql.service {
        Some(s) => Some(s.clone()),
        None => None,
    };
    let operation_name = match &graphql.operation_name {
        Some(s) => Some(s.clone()),
        None => None,
    };
    GraphqlOperationObservation { service, operation_name, url }
}


/// A response body as plain values.
pub enum BodyV {
    Json(JsonV),
    Text(Seq<char>),
    Empty,
}

pub open spec fn body_view(b: RestBody) -> BodyV {
    match b {
        RestBody::Json { value } => BodyV::Json(value@),
        RestBody::Text { value } => BodyV::Text(value@),
        RestBody::Empty => BodyV::Empty,
    }
}

/// A string map holds exactly the entries of a map of texts.
pub open spec fn models_map(m: StrMap<String>, mm: Map<Seq<char>, Seq<char>>) -> bool {
    &&& m.wf()
    &&& forall|k: Seq<char>| #[trigger] m.has(k) <==> mm.dom().contains(k)
    &&& forall|k: Seq<char>| m.has(k) ==> (#[trigger] m.get_spec(k))->0@ == mm[k]
}

/// The headers of the header lines: lowercased trimmed names, trimmed values; a later
/// line with the same name wins.
pub open spec fn header_map(ls: Seq<Seq<char>>) -> Map<Seq<char>, Seq<char>>
    decreases ls.len(),
{
    if ls.len() == 0 {
        Map::empty()
    } else {
        let m = header_map(ls.drop_last());
        match split_once_char(ls.last(), ':') {
            Some((k, v)) => m.insert(to_ascii_lowercase(trim(k)), trim(v)),
            None => m,
        }
    }
}

pub open spec fn crlf2() -> Seq<char> {
    seq!['\r', '\n', '\r', '\n']
}

pub open spec fn rest_failed_text(operation: Seq<char>, message: Seq<char>) -> Seq<char> {
    "failed to execute REST operation "@ + operation + ": "@ + message
}

/// The body of a response: empty, JSON where the content type says so and it parses,
/// text otherwise.
pub open spec fn body_of(headers: Map<Seq<char>, Seq<char>>, body: Seq<char>) -> BodyV {
    if body.len() == 0 {
        BodyV::Empty
    } else if headers.dom().contains("content-type"@) && find(
        headers["content-type"@],
        "application/json"@,
    ) is Some {
        match json_parse(body) {
            Some(v) => BodyV::Json(v),
            None => BodyV::Text(body),
        }
    } else {
        BodyV::Text(body)
    }
}

/// What the text of an HTTP response says: status, headers and body; or why it cannot be read.
pub open spec fn http_response(operation: Seq<char>, text: Seq<char>) -> Result<
    (u16, Map<Seq<char>, Seq<char>>, BodyV),
    Seq<char>,
> {
    match find(text, crlf2()) {
        None => Err(rest_failed_text(operation, "malformed HTTP response"@)),
        Some(i) => {
            let head = text.subrange(0, i);
            let body = text.subrange(i + 4, text.len() as int);
            let ls = lines(head);
            if ls.len() == 0 {
                Err(rest_failed_text(operation, "missing HTTP status line"@))
            } else if ws_tokens(ls[0]).len() < 2 {
                Err(rest_failed_text(operation, "missing HTTP status code"@))
            } else {
                match parse_u16(ws_tokens(ls[0])[1]) {
                    Err(m) => Err(rest_failed_text(operation, m)),
                    Ok(status) => {
                        let headers = header_map(ls.drop_first());
                        Ok((status, headers, body_of(headers, body)))
                    },
                }
            }
        },
    }
}

/// The text of the bytes of a response, invalid UTF-8 replaced (`String::from_utf8_lossy`).
pub uninterp spec fn utf8_lossy(bytes: Seq<u8>) -> Seq<char>;

/// `String::from_utf8_lossy`: the text of the bytes, each invalid sequence replaced by U+FFFD.
#[verifier::external_body]
pub(crate) fn text_of_bytes(bytes: &[u8]) -> (r: String)
    ensures
        r@ == utf8_lossy(bytes@),
{
    String::from_utf8_lossy(bytes).into_owned()
}

/// Reads the status line, headers and body of a raw HTTP response.
#[verifier::spinoff_prover]
pub fn parse_http_response(operation: &str, raw_response: &[u8]) -> (r: Result<RestResponseObservation, EngineError>)
    ensures
        match r {
            Ok(resp) => http_response(operation@, utf8_lossy(raw_response@)) matches Ok(v)
                && v.0 == resp.status && models_map(resp.headers, v.1) && body_view(resp.body) == v.2,
            Err(e) => http_response(operation@, utf8_lossy(raw_response@)) == Err::<
                (u16, Map<Seq<char>, Seq<char>>, BodyV),
                Seq<char>,
            >(engine_error_text(e)) && e is RestRequestFailed,
        },
{
    let text = text_of_bytes(raw_response);
    let t = chars_of(text.as_str());
    let pat = vec!['\r', '\n', '\r', '\n'];
    assert(pat@ == crlf2());
    proof {
        crate::json::lemma_find_from_bounds(t@, crlf2(), 0);
    }
    let i = match find_from_exec(&t, &pat, 0) {
        Some(i) => i,
        None => {
            return Err(EngineError::RestRequestFailed {
                operation: operation.to_owned(),
                message: String::from_str("malformed HTTP response"),
            });
        },
    };
    let n = t.len();
    assert(crlf2().len() == 4 && i + 4 <= n);
    let head = slice_of(&t, 0, i);
    let body = slice_of(&t, i + 4, n);
    let ls = lines_exec(&head);
    if ls.len() == 0 {
        return Err(EngineError::RestRequestFailed {
            operation: operation.to_owned(),
            message: String::from_str("missing HTTP status line"),
        });
    }
    let code = match second_token(&ls[0]) {
        Some(c) => c,
        None => {
            return Err(EngineError::RestRequestFailed {
                operation: operation.to_owned(),
                message: String::from_str("missing HTTP status code"),
            });
        },
    };
    let status = match parse_u16_exec(&code) {
        Ok(s) => s,
        Err(m) => {
            return Err(EngineError::RestRequestFailed { operation: operation.to_owned(), message: m });
        },
    };
    let ghost lsv = lines(head@);
    let mut headers: StrMap<String> = StrMap::new();
    let mut j: usize = 1;
    assert(lsv.drop_first().take(0) =~= Seq::<Seq<char>>::empty());
    while j < ls.len()
        invariant
            1 <= j <= ls@.len(),
            ls@.len() == lsv.len(),
            forall|x: int| 0 <= x < ls@.len() ==> #[trigger] ls@[x]@ == lsv[x],
            models_map(headers, header_map(lsv.drop_first().take(j - 1))),
        decreases ls.len() - j,
    {
        let ghost before = header_map(lsv.drop_first().take(j - 1));
        assert(lsv.drop_first().take(j as int).drop_last() =~= lsv.drop_first().take(j - 1));
        assert(lsv.drop_first().take(j as int).last() == lsv[j as int]);
        match split_once_exec(&ls[j], ':') {
            Some((k, v)) => {
                let key = to_ascii_lowercase_exec(&trim_seq(&k));
                let value = trim_seq(&v);
                let ghost hb = headers;
                headers.insert(string_of(&key), string_of(&value));
                proof {
                    let after = before.insert(key@, value@);
                    assert(header_map(lsv.drop_first().take(j as int)) == after);
                    assert forall|q: Seq<char>| #[trigger] headers.has(q) <==> after.dom().contains(q) by {
                        if q != key@ {
                            assert(headers.get_spec(q) == hb.get_spec(q));
                            assert(hb.has(q) <==> before.dom().contains(q));
                        } else {
                            assert(headers.get_spec(q) is Some);
                        }
                    }
                    assert forall|q: Seq<char>| headers.has(q) implies (#[trigger] headers.get_spec(q))->0@ == after[q] by {
                        if q != key@ {
                            assert(headers.get_spec(q) == hb.get_spec(q));
                        }
                    }
                }
            },
            None => {},
        }
        j = j + 1;
    }
    assert(lsv.drop_first().take(j - 1) =~= lsv.drop_first());
    let ghost hm = header_map(lsv.drop_first());
    let json_marker = chars_of("application/json");
    let body_value = if body.len() == 0 {
        RestBody::Empty
    } else {
        let is_json = match headers.get("content-type") {
            Some(ct) => {
                let cv = chars_of(ct.as_str());
                contains_seq(&cv, &json_marker)
            },
            None => false,
        };
        let body_text = string_of(&body);
        if is_json {
            match JsonValue::parse(body_text.as_str()) {
                Some(value) => RestBody::Json { value },
                None => RestBody::Text { value: body_text },
            }
        } else {
            RestBody::Text { value: body_text }
        }
    };
    Ok(RestResponseObservation { status, headers, body: body_value })
}

/// The request as the bytes of an HTTP/1.1 message: request line, host, the fixed
/// headers, the effect's headers, content type where there is a body, and its length.
pub open spec fn wire_text(r: RequestV, body_len: nat) -> Seq<char> {
    r.method + " "@ + r.path_and_query + " HTTP/1.1\r\nHost: "@ + r.host
        + "\r\nConnection: close\r\nAccept: application/json\r\n"@ + header_lines(r.headers)
        + (if r.body is Some {
        "Content-Type: "@ + r.content_type + "\r\n"@
    } else {
        Seq::empty()
    }) + "Content-Length: "@ + decimal(body_len) + "\r\n\r\n"@ + match r.body {
        Some(b) => b,
        None => Seq::empty(),
    }
}

pub open spec fn header_lines(hs: Seq<(Seq<char>, Seq<char>)>) -> Seq<char>
    decreases hs.len(),
{
    if hs.len() == 0 {
        Seq::empty()
    } else {
        header_lines(hs.drop_last()) + hs.last().0 + ": "@ + hs.last().1 + "\r\n"@
    }
}

impl HttpRequest {
    /// The text of the HTTP/1.1 message that carries this request; the content length
    /// counts the UTF-8 bytes of the body.
    pub fn wire_text(&self) -> (r: String)
        ensures
            r@ == wire_text(
                request_view(*self),
                match self.body {
                    Some(b) => (vstd::utf8::encode_utf8(b@).len() as usize) as nat,
                    None => 0,
                },
            ),
    {
        let ghost rv = request_view(*self);
        let mut out: Vec<char> = Vec::new();
        push_string(&mut out, &self.method);
        push_str(&mut out, " ");
        push_string(&mut out, &self.path_and_query);
        push_str(&mut out, " HTTP/1.1\r\nHost: ");
        push_string(&mut out, &self.host);
        push_str(&mut out, "\r\nConnection: close\r\nAccept: application/json\r\n");
        let ghost head = out@;
        let mut i: usize = 0;
        assert(rv.headers.take(0) =~= Seq::<(Seq<char>, Seq<char>)>::empty());
        assert(out@ =~= head + header_lines(rv.headers.take(0)));
        while i < self.headers.len()
            invariant
                i <= self.headers@.len(),
                rv == request_view(*self),
                out@ == head + header_lines(rv.headers.take(i as int)),
            decreases self.headers.len() - i,
        {
            let ghost before = out@;
            push_string(&mut out, &self.headers[i].0);
            push_str(&mut out, ": ");
            push_string(&mut out, &self.headers[i].1);
            push_str(&mut out, "\r\n");
            proof {
                let t = rv.headers.take(i + 1);
                assert(t.drop_last() =~= rv.headers.take(i as int));
                assert(t.last() == (self.headers@[i as int].0@, self.headers@[i as int].1@));
                assert(out@ =~= head + header_lines(t));
            }
            i = i + 1;
        }
        assert(rv.headers.take(i as int) =~= rv.headers);
        let ghost mid = out@;
        match &self.body {
            Some(b) => {
                push_str(&mut out, "Content-Type: ");
                push_string(&mut out, &self.content_type);
                push_str(&mut out, "\r\n");
                push_str(&mut out, "Content-Length: ");
                push_decimal(&mut out, b.as_str().len() as u64);
                push_str(&mut out, "\r\n\r\n");
                push_string(&mut out, b);
            },
            None => {
                push_str(&mut out, "Content-Length: ");
                push_decimal(&mut out, 0);
                push_str(&mut out, "\r\n\r\n");
            },
        }
        proof {
            let len: nat = match &self.body {
                Some(b) => (vstd::utf8::encode_utf8(b@).len() as usize) as nat,
                None => 0,
            };
            assert(out@ =~= wire_text(rv, len));
        }
        string_of(&out)
    }
}

} // verus!
