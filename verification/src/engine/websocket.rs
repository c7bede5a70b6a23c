use vstd::prelude::*;

use super::error::EngineError;
use super::http::{base_template, base_template_exec, host_port, host_port_exec, request_view, HttpRequest, RequestV};
use super::redact::{redact, redact_secrets};
use super::runner::HttpReply;
use super::template::{interpolate, interpolate_json, interpolate_string, interpolate_value};
use crate::domain::effect::{WebsocketEffect, WebsocketSend};
use crate::domain::environment::RuntimeEnvironment;
use crate::json::{json_text, JsonV, JsonValue};
use crate::text::{
    chars_of, push_seq, push_str, push_string, split_once_char, split_once_exec, string_of, strip_prefix,
    strip_prefix_seq,
};

verus! {

/// The operation name that marks a WebSocket exchange among the requests a run waits on.
pub open spec fn websocket_operation() -> Seq<char> {
    "websocket"@
}

/// The text of the error when a WebSocket effect names no URL that the environment binds.
pub open spec fn missing_ws_text(service: Option<String>) -> Seq<char> {
    match service {
        Some(s) => "missing WebSocket service binding for '"@ + s@ + "'"@,
        None => "WebSocket effect requires service or url"@,
    }
}

/// The text of the error when the message or URL of a WebSocket effect could not be built.
pub open spec fn ws_build_text(message: Seq<char>) -> Seq<char> {
    "failed to build WebSocket message: "@ + message
}

/// The text of the error for a URL that is not `ws://`.
pub open spec fn unsupported_ws_text(url: Seq<char>) -> Seq<char> {
    "unsupported WebSocket URL '"@ + url + "': only ws:// URLs are supported"@
}

/// The parts of a `ws://host[:port][/path]` URL (host, port, path), or the text of the error.
pub open spec fn ws_url(url: Seq<char>) -> Result<(Seq<char>, u16, Seq<char>), Seq<char>> {
    match strip_prefix(url, "ws://"@) {
        None => Err(unsupported_ws_text(url)),
        Some(rest) => {
            let (authority, path) = match split_once_char(rest, '/') {
                Some((a, p)) => (a, "/"@ + p),
                None => (rest, "/"@),
            };
            match host_port(authority) {
                Err(m) => Err(unsupported_ws_text(url + " ("@ + m + ")"@)),
                Ok((host, port)) => Ok((host, port, path)),
            }
        },
    }
}

/// What a WebSocket effect sends for an event: the interpolated JSON value (for a JSON
/// message) and the text of the frame; or the text of the error.
pub open spec fn sent_of(send: WebsocketSend, payload: JsonV, env: RuntimeEnvironment) -> Result<
    (Option<JsonV>, Seq<char>),
    Seq<char>,
> {
    match send {
        WebsocketSend::Json(v) => match interpolate_value(v@, payload, env) {
            Ok(mv) => Ok((Some(mv), json_text(mv))),
            Err(m) => Err(ws_build_text(m)),
        },
        WebsocketSend::Text(t) => match interpolate(t@, t@, payload, env) {
            Ok(s) => Ok((None, s)),
            Err(m) => Err(ws_build_text(m)),
        },
    }
}

/// The exchange that a WebSocket effect asks for: the opening handshake (`GET` with
/// `Upgrade: websocket`) to the host, port and path of its URL, with the text frame to send
/// as the body; or the text of the error.
pub open spec fn websocket_request(ws: WebsocketEffect, payload: JsonV, env: RuntimeEnvironment) -> Result<
    RequestV,
    Seq<char>,
> {
    match base_template(ws.url, ws.service, env) {
        None => Err(missing_ws_text(ws.service)),
        Some(t) => match interpolate(t, t, payload, env) {
            Err(m) => Err(ws_build_text(m)),
            Ok(url) => match ws_url(url) {
                Err(m) => Err(m),
                Ok((host, port, path)) => match sent_of(ws.send, payload, env) {
                    Err(m) => Err(m),
                    Ok((_, text)) => Ok(
                        RequestV {
                            operation: websocket_operation(),
                            method: "GET"@,
                            host,
                            port,
                            path_and_query: path,
                            headers: seq![("Upgrade"@, "websocket"@), ("Connection"@, "Upgrade"@)],
                            body: Some(text),
                            content_type: "text/plain"@,
                            url: redact(url, env.secret_refs.items()),
                        },
                    ),
                },
            },
        },
    }
}

/// The text of the message a WebSocket exchange received, or the text of its failure.
pub open spec fn ws_reply(reply: HttpReply) -> Result<Seq<char>, Seq<char>> {
    match reply {
        HttpReply::Received(bytes) => Ok(super::http::utf8_lossy(bytes@)),
        HttpReply::Failed(m) => Err("WebSocket exchange failed: "@ + m@),
    }
}

fn unsupported_ws_message(url: &str, extra: Option<String>) -> (m: String)
    ensures
        m@ == unsupported_ws_text(
            match extra {
                Some(e) => url@ + " ("@ + e@ + ")"@,
                None => url@,
            },
        ),
{
    let mut m: Vec<char> = Vec::new();
    push_str(&mut m, "unsupported WebSocket URL '");
    push_str(&mut m, url);
    match &extra {
        Some(e) => {
            push_str(&mut m, " (");
            push_string(&mut m, e);
            push_str(&mut m, ")");
        },
        None => {},
    }
    push_str(&mut m, "': only ws:// URLs are supported");
    proof {
        reveal_strlit("unsupported WebSocket URL '");
        reveal_strlit(" (");
        reveal_strlit(")");
        reveal_strlit("': only ws:// URLs are supported");
        match extra {
            Some(e) => assert(m@ =~= unsupported_ws_text(url@ + " ("@ + e@ + ")"@)),
            None => assert(m@ =~= unsupported_ws_text(url@)),
        }
    }
    string_of(&m)
}

fn ws_url_exec(url: &str) -> (r: Result<(Vec<char>, u16, Vec<char>), String>)
    ensures
        match r {
            Ok(p) => ws_url(url@) == Ok::<(Seq<char>, u16, Seq<char>), Seq<char>>((p.0@, p.1, p.2@)),
            Err(m) => ws_url(url@) == Err::<(Seq<char>, u16, Seq<char>), Seq<char>>(m@),
        },
{
    let u = chars_of(url);
    let scheme = chars_of("ws://");
    proof {
        reveal_strlit("ws://");
    }
    let rest = match strip_prefix_seq(&u, &scheme) {
        Some(rest) => rest,
        None => {
            return Err(unsupported_ws_message(url, None));
        },
    };
    let (authority, path) = match split_once_exec(&rest, '/') {
        Some((a, p)) => {
            let mut path = vec!['/'];
            push_seq(&mut path, &p);
            proof {
                reveal_strlit("/");
                assert(path@ =~= "/"@ + p@);
            }
            (a, path)
        },
        None => {
            let path = vec!['/'];
            proof {
                reveal_strlit("/");
                assert(path@ =~= "/"@);
            }
            (rest, path)
        },
    };
    match host_port_exec(&authority) {
        Err(m) => Err(unsupported_ws_message(url, Some(m))),
        Ok((host, port)) => Ok((host, port, path)),
    }
}

fn ws_build_message(message: &String) -> (r: String)
    ensures
        r@ == ws_build_text(message@),
{
    let mut m: Vec<char> = Vec::new();
    push_str(&mut m, "failed to build WebSocket message: ");
    push_string(&mut m, message);
    proof {
        reveal_strlit("failed to build WebSocket message: ");
    }
    string_of(&m)
}

/// What a WebSocket effect sends for an event, or the text of the error.
pub fn build_sent(send: &WebsocketSend, payload: &JsonValue, environment: &RuntimeEnvironment) -> (r: Result<
    (Option<JsonValue>, String),
    String,
>)
    ensures
        match r {
            Ok(p) => sent_of(*send, payload@, *environment) == Ok::<(Option<JsonV>, Seq<char>), Seq<char>>(
                (
                    match p.0 {
                        Some(v) => Some(v@),
                        None => None,
                    },
                    p.1@,
                ),
            ),
            Err(m) => sent_of(*send, payload@, *environment) == Err::<(Option<JsonV>, Seq<char>), Seq<char>>(
                m@,
            ),
        },
{
    match send {
        WebsocketSend::Json(v) => match interpolate_json(v, payload, environment, "websocket") {
            Ok(mv) => {
                let text = mv.to_json_text();
                Ok((Some(mv), text))
            },
            Err(e) => match e {
                EngineError::RestRequestBuild { message, .. } => Err(ws_build_message(&message)),
                _ => Err(String::new()),
            },
        },
        WebsocketSend::Text(t) => match interpolate_string(t.as_str(), payload, environment, "websocket") {
            Ok(s) => Ok((None, s)),
            Err(e) => match e {
                EngineError::RestRequestBuild { message, .. } => Err(ws_build_message(&message)),
                _ => Err(String::new()),
            },
        },
    }
}

fn missing_ws_message(service: &Option<String>) -> (r: String)
    ensures
        r@ == missing_ws_text(*service),
{
    match service {
        Some(s) => {
            let mut m: Vec<char> = Vec::new();
            push_str(&mut m, "missing WebSocket service binding for '");
            push_string(&mut m, s);
            push_str(&mut m, "'");
            proof {
                reveal_strlit("missing WebSocket service binding for '");
                reveal_strlit("'");
            }
            string_of(&m)
        },
        None => {
            let m = String::from_str("WebSocket effect requires service or url");
            proof {
                reveal_strlit("WebSocket effect requires service or url");
            }
            m
        },
    }
}

/// Builds the exchange of a WebSocket effect for an event, with what it sends; or the text of
/// the error.
pub fn build_websocket_request(ws: &WebsocketEffect, payload: &JsonValue, environment: &RuntimeEnvironment) -> (r: Result<
    (HttpRequest, Option<JsonValue>),
    String,
>)
    ensures
        match r {
            Ok(p) => websocket_request(*ws, payload@, *environment) == Ok::<RequestV, Seq<char>>(
                request_view(p.0),
            ) && sent_of(ws.send, payload@, *environment) == Ok::<(Option<JsonV>, Seq<char>), Seq<char>>(
                (
                    match p.1 {
                        Some(v) => Some(v@),
                        None => None,
                    },
                    request_view(p.0).body->0,
                ),
            ),
            Err(m) => websocket_request(*ws, payload@, *environment) == Err::<RequestV, Seq<char>>(m@),
        },
{
    let template = match base_template_exec(&ws.url, &ws.service, environment) {
        Some(t) => t,
        None => {
            return Err(missing_ws_message(&ws.service));
        },
    };
    let url = match interpolate_string(template.as_str(), payload, environment, "websocket") {
        Ok(u) => u,
        Err(e) => {
            return match e {
                EngineError::RestRequestBuild { message, .. } => Err(ws_build_message(&message)),
                _ => Err(String::new()),
            };
        },
    };
    let (host, port, path) = match ws_url_exec(url.as_str()) {
        Ok(p) => p,
        Err(m) => {
            return Err(m);
        },
    };
    let (value, text) = match build_sent(&ws.send, payload, environment) {
        Ok(p) => p,
        Err(m) => {
            return Err(m);
        },
    };
    let url_chars = chars_of(url.as_str());
    let shown = string_of(&redact_secrets(&url_chars, &environment.secret_refs));
    let headers = vec![
        (String::from_str("Upgrade"), String::from_str("websocket")),
        (String::from_str("Connection"), String::from_str("Upgrade")),
    ];
    let q = HttpRequest {
        operation: String::from_str("websocket"),
        method: String::from_str("GET"),
        host: string_of(&host),
        port,
        path_and_query: string_of(&path),
        headers,
        body: Some(text),
        content_type: String::from_str("text/plain"),
        url: shown,
    };
    proof {
        reveal_strlit("websocket");
        reveal_strlit("GET");
        reveal_strlit("Upgrade");
        reveal_strlit("Connection");
        reveal_strlit("text/plain");
        assert(request_view(q).headers =~= seq![("Upgrade"@, "websocket"@), ("Connection"@, "Upgrade"@)]);
    }
    Ok((q, value))
}

} // verus!
