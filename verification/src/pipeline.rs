//! The middleware pipeline: the fixed stage order, sensitive-header
//! redaction, request-id resolution, the per-request trace record, CORS
//! enforcement, the token-bucket rate gate, and the composed per-request
//! transformation.

use vstd::prelude::*;

use crate::config::{CorsConfig, RateLimitConfig, Settings};
use crate::error::AppError;
use crate::wire::{
    error_body_text, find_header, health_body_text, lemma_find_header_push, render_error_body,
    render_health_body, spec_find_header, str_eq, Header, Request, Response,
};

verus! {

/// The cross-cutting stages, one name each.
#[derive(Clone, Copy, PartialEq, Eq, Structural, Debug)]
pub enum StageKind {
    SensitiveHeaders,
    RequestId,
    Trace,
    Cors,
    RateLimit,
}

/// The stack the settings call for, outermost first. The order is
/// load-bearing: redaction before anything that records, request-id before
/// tracing so the span can correlate, rate limiting last before dispatch.
pub open spec fn spec_pipeline_stages(s: Settings) -> Seq<StageKind> {
    seq![StageKind::SensitiveHeaders, StageKind::RequestId, StageKind::Trace] + (if s.cors
        is Disabled {
        Seq::<StageKind>::empty()
    } else {
        seq![StageKind::Cors]
    }) + (if s.ratelimit is Some {
        seq![StageKind::RateLimit]
    } else {
        Seq::<StageKind>::empty()
    })
}

pub fn pipeline_stages(s: &Settings) -> (r: Vec<StageKind>)
    ensures
        r@ == spec_pipeline_stages(*s),
{
    let mut v: Vec<StageKind> = Vec::new();
    v.push(StageKind::SensitiveHeaders);
    v.push(StageKind::RequestId);
    v.push(StageKind::Trace);
    match &s.cors {
        CorsConfig::Disabled => {},
        _ => {
            v.push(StageKind::Cors);
        },
    }
    if s.ratelimit.is_some() {
        v.push(StageKind::RateLimit);
    }
    proof {
        assert(v@ =~= spec_pipeline_stages(*s));
    }
    v
}

/// The headers whose values must never reach a log or a trace.
pub open spec fn is_sensitive_name(n: Seq<char>) -> bool {
    n == "authorization"@ || n == "cookie"@ || n == "set-cookie"@
}

/// The loggable view of the headers: values of sensitive headers replaced;
/// the handler's own view of the request is left untouched.
pub fn redact_headers(hs: &Vec<Header>) -> (r: Vec<Header>)
    ensures
        r@.len() == hs@.len(),
        forall|i: int|
            0 <= i < hs@.len() ==> r@[i].name@ == hs@[i].name@ && r@[i].value@ == (
            if is_sensitive_name(hs@[i].name@) {
                "[redacted]"@
            } else {
                hs@[i].value@
            }),
{
    let mut out: Vec<Header> = Vec::new();
    let mut i: usize = 0;
    while i < hs.len()
        invariant
            0 <= i <= hs@.len(),
            out@.len() == i,
            forall|j: int|
                0 <= j < i ==> out@[j].name@ == hs@[j].name@ && out@[j].value@ == (
                if is_sensitive_name(hs@[j].name@) {
                    "[redacted]"@
                } else {
                    hs@[j].value@
                }),
        decreases hs@.len() - i,
    {
        let name = hs[i].name.clone();
        let sensitive = str_eq(name.as_str(), "authorization") || str_eq(name.as_str(), "cookie")
            || str_eq(name.as_str(), "set-cookie");
        let value = if sensitive {
            "[redacted]".to_owned()
        } else {
            hs[i].value.clone()
        };
        out.push(Header { name, value });
        i = i + 1;
    }
    out
}

/// A freshly generated request id, in the identifier shape the responses
/// promise: 36 hyphenated lowercase hex characters, so never empty.
pub fn fresh_request_id() -> (r: String)
    ensures
        crate::error::is_uuid_text(r@),
        r@.len() == 36,
{
    crate::error::fresh_uuid_string()
}

/// The id this request goes by: the inbound `x-request-id` propagated
/// unchanged, else the freshly generated one.
pub open spec fn spec_request_id(req_headers: Seq<Header>, fresh: Seq<char>) -> Seq<char> {
    match spec_find_header(req_headers, "x-request-id"@) {
        Some(v) => v,
        None => fresh,
    }
}

pub fn resolve_request_id(headers: &Vec<Header>, fresh: String) -> (r: String)
    ensures
        r@ == spec_request_id(headers@, fresh@),
{
    match find_header(headers, "x-request-id") {
        Some(v) => v.clone(),
        None => fresh,
    }
}

/// One trace record per request: method, route, status and latency in
/// microseconds. Header contents cannot enter it.
#[derive(Clone, Debug)]
pub struct TraceRecord {
    pub method: String,
    pub path: String,
    pub status: u16,
    pub latency_us: u64,
}

pub fn make_trace_record(req: &Request, status: u16, latency_us: u64) -> (r: TraceRecord)
    ensures
        r.method@ == req.method@,
        r.path@ == req.path@,
        r.status == status,
        r.latency_us == latency_us,
{
    TraceRecord { method: req.method.clone(), path: req.path.clone(), status, latency_us }
}

/// Whether `o` stands in the allowlist, by exact match.
pub open spec fn origin_allowed(os: Vec<String>, o: Seq<char>) -> bool {
    exists|i: int| 0 <= i < os@.len() && os@[i]@ == o
}

/// The allow-origin value the policy grants a request with the given
/// `origin` header, if any.
pub open spec fn spec_cors_allow(policy: CorsConfig, origin: Option<Seq<char>>) -> Option<
    Seq<char>,
> {
    match policy {
        CorsConfig::Disabled => None,
        CorsConfig::Any => Some("*"@),
        CorsConfig::AllowList(os) => match origin {
            Some(o) => if origin_allowed(os, o) {
                Some(o)
            } else {
                None
            },
            None => None,
        },
    }
}

pub fn cors_allow_origin(policy: &CorsConfig, origin: Option<&String>) -> (r: Option<String>)
    ensures
        ({
            let ov = match origin {
                Some(o) => Some(o@),
                None => None::<Seq<char>>,
            };
            match r {
                Some(v) => spec_cors_allow(*policy, ov) == Some(v@),
                None => spec_cors_allow(*policy, ov) is None,
            }
        }),
{
    match policy {
        CorsConfig::Disabled => None,
        CorsConfig::Any => Some("*".to_owned()),
        CorsConfig::AllowList(os) => match origin {
            Some(o) => {
                let mut i: usize = 0;
                while i < os.len()
                    invariant
                        *policy == CorsConfig::AllowList(*os),
                        origin == Some(o),
                        0 <= i <= os@.len(),
                        forall|j: int| 0 <= j < i ==> os@[j]@ != o@,
                    decreases os@.len() - i,
                {
                    if str_eq(os[i].as_str(), o.as_str()) {
                        proof {
                            assert(origin_allowed(*os, o@)) by {
                                assert(0 <= (i as int) && (i as int) < os@.len() && os@[i as int]@
                                    == o@);
                            }
                            assert(spec_cors_allow(*policy, Some(o@)) == Some(o@));
                        }
                        return Some(o.clone());
                    }
                    i = i + 1;
                }
                proof {
                    assert(!origin_allowed(*os, o@));
                }
                None
            },
            None => None,
        },
    }
}

/// Token bucket: burst-capacity tokens, refilled at the sustained rate, one
/// token per admitted request.
#[derive(Clone, Copy, PartialEq, Eq, Structural, Debug)]
pub struct TokenBucket {
    pub capacity: u32,
    pub tokens: u32,
}

impl TokenBucket {
    pub open spec fn wf(self) -> bool {
        self.capacity > 0 && self.tokens <= self.capacity
    }

    /// A fresh bucket starts full at the policy's burst capacity.
    pub fn new(rl: &RateLimitConfig) -> (r: TokenBucket)
        requires
            rl.wf(),
        ensures
            r.wf(),
            r.capacity == rl.burst,
            r.tokens == rl.burst,
    {
        TokenBucket { capacity: rl.burst, tokens: rl.burst }
    }

    /// Adds refilled tokens, never past capacity.
    pub fn refill(&mut self, amount: u32)
        requires
            old(self).wf(),
        ensures
            final(self).wf(),
            final(self).capacity == old(self).capacity,
            final(self).tokens as int == (if old(self).tokens + amount <= old(self).capacity {
                old(self).tokens + amount
            } else {
                old(self).capacity as int
            }),
    {
        let headroom = self.capacity - self.tokens;
        if amount <= headroom {
            self.tokens = self.tokens + amount;
        } else {
            self.tokens = self.capacity;
        }
    }

    /// Admits exactly when a token remains; admission takes one token, a
    /// rejection takes nothing.
    pub fn try_admit(&mut self) -> (admitted: bool)
        requires
            old(self).wf(),
        ensures
            final(self).wf(),
            final(self).capacity == old(self).capacity,
            admitted == (old(self).tokens > 0),
            final(self).tokens as int == (if old(self).tokens > 0 {
                old(self).tokens - 1
            } else {
                0int
            }),
    {
        if self.tokens > 0 {
            self.tokens = self.tokens - 1;
            true
        } else {
            false
        }
    }
}

/// The identity the limiter keys on: the forwarded client address when the
/// policy trusts it, else the transport-level peer address.
pub fn client_key(trust_proxy: bool, forwarded: Option<&String>, peer: &str) -> (r: String)
    ensures
        r@ == (match forwarded {
            Some(f) => if trust_proxy {
                f@
            } else {
                peer@
            },
            None => peer@,
        }),
{
    match forwarded {
        Some(f) => if trust_proxy {
            f.clone()
        } else {
            peer.to_owned()
        },
        None => peer.to_owned(),
    }
}

/// The full wire response for an error: status from the taxonomy table,
/// the JSON body, and the content type; the pipeline stamps the request id.
pub fn error_http_response(e: &AppError) -> (r: Response)
    ensures
        r.status == e.spec_status(),
        r.body@ == error_body_text(*e),
        r.headers@.len() == 1,
        r.headers@[0].name@ == "content-type"@,
        r.headers@[0].value@ == "application/json"@,
{
    let resp = e.to_response();
    let body = render_error_body(&resp);
    let mut headers: Vec<Header> = Vec::new();
    headers.push(Header { name: "content-type".to_owned(), value: "application/json".to_owned() });
    Response { status: e.status_code(), headers, body }
}

/// The assembled pipeline: the immutable settings snapshot and the one
/// piece of mutable state in it, the rate limiter's bucket.
pub struct Pipeline {
    pub settings: Settings,
    pub bucket: Option<TokenBucket>,
}

impl Pipeline {
    /// A bucket exists exactly when the settings carry a rate-limit policy,
    /// and then its capacity is that policy's burst.
    pub open spec fn wf(self) -> bool {
        &&& self.settings.wf()
        &&& (match (self.settings.ratelimit, self.bucket) {
            (Some(rl), Some(b)) => b.wf() && b.capacity == rl.burst,
            (None, None) => true,
            _ => false,
        })
    }

    pub fn new(settings: Settings) -> (r: Pipeline)
        requires
            settings.wf(),
        ensures
            r.wf(),
            r.settings == settings,
            r.bucket matches Some(b) ==> b.tokens == b.capacity,
    {
        let bucket = match &settings.ratelimit {
            Some(rl) => Some(TokenBucket::new(rl)),
            None => None,
        };
        Pipeline { settings, bucket }
    }

    /// Carries one request through the stack: resolves the request id,
    /// applies the rate gate, routes, and stamps the response with the CORS
    /// grant and the request id — also on error responses.
    pub fn handle(&mut self, req: &Request, fresh_id: String) -> (r: Response)
        requires
            old(self).wf(),
        ensures
            final(self).wf(),
            final(self).settings == old(self).settings,
            spec_find_header(r.headers@, "x-request-id"@) == Some(
                spec_request_id(req.headers@, fresh_id@),
            ),
            spec_find_header(r.headers@, "access-control-allow-origin"@) == spec_cors_allow(
                old(self).settings.cors,
                spec_find_header(req.headers@, "origin"@),
            ),
            ({
                let limited = old(self).bucket matches Some(b) && b.tokens == 0;
                if limited {
                    r.status == 429
                } else if req.method@ == "GET"@ && req.path@ == "/health"@ {
                    r.status == 200 && r.body@ == health_body_text(old(self).settings.app_env)
                        && spec_find_header(r.headers@, "content-type"@) == Some(
                        "application/json"@,
                    )
                } else {
                    r.status == 404 && r.body@ == error_body_text(AppError::NotFound)
                        && spec_find_header(r.headers@, "content-type"@) == Some(
                        "application/json"@,
                    )
                }
            }),
            (match (old(self).bucket, final(self).bucket) {
                (Some(b0), Some(b1)) => b1.capacity == b0.capacity && b1.tokens as int == (
                if b0.tokens > 0 {
                    b0.tokens - 1
                } else {
                    0int
                }),
                (None, None) => true,
                _ => false,
            }),
    {
        proof {
            reveal_strlit("content-type");
            reveal_strlit("access-control-allow-origin");
            reveal_strlit("x-request-id");
            assert("content-type"@[0] == 'c');
            assert("x-request-id"@[0] == 'x');
            assert("access-control-allow-origin"@[0] == 'a');
            assert("content-type"@ != "x-request-id"@);
            assert("content-type"@ != "access-control-allow-origin"@);
            assert("access-control-allow-origin"@ != "x-request-id"@);
        }
        let limited = match self.bucket {
            Some(b0) => {
                let mut b = b0;
                let admitted = b.try_admit();
                self.bucket = Some(b);
                !admitted
            },
            None => false,
        };
        let mut resp = if limited {
            Response { status: 429, headers: Vec::new(), body: String::new() }
        } else if str_eq(req.method.as_str(), "GET") && str_eq(req.path.as_str(), "/health") {
            let mut headers: Vec<Header> = Vec::new();
            headers.push(
                Header { name: "content-type".to_owned(), value: "application/json".to_owned() },
            );
            let body = render_health_body(self.settings.app_env);
            Response { status: 200, headers, body }
        } else {
            error_http_response(&AppError::NotFound)
        };
        proof {
            let base = resp.headers@;
            if base.len() == 1 {
                assert(base.drop_first() =~= Seq::<Header>::empty());
            }
            assert(spec_find_header(base, "x-request-id"@) is None);
            assert(spec_find_header(base, "access-control-allow-origin"@) is None);
        }
        let allow = cors_allow_origin(&self.settings.cors, find_header(&req.headers, "origin"));
        match allow {
            Some(v) => {
                let h = Header { name: "access-control-allow-origin".to_owned(), value: v };
                proof {
                    lemma_find_header_push(resp.headers@, h, "access-control-allow-origin"@);
                    lemma_find_header_push(resp.headers@, h, "x-request-id"@);
                    lemma_find_header_push(resp.headers@, h, "content-type"@);
                }
                resp.headers.push(h);
            },
            None => {},
        }
        let rid = resolve_request_id(&req.headers, fresh_id);
        let h2 = Header { name: "x-request-id".to_owned(), value: rid };
        proof {
            lemma_find_header_push(resp.headers@, h2, "x-request-id"@);
            lemma_find_header_push(resp.headers@, h2, "access-control-allow-origin"@);
            lemma_find_header_push(resp.headers@, h2, "content-type"@);
        }
        resp.headers.push(h2);
        resp
    }
}

} // verus!
