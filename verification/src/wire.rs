//! The wire model the pipeline works on: requests and responses as plain
//! values, header lookup, and the JSON rendering of the bodies this service
//! ships, with the rendered text pinned down exactly.

use vstd::prelude::*;
use vstd::string::StrSliceExecFns;
use vstd::string::StringExecFns;

use crate::config::AppEnv;
use crate::error::ErrorResponse;

verus! {

/// One HTTP header; names are taken as already lowercased, as the transport
/// layer normalizes them.
#[derive(Clone, Debug)]
pub struct Header {
    pub name: String,
    pub value: String,
}

/// An inbound request, reduced to what the pipeline reads.
#[derive(Clone, Debug)]
pub struct Request {
    pub method: String,
    pub path: String,
    pub headers: Vec<Header>,
}

/// An outbound response.
#[derive(Clone, Debug)]
pub struct Response {
    pub status: u16,
    pub headers: Vec<Header>,
    pub body: String,
}

/// Value of the first header named `name`, if any.
pub open spec fn spec_find_header(hs: Seq<Header>, name: Seq<char>) -> Option<Seq<char>>
    decreases hs.len(),
{
    if hs.len() == 0 {
        None
    } else if hs[0].name@ == name {
        Some(hs[0].value@)
    } else {
        spec_find_header(hs.drop_first(), name)
    }
}

/// Case-sensitive string equality.
pub fn str_eq(a: &str, b: &str) -> (r: bool)
    ensures
        r == (a@ == b@),
{
    let n = a.unicode_len();
    let m = b.unicode_len();
    if n != m {
        return false;
    }
    let mut i: usize = 0;
    while i < n
        invariant
            n == a@.len(),
            n == b@.len(),
            0 <= i <= n,
            forall|j: int| 0 <= j < i ==> a@[j] == b@[j],
        decreases n - i,
    {
        if a.get_char(i) != b.get_char(i) {
            return false;
        }
        i = i + 1;
    }
    proof {
        assert(a@ =~= b@);
    }
    true
}

/// Looks a header up by exact name.
pub fn find_header<'a>(hs: &'a Vec<Header>, name: &str) -> (r: Option<&'a String>)
    ensures
        match r {
            Some(v) => spec_find_header(hs@, name@) == Some(v@),
            None => spec_find_header(hs@, name@) is None,
        },
{
    let mut i: usize = 0;
    proof {
        assert(hs@.skip(0) =~= hs@);
    }
    while i < hs.len()
        invariant
            0 <= i <= hs@.len(),
            spec_find_header(hs@, name@) == spec_find_header(hs@.skip(i as int), name@),
        decreases hs@.len() - i,
    {
        proof {
            assert(hs@.skip(i as int)[0] == hs@[i as int]);
            assert(hs@.skip(i as int).drop_first() =~= hs@.skip(i as int + 1));
        }
        if str_eq(hs[i].name.as_str(), name) {
            return Some(&hs[i].value);
        }
        i = i + 1;
    }
    proof {
        assert(hs@.skip(hs@.len() as int) =~= Seq::<Header>::empty());
    }
    None
}

/// Appending a header leaves every earlier lookup in place; a name not yet
/// present finds the appended value.
pub proof fn lemma_find_header_push(hs: Seq<Header>, h: Header, name: Seq<char>)
    ensures
        spec_find_header(hs.push(h), name) == (match spec_find_header(hs, name) {
            Some(v) => Some(v),
            None => if h.name@ == name {
                Some(h.value@)
            } else {
                None
            },
        }),
    decreases hs.len(),
{
    if hs.len() == 0 {
        assert(hs.push(h)[0] == h);
        assert(hs.push(h).drop_first() =~= Seq::<Header>::empty());
        assert(spec_find_header(Seq::<Header>::empty(), name) is None);
    } else {
        assert(hs.push(h)[0] == hs[0]);
        assert(hs.push(h).drop_first() =~= hs.drop_first().push(h));
        lemma_find_header_push(hs.drop_first(), h, name);
    }
}

/// The JSON text an error renders to, as a function of the error alone.
pub open spec fn error_body_text(e: crate::error::AppError) -> Seq<char> {
    "{\"code\":"@ + json_string(e.spec_code()) + ",\"message\":"@ + json_string(
        e.spec_public_message(),
    ) + ",\"error_id\":"@ + (match e.spec_error_id() {
        Some(id) => json_string(id),
        None => "null"@,
    }) + "}"@
}

/// Hex digit in lowercase.
pub open spec fn hex_char(d: int) -> char {
    if d < 10 {
        (48 + d) as char
    } else {
        (87 + d) as char
    }
}

/// How one character is written inside a JSON string literal.
pub open spec fn esc_char(c: char) -> Seq<char> {
    if c == '"' {
        seq!['\\', '"']
    } else if c == '\\' {
        seq!['\\', '\\']
    } else if c == '\n' {
        seq!['\\', 'n']
    } else if c == '\r' {
        seq!['\\', 'r']
    } else if c == '\t' {
        seq!['\\', 't']
    } else if (c as int) < 32 {
        seq!['\\', 'u', '0', '0', hex_char(c as int / 16), hex_char(c as int % 16)]
    } else {
        seq![c]
    }
}

pub open spec fn json_escaped(s: Seq<char>) -> Seq<char>
    decreases s.len(),
{
    if s.len() == 0 {
        Seq::empty()
    } else {
        esc_char(s[0]) + json_escaped(s.drop_first())
    }
}

/// A JSON string literal: quotes around the escaped text.
pub open spec fn json_string(s: Seq<char>) -> Seq<char> {
    seq!['"'] + json_escaped(s) + seq!['"']
}

proof fn lemma_json_escaped_push(a: Seq<char>, x: char)
    ensures
        json_escaped(a.push(x)) == json_escaped(a) + esc_char(x),
    decreases a.len(),
{
    if a.len() == 0 {
        assert(a.push(x).drop_first() =~= Seq::<char>::empty());
        assert(json_escaped(a) =~= Seq::<char>::empty());
        assert(esc_char(x) + json_escaped(Seq::<char>::empty()) =~= esc_char(x));
        assert(Seq::<char>::empty() + esc_char(x) =~= esc_char(x));
    } else {
        assert(a.push(x)[0] == a[0]);
        assert(a.push(x).drop_first() =~= a.drop_first().push(x));
        lemma_json_escaped_push(a.drop_first(), x);
        assert(esc_char(a[0]) + (json_escaped(a.drop_first()) + esc_char(x)) =~= (esc_char(a[0])
            + json_escaped(a.drop_first())) + esc_char(x));
    }
}

fn hex_str(d: u32) -> (r: &'static str)
    requires
        d < 16,
    ensures
        r@ == seq![hex_char(d as int)],
{
    proof {
        reveal_strlit("0");
        reveal_strlit("1");
        reveal_strlit("2");
        reveal_strlit("3");
        reveal_strlit("4");
        reveal_strlit("5");
        reveal_strlit("6");
        reveal_strlit("7");
        reveal_strlit("8");
        reveal_strlit("9");
        reveal_strlit("a");
        reveal_strlit("b");
        reveal_strlit("c");
        reveal_strlit("d");
        reveal_strlit("e");
        reveal_strlit("f");
    }
    match d {
        0 => "0",
        1 => "1",
        2 => "2",
        3 => "3",
        4 => "4",
        5 => "5",
        6 => "6",
        7 => "7",
        8 => "8",
        9 => "9",
        10 => "a",
        11 => "b",
        12 => "c",
        13 => "d",
        14 => "e",
        _ => "f",
    }
}

/// Appends `s` to `out` as a JSON string literal, escaping as `json_string`
/// says.
pub fn append_json_string(out: &mut String, s: &str)
    ensures
        final(out)@ == old(out)@ + json_string(s@),
{
    out.append("\"");
    proof {
        reveal_strlit("\"");
        assert("\""@ =~= seq!['"']);
    }
    let n = s.unicode_len();
    let mut i: usize = 0;
    proof {
        assert(s@.take(0) =~= Seq::<char>::empty());
        assert(out@ =~= old(out)@ + seq!['"'] + json_escaped(s@.take(0)));
    }
    while i < n
        invariant
            n == s@.len(),
            0 <= i <= n,
            out@ == old(out)@ + seq!['"'] + json_escaped(s@.take(i as int)),
        decreases n - i,
    {
        let c = s.get_char(i);
        proof {
            assert(s@.take(i as int + 1) =~= s@.take(i as int).push(s@[i as int]));
            lemma_json_escaped_push(s@.take(i as int), s@[i as int]);
        }
        if c == '"' {
            out.append("\\\"");
            proof {
                reveal_strlit("\\\"");
                assert("\\\""@ =~= seq!['\\', '"']);
            }
        } else if c == '\\' {
            out.append("\\\\");
            proof {
                reveal_strlit("\\\\");
                assert("\\\\"@ =~= seq!['\\', '\\']);
            }
        } else if c == '\n' {
            out.append("\\n");
            proof {
                reveal_strlit("\\n");
                assert("\\n"@ =~= seq!['\\', 'n']);
            }
        } else if c == '\r' {
            out.append("\\r");
            proof {
                reveal_strlit("\\r");
                assert("\\r"@ =~= seq!['\\', 'r']);
            }
        } else if c == '\t' {
            out.append("\\t");
            proof {
                reveal_strlit("\\t");
                assert("\\t"@ =~= seq!['\\', 't']);
            }
        } else if (c as u32) < 32 {
            out.append("\\u00");
            out.append(hex_str((c as u32) / 16));
            out.append(hex_str((c as u32) % 16));
            proof {
                reveal_strlit("\\u00");
                assert("\\u00"@ =~= seq!['\\', 'u', '0', '0']);
                assert(esc_char(c) =~= "\\u00"@ + seq![hex_char(c as int / 16)] + seq![
                    hex_char(c as int % 16),
                ]);
            }
        } else {
            let piece = s.substring_char(i, i + 1);
            out.append(piece);
            proof {
                assert(piece@ =~= seq![c]);
                assert(esc_char(c) == seq![c]);
            }
        }
        proof {
            assert(out@ =~= old(out)@ + seq!['"'] + json_escaped(s@.take(i as int + 1)));
        }
        i = i + 1;
    }
    out.append("\"");
    proof {
        reveal_strlit("\"");
        assert(s@.take(n as int) =~= s@);
        assert(out@ =~= old(out)@ + json_string(s@));
    }
}

/// The JSON text of the health body under the given environment.
pub open spec fn health_body_text(env: AppEnv) -> Seq<char> {
    "{\"ok\":true,\"env\":\""@ + (if env is Production {
        "production"@
    } else {
        "development"@
    }) + "\"}"@
}

/// Renders the health body.
pub fn render_health_body(env: AppEnv) -> (r: String)
    ensures
        r@ == health_body_text(env),
{
    let mut out = String::new();
    out.append("{\"ok\":true,\"env\":\"");
    match env {
        AppEnv::Production => out.append("production"),
        AppEnv::Development => out.append("development"),
    }
    out.append("\"}");
    proof {
        assert(out@ =~= health_body_text(env));
    }
    out
}

/// The JSON text of an error body: code, message, and the correlation id or
/// `null`.
pub open spec fn error_body_of(b: ErrorResponse) -> Seq<char> {
    "{\"code\":"@ + json_string(b.code@) + ",\"message\":"@ + json_string(b.message@)
        + ",\"error_id\":"@ + (match b.error_id {
        Some(id) => json_string(id@),
        None => "null"@,
    }) + "}"@
}

/// Renders an error body.
pub fn render_error_body(b: &ErrorResponse) -> (r: String)
    ensures
        r@ == error_body_of(*b),
{
    let mut out = String::new();
    out.append("{\"code\":");
    append_json_string(&mut out, b.code.as_str());
    out.append(",\"message\":");
    append_json_string(&mut out, b.message.as_str());
    out.append(",\"error_id\":");
    match &b.error_id {
        Some(id) => append_json_string(&mut out, id.as_str()),
        None => out.append("null"),
    }
    out.append("}");
    proof {
        assert(out@ =~= error_body_of(*b));
    }
    out
}

} // verus!
