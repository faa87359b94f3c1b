//! Process configuration: the typed settings snapshot, the validation rules
//! for every setting, and the fail-fast loader that turns raw environment
//! values into a well-formed `Settings`.

use vstd::prelude::*;
use vstd::string::StrSliceExecFns;
use vstd::string::StringExecFns;

use crate::text::{
    dec_val, is_dec_text, lower, lower_is, parse_dec_u16, split_sep, split_sep_str, trim_bounds,
    trim_str, trimmed,
};

verus! {

/// Deployment environment tag.
#[derive(Clone, Copy, PartialEq, Eq, Structural, Debug)]
pub enum AppEnv {
    Development,
    Production,
}

/// Log output format for the operational log.
#[derive(Clone, Copy, PartialEq, Eq, Structural, Debug)]
pub enum LogFormat {
    Pretty,
    Json,
}

/// Numeric form of the listening address: an IPv4 dotted-quad, or an IPv6
/// address as its eight 16-bit groups.
#[derive(Clone, Copy, PartialEq, Eq, Structural, Debug)]
pub enum HostAddr {
    V4(u8, u8, u8, u8),
    V6(u16, u16, u16, u16, u16, u16, u16, u16),
}

/// Cross-origin policy: disabled, any origin, or an explicit allowlist.
#[derive(Clone, Debug)]
pub enum CorsConfig {
    Disabled,
    Any,
    AllowList(Vec<String>),
}

/// Token-bucket rate limiting policy; absent policy means no limiting.
#[derive(Clone, Copy, PartialEq, Eq, Structural, Debug)]
pub struct RateLimitConfig {
    pub rps: u32,
    pub burst: u32,
    pub trust_proxy: bool,
}

/// Immutable settings snapshot, built once at startup.
#[derive(Clone, Debug)]
pub struct Settings {
    pub http_host: HostAddr,
    pub http_port: u16,
    pub app_env: AppEnv,
    pub log_format: LogFormat,
    pub cors: CorsConfig,
    pub ratelimit: Option<RateLimitConfig>,
}

/// A character that may stand in an origin entry: horizontal tab, any
/// visible character, or anything outside ASCII; never the delete control.
pub open spec fn valid_origin_char(c: char) -> bool {
    c == '\t' || (' ' <= c && c != '\u{7f}')
}

pub open spec fn valid_origin(p: Seq<char>) -> bool {
    forall|i: int| 0 <= i < p.len() ==> valid_origin_char(p[i])
}

impl CorsConfig {
    /// An allowlist is nonempty, and never contains the wildcard, an empty
    /// entry, or a forbidden character.
    pub open spec fn wf(self) -> bool {
        match self {
            CorsConfig::AllowList(os) => os@.len() > 0 && forall|i: int|
                0 <= i < os@.len() ==> os@[i]@ != seq!['*'] && os@[i]@.len() > 0 && valid_origin(
                    os@[i]@,
                ),
            _ => true,
        }
    }
}

impl RateLimitConfig {
    /// Sustained rate and burst capacity are both positive.
    pub open spec fn wf(self) -> bool {
        self.rps > 0 && self.burst > 0
    }
}

impl Settings {
    /// Cross-field invariant: production forces the JSON log format; the
    /// optional policies are themselves well-formed.
    pub open spec fn wf(self) -> bool {
        &&& (self.app_env is Production ==> self.log_format is Json)
        &&& self.cors.wf()
        &&& (self.ratelimit matches Some(rl) ==> rl.wf())
    }
}

/// How an environment tag reads: `prod` or `production` after ASCII case
/// folding means production, anything else means development.
pub open spec fn spec_app_env(s: Seq<char>) -> AppEnv {
    if lower(s) == "prod"@ || lower(s) == "production"@ {
        AppEnv::Production
    } else {
        AppEnv::Development
    }
}

pub fn app_env_of(value: &str) -> (r: AppEnv)
    ensures
        r == spec_app_env(value@),
{
    if lower_is(value, "prod") || lower_is(value, "production") {
        AppEnv::Production
    } else {
        AppEnv::Development
    }
}

/// How a log format reads: `json` after ASCII case folding means JSON,
/// anything else means the pretty format.
pub open spec fn spec_log_format(s: Seq<char>) -> LogFormat {
    if lower(s) == "json"@ {
        LogFormat::Json
    } else {
        LogFormat::Pretty
    }
}

pub fn log_format_of(value: &str) -> (r: LogFormat)
    ensures
        r == spec_log_format(value@),
{
    if lower_is(value, "json") {
        LogFormat::Json
    } else {
        LogFormat::Pretty
    }
}

/// How a boolean setting reads, after trimming and ASCII case folding:
/// `true`, `1` and `yes` are true; `false`, `0` and `no` are false;
/// anything else does not parse.
pub open spec fn bool_text(s: Seq<char>) -> Option<bool> {
    let t = lower(trimmed(s));
    if t == "true"@ || t == "1"@ || t == "yes"@ {
        Some(true)
    } else if t == "false"@ || t == "0"@ || t == "no"@ {
        Some(false)
    } else {
        None
    }
}

/// Reads a boolean setting; a value that does not parse is reported against
/// the setting's name.
pub fn parse_bool(name: &str, value: &str) -> (r: Result<bool, String>)
    ensures
        r matches Ok(b) ==> bool_text(value@) == Some(b),
        r is Err <==> bool_text(value@) is None,
        r matches Err(m) ==> m@ == name@ + " must be a boolean value"@,
{
    let t = trim_str(value);
    let ts = t.as_str();
    if lower_is(ts, "true") || lower_is(ts, "1") || lower_is(ts, "yes") {
        Ok(true)
    } else if lower_is(ts, "false") || lower_is(ts, "0") || lower_is(ts, "no") {
        Ok(false)
    } else {
        let mut m = name.to_owned();
        m.append(" must be a boolean value");
        Err(m)
    }
}

/// Reads a strictly positive integer setting; both a value that does not
/// parse and a zero are reported against the setting's name.
pub fn parse_nonzero_u32(name: &str, value: &str) -> (r: Result<u32, String>)
    ensures
        r is Ok <==> is_dec_text(value@) && 0 < dec_val(value@) <= u32::MAX as int,
        r matches Ok(v) ==> v as int == dec_val(value@),
        r matches Err(m) ==> m@ == (if is_dec_text(value@) && dec_val(value@) <= u32::MAX as int {
            name@ + " must be greater than zero"@
        } else {
            name@ + " is invalid: expected an unsigned integer"@
        }),
{
    match crate::text::parse_dec_u32(value) {
        Some(v) => {
            if v > 0 {
                Ok(v)
            } else {
                let mut m = name.to_owned();
                m.append(" must be greater than zero");
                Err(m)
            }
        },
        None => {
            let mut m = name.to_owned();
            m.append(" is invalid: expected an unsigned integer");
            Err(m)
        },
    }
}

/// The origin entries of a comma-separated list: each piece trimmed, empty
/// pieces dropped, order kept.
pub open spec fn entries_of(ps: Seq<Seq<char>>) -> Seq<Seq<char>>
    decreases ps.len(),
{
    if ps.len() == 0 {
        Seq::empty()
    } else {
        let head = trimmed(ps[0]);
        let rest = entries_of(ps.drop_first());
        if head.len() > 0 {
            seq![head] + rest
        } else {
            rest
        }
    }
}

/// The entries the CORS setting text holds.
pub open spec fn spec_entries(t: Seq<char>) -> Seq<Seq<char>> {
    entries_of(split_sep(t, ','))
}

/// An entry that the allowlist rejects: the wildcard, or a forbidden
/// character.
pub open spec fn bad_entry(p: Seq<char>) -> bool {
    p == seq!['*'] || !valid_origin(p)
}

/// Index of the first rejected entry, or the number of entries if none is.
pub open spec fn first_bad(es: Seq<Seq<char>>) -> int
    decreases es.len(),
{
    if es.len() == 0 {
        0
    } else if bad_entry(es[0]) {
        0
    } else {
        1 + first_bad(es.drop_first())
    }
}

proof fn lemma_entries_singleton(x: Seq<char>)
    ensures
        entries_of(seq![x]) == (if trimmed(x).len() > 0 {
            seq![trimmed(x)]
        } else {
            Seq::<Seq<char>>::empty()
        }),
{
    assert(seq![x].drop_first() =~= Seq::<Seq<char>>::empty());
    assert(entries_of(Seq::<Seq<char>>::empty()) =~= Seq::<Seq<char>>::empty());
    assert(entries_of(seq![x].drop_first()) == Seq::<Seq<char>>::empty());
    if trimmed(x).len() > 0 {
        assert(seq![trimmed(x)] + Seq::<Seq<char>>::empty() =~= seq![trimmed(x)]);
    }
}

proof fn lemma_entries_add(a: Seq<Seq<char>>, b: Seq<Seq<char>>)
    ensures
        entries_of(a + b) == entries_of(a) + entries_of(b),
    decreases a.len(),
{
    if a.len() == 0 {
        assert(a + b =~= b);
        assert(entries_of(a) + entries_of(b) =~= entries_of(b));
    } else {
        assert((a + b)[0] == a[0]);
        assert((a + b).drop_first() =~= a.drop_first() + b);
        lemma_entries_add(a.drop_first(), b);
        let head = trimmed(a[0]);
        if head.len() > 0 {
            assert(seq![head] + (entries_of(a.drop_first()) + entries_of(b)) =~= (seq![head]
                + entries_of(a.drop_first())) + entries_of(b));
        }
    }
}

proof fn lemma_entries_take_step(ps: Seq<Seq<char>>, i: int)
    requires
        0 <= i < ps.len(),
    ensures
        entries_of(ps.take(i + 1)) == entries_of(ps.take(i)) + (if trimmed(ps[i]).len() > 0 {
            seq![trimmed(ps[i])]
        } else {
            Seq::<Seq<char>>::empty()
        }),
{
    assert(ps.take(i + 1) =~= ps.take(i) + seq![ps[i]]);
    lemma_entries_add(ps.take(i), seq![ps[i]]);
    lemma_entries_singleton(ps[i]);
    if trimmed(ps[i]).len() == 0 {
        assert(entries_of(ps.take(i)) + Seq::<Seq<char>>::empty() =~= entries_of(ps.take(i)));
    }
}

proof fn lemma_first_bad_at(es: Seq<Seq<char>>, k: int)
    requires
        0 <= k <= es.len(),
        forall|j: int| 0 <= j < k ==> !bad_entry(es[j]),
        k == es.len() || bad_entry(es[k]),
    ensures
        first_bad(es) == k,
    decreases es.len(),
{
    if k > 0 {
        assert(!bad_entry(es[0]));
        assert forall|j: int| 0 <= j < k - 1 implies !bad_entry(es.drop_first()[j]) by {
            assert(es.drop_first()[j] == es[j + 1]);
        }
        lemma_first_bad_at(es.drop_first(), k - 1);
    }
}

/// Reads the CORS setting. An empty or all-empty list disables CORS, a bare
/// `*` allows any origin, and otherwise the entries form the allowlist; a
/// wildcard inside a list, or a forbidden character, rejects the setting.
pub fn parse_cors_origins(value: &str) -> (r: Result<CorsConfig, String>)
    ensures
        ({
            let t = trimmed(value@);
            let es = spec_entries(t);
            let fb = first_bad(es);
            if t == seq!['*'] {
                r == Ok::<CorsConfig, String>(CorsConfig::Any)
            } else if es.len() == 0 {
                r == Ok::<CorsConfig, String>(CorsConfig::Disabled)
            } else if fb < es.len() {
                r matches Err(m) && m@ == (if es[fb] == seq!['*'] {
                    "APP_CORS_ORIGINS cannot include '*' when using an allowlist"@
                } else {
                    "APP_CORS_ORIGINS entry is invalid: origin contains a forbidden character"@
                })
            } else {
                r matches Ok(c) && (c matches CorsConfig::AllowList(os) && os@.map_values(
                    |o: String| o@,
                ) == es)
            }
        }),
        r matches Ok(c) ==> c.wf(),
{
    let (lo, hi) = trim_bounds(value);
    if hi == lo {
        proof {
            assert(trimmed(value@) =~= Seq::<char>::empty());
            assert(split_sep(trimmed(value@), ',') == seq![trimmed(value@)]);
            lemma_entries_singleton(trimmed(value@));
            assert(trimmed(trimmed(value@)).len() == 0);
            assert(spec_entries(trimmed(value@)).len() == 0);
        }
        return Ok(CorsConfig::Disabled);
    }
    if hi - lo == 1 && value.get_char(lo) == '*' {
        proof {
            assert(trimmed(value@) =~= seq!['*']);
        }
        return Ok(CorsConfig::Any);
    }
    proof {
        if hi - lo == 1 {
            assert(trimmed(value@)[0] == value@[lo as int]);
        }
        assert(trimmed(value@) != seq!['*']);
    }
    let parts = split_sep_str(value, ',', lo, hi);
    let ghost pv = parts@.map_values(|p: String| p@);
    proof {
        assert(pv == split_sep(trimmed(value@), ','));
    }
    let mut origins: Vec<String> = Vec::new();
    let mut i: usize = 0;
    while i < parts.len()
        invariant
            trimmed(value@) != seq!['*'],
            pv == parts@.map_values(|p: String| p@),
            pv == split_sep(trimmed(value@), ','),
            0 <= i <= parts@.len(),
            origins@.map_values(|o: String| o@) == entries_of(pv.take(i as int)),
            forall|j: int|
                0 <= j < entries_of(pv.take(i as int)).len() ==> !bad_entry(
                    entries_of(pv.take(i as int))[j],
                ),
        decreases parts@.len() - i,
    {
        proof {
            assert(pv[i as int] == parts@[i as int]@);
            lemma_entries_take_step(pv, i as int);
        }
        let tp = trim_str(parts[i].as_str());
        let m = tp.as_str().unicode_len();
        if m > 0 {
            let ghost e_done = entries_of(pv.take(i as int));
            let ghost k = e_done.len() as int;
            proof {
                assert(pv =~= pv.take(i as int) + pv.skip(i as int));
                lemma_entries_add(pv.take(i as int), pv.skip(i as int));
                assert(pv.skip(i as int) =~= seq![pv[i as int]] + pv.skip(i as int + 1));
                lemma_entries_add(seq![pv[i as int]], pv.skip(i as int + 1));
                lemma_entries_singleton(pv[i as int]);
                assert(entries_of(seq![pv[i as int]]) == seq![tp@]);
                assert(spec_entries(trimmed(value@)) == e_done + (seq![tp@] + entries_of(
                    pv.skip(i as int + 1),
                )));
                assert(spec_entries(trimmed(value@))[k] == tp@);
            }
            let is_wild = m == 1 && tp.as_str().get_char(0) == '*';
            if is_wild {
                proof {
                    assert(tp@ =~= seq!['*']);
                    lemma_first_bad_at(spec_entries(trimmed(value@)), k);
                }
                return Err("APP_CORS_ORIGINS cannot include '*' when using an allowlist".to_owned());
            }
            proof {
                if tp@.len() != 1 {
                    assert(tp@ != seq!['*']);
                } else {
                    assert(tp@[0] != '*');
                    assert(tp@ != seq!['*']);
                }
            }
            let mut idx: usize = 0;
            while idx < m
                invariant
                    m == tp@.len(),
                    0 <= idx <= m,
                    tp@ != seq!['*'],
                    trimmed(value@) != seq!['*'],
                    spec_entries(trimmed(value@))[k] == tp@,
                    0 <= k < spec_entries(trimmed(value@)).len(),
                    forall|j: int| 0 <= j < k ==> !bad_entry(spec_entries(trimmed(value@))[j]),
                    forall|j: int| 0 <= j < idx ==> valid_origin_char(tp@[j]),
                decreases m - idx,
            {
                let c = tp.as_str().get_char(idx);
                if !(c == '\t' || (' ' <= c && c != '\u{7f}')) {
                    proof {
                        assert(!valid_origin(tp@));
                        lemma_first_bad_at(spec_entries(trimmed(value@)), k);
                    }
                    return Err(
                        "APP_CORS_ORIGINS entry is invalid: origin contains a forbidden character".to_owned(),
                    );
                }
                idx = idx + 1;
            }
            proof {
                assert(valid_origin(tp@));
                assert(!bad_entry(tp@));
                assert(e_done =~= entries_of(pv.take(i as int)));
            }
            let ghost old_origins = origins@;
            origins.push(tp);
            proof {
                assert(origins@.map_values(|o: String| o@) =~= old_origins.map_values(
                    |o: String| o@,
                ) + seq![origins@[old_origins.len() as int]@]);
                assert(origins@.map_values(|o: String| o@) == entries_of(pv.take(i as int + 1)));
                assert forall|j: int|
                    0 <= j < entries_of(pv.take(i as int + 1)).len() implies !bad_entry(
                    #[trigger] entries_of(pv.take(i as int + 1))[j],
                ) by {
                    if j < k {
                        assert(entries_of(pv.take(i as int + 1))[j] == entries_of(
                            pv.take(i as int),
                        )[j]);
                    } else {
                        assert(entries_of(pv.take(i as int + 1))[j] == tp@);
                    }
                }
            }
        }
        i = i + 1;
    }
    proof {
        assert(pv.take(parts@.len() as int) =~= pv);
    }
    if origins.len() == 0 {
        proof {
            assert(spec_entries(trimmed(value@)).len() == 0);
        }
        Ok(CorsConfig::Disabled)
    } else {
        let ghost es = spec_entries(trimmed(value@));
        proof {
            lemma_first_bad_at(es, es.len() as int);
            assert forall|j: int| 0 <= j < origins@.len() implies origins@[j]@ != seq!['*']
                && origins@[j]@.len() > 0 && valid_origin(origins@[j]@) by {
                assert(origins@.map_values(|o: String| o@)[j] == origins@[j]@);
                assert(!bad_entry(es[j]));
                assert(es[j] == origins@[j]@);
                if origins@[j]@.len() == 0 {
                    assert(entries_of(pv.take(pv.len() as int))[j].len() > 0) by {
                        lemma_entries_nonempty(pv, j);
                    }
                }
            }
        }
        Ok(CorsConfig::AllowList(origins))
    }
}

proof fn lemma_entries_nonempty(ps: Seq<Seq<char>>, j: int)
    requires
        0 <= j < entries_of(ps).len(),
    ensures
        entries_of(ps)[j].len() > 0,
    decreases ps.len(),
{
    if ps.len() > 0 {
        let head = trimmed(ps[0]);
        if head.len() > 0 {
            if j > 0 {
                lemma_entries_nonempty(ps.drop_first(), j - 1);
            }
        } else {
            lemma_entries_nonempty(ps.drop_first(), j);
        }
    }
}

/// A dotted-quad octet: a nonempty digit string valued at most 255, with no
/// leading zero.
pub open spec fn is_octet_text(s: Seq<char>) -> bool {
    is_dec_text(s) && dec_val(s) <= 255 && (s.len() > 1 ==> s[0] != '0')
}

/// An IPv4 address in dotted-quad form: four octets separated by dots.
pub open spec fn is_ipv4_text(s: Seq<char>) -> bool {
    let ps = split_sep(s, '.');
    ps.len() == 4 && forall|i: int| 0 <= i < 4 ==> is_octet_text(ps[i])
}

/// The address a dotted-quad text denotes.
pub open spec fn spec_ipv4_value(s: Seq<char>) -> HostAddr {
    let ps = split_sep(s, '.');
    HostAddr::V4(
        dec_val(ps[0]) as u8,
        dec_val(ps[1]) as u8,
        dec_val(ps[2]) as u8,
        dec_val(ps[3]) as u8,
    )
}

fn parse_octet(p: &String) -> (r: Option<u8>)
    ensures
        r is Some <==> is_octet_text(p@),
        r matches Some(v) ==> v as int == dec_val(p@),
{
    match parse_dec_u16(p.as_str()) {
        Some(v) => {
            if v > 255 {
                None
            } else if p.as_str().unicode_len() > 1 && p.as_str().get_char(0) == '0' {
                None
            } else {
                Some(v as u8)
            }
        },
        None => {
            proof {
                if is_octet_text(p@) {
                    assert(dec_val(p@) <= 255);
                }
            }
            None
        },
    }
}

pub open spec fn is_hex_digit(c: char) -> bool {
    ('0' <= c && c <= '9') || ('a' <= c && c <= 'f') || ('A' <= c && c <= 'F')
}

pub open spec fn hexd_val(c: char) -> int {
    if '0' <= c && c <= '9' {
        c as int - 48
    } else if 'a' <= c && c <= 'f' {
        c as int - 87
    } else {
        c as int - 55
    }
}

/// Value of a hex digit string read in base sixteen.
pub open spec fn hex_val(p: Seq<char>) -> int
    decreases p.len(),
{
    if p.len() == 0 {
        0
    } else {
        16 * hex_val(p.drop_last()) + hexd_val(p.last())
    }
}

/// One group of an IPv6 address: one to four hex digits.
pub open spec fn hex_group(p: Seq<char>) -> bool {
    1 <= p.len() <= 4 && forall|i: int| 0 <= i < p.len() ==> is_hex_digit(p[i])
}

pub open spec fn all_hex_groups(ps: Seq<Seq<char>>) -> bool {
    forall|i: int| 0 <= i < ps.len() ==> hex_group(#[trigger] ps[i])
}

pub open spec fn pow16(n: int) -> int
    decreases n,
{
    if n <= 0 {
        1
    } else {
        16 * pow16(n - 1)
    }
}

proof fn lemma_hex_val_bound(p: Seq<char>)
    requires
        forall|i: int| 0 <= i < p.len() ==> is_hex_digit(p[i]),
    ensures
        0 <= hex_val(p) < pow16(p.len() as int),
    decreases p.len(),
{
    if p.len() > 0 {
        assert(forall|i: int| 0 <= i < p.drop_last().len() ==> is_hex_digit(p.drop_last()[i]));
        lemma_hex_val_bound(p.drop_last());
        assert(0 <= hexd_val(p.last()) <= 15);
    }
}

proof fn lemma_hex_take_step(p: Seq<char>, j: int)
    requires
        0 <= j < p.len(),
    ensures
        hex_val(p.take(j + 1)) == 16 * hex_val(p.take(j)) + hexd_val(p[j]),
{
    assert(p.take(j + 1).drop_last() =~= p.take(j));
    assert(p.take(j + 1).last() == p[j]);
}

/// Reads one IPv6 group.
fn parse_hex_group(p: &String) -> (r: Option<u16>)
    ensures
        r is Some <==> hex_group(p@),
        r matches Some(v) ==> v as int == hex_val(p@),
{
    let s = p.as_str();
    let m = s.unicode_len();
    if m < 1 || m > 4 {
        return None;
    }
    let mut acc: u32 = 0;
    let mut i: usize = 0;
    proof {
        assert(p@.take(0) =~= Seq::<char>::empty());
    }
    while i < m
        invariant
            s@ == p@,
            m == p@.len(),
            1 <= m <= 4,
            0 <= i <= m,
            forall|j: int| 0 <= j < i ==> is_hex_digit(p@[j]),
            acc as int == hex_val(p@.take(i as int)),
            acc < pow16(i as int),
            pow16(i as int) <= 65536,
        decreases m - i,
    {
        let c = s.get_char(i);
        let d: u32 = if '0' <= c && c <= '9' {
            (c as u32) - ('0' as u32)
        } else if 'a' <= c && c <= 'f' {
            (c as u32) - ('a' as u32) + 10
        } else if 'A' <= c && c <= 'F' {
            (c as u32) - ('A' as u32) + 10
        } else {
            proof {
                assert(!is_hex_digit(p@[i as int]));
            }
            return None;
        };
        proof {
            lemma_hex_take_step(p@, i as int);
            assert(d as int == hexd_val(p@[i as int]));
            assert(pow16(i as int + 1) == 16 * pow16(i as int));
            assert(pow16(0) == 1);
            assert(pow16(1) == 16);
            assert(pow16(2) == 256);
            assert(pow16(3) == 4096);
            assert(pow16(4) == 65536);
            assert(pow16(i as int + 1) <= 65536);
        }
        acc = acc * 16 + d;
        i = i + 1;
    }
    proof {
        assert(p@.take(m as int) =~= p@);
    }
    Some(acc as u16)
}

/// Index of the first empty piece, or the piece count if none is empty.
pub open spec fn first_empty(ps: Seq<Seq<char>>) -> int
    decreases ps.len(),
{
    if ps.len() == 0 {
        0
    } else if ps[0].len() == 0 {
        0
    } else {
        1 + first_empty(ps.drop_first())
    }
}

proof fn lemma_first_empty_at(ps: Seq<Seq<char>>, m: int)
    requires
        0 <= m <= ps.len(),
        forall|j: int| 0 <= j < m ==> ps[j].len() > 0,
        m == ps.len() || ps[m].len() == 0,
    ensures
        first_empty(ps) == m,
    decreases ps.len(),
{
    if ps.len() > 0 && m > 0 {
        assert(forall|j: int| 0 <= j < m - 1 ==> ps.drop_first()[j].len() > 0);
        lemma_first_empty_at(ps.drop_first(), m - 1);
    }
}

/// An IPv6 address in colon-hex form: eight hex groups, or fewer with one
/// `::` standing for at least one zero group; no embedded dotted-quad and
/// no zone suffix.
pub open spec fn is_ipv6_text(s: Seq<char>) -> bool {
    let ps = split_sep(s, ':');
    let n = ps.len() as int;
    ||| (n == 8 && all_hex_groups(ps))
    ||| (n == 3 && ps[0].len() == 0 && ps[1].len() == 0 && ps[2].len() == 0)
    ||| (3 <= n <= 9 && ps[0].len() == 0 && ps[1].len() == 0 && all_hex_groups(ps.skip(2)))
    ||| (3 <= n <= 9 && ps[n - 1].len() == 0 && ps[n - 2].len() == 0 && all_hex_groups(
        ps.take(n - 2),
    ))
    ||| (3 <= n <= 8 && exists|k: int|
        1 <= k <= n - 2 && #[trigger] ps[k].len() == 0 && all_hex_groups(ps.take(k))
            && all_hex_groups(ps.skip(k + 1)))
}

/// The eight groups a valid colon-hex text denotes, zeros filled in for the
/// compressed run.
pub open spec fn spec_ipv6_groups(s: Seq<char>) -> Seq<int> {
    let ps = split_sep(s, ':');
    let n = ps.len() as int;
    if n == 8 && all_hex_groups(ps) {
        Seq::new(8, |i: int| hex_val(ps[i]))
    } else if n == 3 && ps[0].len() == 0 && ps[1].len() == 0 && ps[2].len() == 0 {
        Seq::new(8, |i: int| 0)
    } else if ps[0].len() == 0 && ps[1].len() == 0 {
        Seq::new((8 - (n - 2)) as nat, |i: int| 0) + Seq::new((n - 2) as nat, |i: int| hex_val(ps[i + 2]))
    } else if ps[n - 1].len() == 0 && ps[n - 2].len() == 0 {
        Seq::new((n - 2) as nat, |i: int| hex_val(ps[i])) + Seq::new((8 - (n - 2)) as nat, |i: int| 0)
    } else {
        let k = first_empty(ps);
        Seq::new(k as nat, |i: int| hex_val(ps[i])) + Seq::new((8 - (n - 1)) as nat, |i: int| 0)
            + Seq::new((n - 1 - k) as nat, |i: int| hex_val(ps[k + 1 + i]))
    }
}

pub open spec fn spec_ipv6_value(s: Seq<char>) -> HostAddr {
    let g = spec_ipv6_groups(s);
    HostAddr::V6(
        g[0] as u16,
        g[1] as u16,
        g[2] as u16,
        g[3] as u16,
        g[4] as u16,
        g[5] as u16,
        g[6] as u16,
        g[7] as u16,
    )
}

proof fn lemma_ipv6_refute_nonhex(s: Seq<char>, b: int)
    requires
        ({
            let ps = split_sep(s, ':');
            0 <= b < ps.len() && ps[b].len() > 0 && !hex_group(ps[b])
        }),
    ensures
        !is_ipv6_text(s),
{
    let ps = split_sep(s, ':');
    let n = ps.len() as int;
    assert(!all_hex_groups(ps)) by {
        assert(!hex_group(ps[b]));
    }
    if b >= 2 {
        assert(!all_hex_groups(ps.skip(2))) by {
            assert(ps.skip(2)[b - 2] == ps[b]);
        }
    }
    if b < n - 2 {
        assert(!all_hex_groups(ps.take(n - 2))) by {
            assert(ps.take(n - 2)[b] == ps[b]);
        }
    }
    assert forall|k: int|
        1 <= k <= n - 2 && #[trigger] ps[k].len() == 0 implies !(all_hex_groups(ps.take(k))
        && all_hex_groups(ps.skip(k + 1))) by {
        if b < k {
            assert(ps.take(k)[b] == ps[b]);
        } else {
            assert(b != k);
            assert(ps.skip(k + 1)[b - (k + 1)] == ps[b]);
        }
    }
}

fn push_zeros(groups: &mut Vec<u16>, count: usize)
    requires
        old(groups)@.len() + count <= 8,
    ensures
        final(groups)@.len() == old(groups)@.len() + count,
        forall|j: int| 0 <= j < old(groups)@.len() ==> final(groups)@[j] == old(groups)@[j],
        forall|j: int|
            old(groups)@.len() <= j < final(groups)@.len() ==> final(groups)@[j] == 0u16,
{
    let mut z: usize = 0;
    while z < count
        invariant
            0 <= z <= count,
            groups@.len() == old(groups)@.len() + z,
            forall|j: int| 0 <= j < old(groups)@.len() ==> groups@[j] == old(groups)@[j],
            forall|j: int| old(groups)@.len() <= j < groups@.len() ==> groups@[j] == 0u16,
        decreases count - z,
    {
        groups.push(0);
        z = z + 1;
    }
}

fn push_range(groups: &mut Vec<u16>, vals: &Vec<u16>, from: usize, to: usize)
    requires
        from <= to <= vals@.len(),
        old(groups)@.len() + (to - from) <= 8,
    ensures
        final(groups)@.len() == old(groups)@.len() + (to - from),
        forall|j: int| 0 <= j < old(groups)@.len() ==> final(groups)@[j] == old(groups)@[j],
        forall|j: int|
            old(groups)@.len() <= j < final(groups)@.len() ==> #[trigger] final(groups)@[j]
                == vals@[from + (j - old(groups)@.len())],
{
    let mut a: usize = from;
    while a < to
        invariant
            from <= a <= to <= vals@.len(),
            groups@.len() == old(groups)@.len() + (a - from),
            forall|j: int| 0 <= j < old(groups)@.len() ==> groups@[j] == old(groups)@[j],
            forall|j: int|
                old(groups)@.len() <= j < groups@.len() ==> #[trigger] groups@[j] == vals@[from + (
                j - old(groups)@.len())],
        decreases to - a,
    {
        groups.push(vals[a]);
        a = a + 1;
    }
}

/// Reads the listening address in colon-hex form, accepted exactly when
/// `is_ipv6_text` holds of it.
pub fn parse_ipv6(value: &str) -> (r: Option<HostAddr>)
    ensures
        r is Some <==> is_ipv6_text(value@),
        r matches Some(h) ==> h == spec_ipv6_value(value@),
{
    let n0 = value.unicode_len();
    let parts = split_sep_str(value, ':', 0, n0);
    proof {
        assert(value@.subrange(0, n0 as int) =~= value@);
    }
    let ghost pv = parts@.map_values(|p: String| p@);
    let n = parts.len();
    if n < 3 {
        return None;
    }
    let mut vals: Vec<u16> = Vec::new();
    let mut cnt: usize = 0;
    let mut e1: usize = 0;
    let mut e2: usize = 0;
    let mut e3: usize = 0;
    let mut i: usize = 0;
    while i < n
        invariant
            pv == parts@.map_values(|p: String| p@),
            pv == split_sep(value@, ':'),
            n == pv.len(),
            3 <= n,
            0 <= i <= n,
            vals@.len() == i,
            cnt <= i,
            forall|j: int| 0 <= j < i ==> (#[trigger] pv[j]).len() == 0 || hex_group(pv[j]),
            forall|j: int|
                0 <= j < i && (#[trigger] pv[j]).len() > 0 ==> vals@[j] as int == hex_val(pv[j]),
            cnt == 0 ==> forall|j: int| 0 <= j < i ==> (#[trigger] pv[j]).len() > 0,
            cnt >= 1 ==> 0 <= e1 < i && pv[e1 as int].len() == 0,
            cnt >= 2 ==> e1 < e2 < i && pv[e2 as int].len() == 0,
            cnt >= 3 ==> e2 < e3 < i && pv[e3 as int].len() == 0,
            cnt == 1 ==> forall|j: int| 0 <= j < i && j != e1 ==> (#[trigger] pv[j]).len() > 0,
            cnt == 2 ==> forall|j: int|
                0 <= j < i && j != e1 && j != e2 ==> (#[trigger] pv[j]).len() > 0,
            cnt == 3 ==> forall|j: int|
                0 <= j < i && j != e1 && j != e2 && j != e3 ==> (#[trigger] pv[j]).len() > 0,
        decreases n - i,
    {
        proof {
            assert(pv[i as int] == parts@[i as int]@);
        }
        let m = parts[i].as_str().unicode_len();
        if m == 0 {
            if cnt == 0 {
                e1 = i;
            } else if cnt == 1 {
                e2 = i;
            } else if cnt == 2 {
                e3 = i;
            }
            cnt = cnt + 1;
            vals.push(0);
        } else {
            match parse_hex_group(&parts[i]) {
                Some(v) => {
                    vals.push(v);
                },
                None => {
                    proof {
                        lemma_ipv6_refute_nonhex(value@, i as int);
                    }
                    return None;
                },
            }
        }
        i = i + 1;
    }
    let ghost nn = n as int;
    if cnt == 0 {
        if n == 8 {
            proof {
                assert(all_hex_groups(pv)) by {
                    assert(forall|j: int| 0 <= j < 8 ==> (#[trigger] pv[j]).len() > 0);
                }
                assert(is_ipv6_text(value@));
            }
            let h = HostAddr::V6(
                vals[0],
                vals[1],
                vals[2],
                vals[3],
                vals[4],
                vals[5],
                vals[6],
                vals[7],
            );
            proof {
                let g = spec_ipv6_groups(value@);
                assert(forall|j: int| 0 <= j < 8 ==> g[j] == hex_val(#[trigger] pv[j]));
                assert(h == spec_ipv6_value(value@));
            }
            return Some(h);
        } else {
            proof {
                assert(pv[0].len() > 0);
                assert(pv[1].len() > 0);
                assert(pv[nn - 1].len() > 0);
                assert(pv[nn - 2].len() > 0);
                assert forall|k: int| 1 <= k <= nn - 2 implies (#[trigger] pv[k]).len() > 0 by {}
                assert(!is_ipv6_text(value@));
            }
            return None;
        }
    } else if cnt == 1 {
        if e1 >= 1 && e1 <= n - 2 && n <= 8 {
            let ghost ke = e1 as int;
            let mut groups: Vec<u16> = Vec::new();
            push_range(&mut groups, &vals, 0, e1);
            push_zeros(&mut groups, 8 - (n - 1));
            push_range(&mut groups, &vals, e1 + 1, n);
            proof {
                assert(all_hex_groups(pv.take(ke))) by {
                    assert(forall|j: int|
                        0 <= j < ke ==> #[trigger] pv.take(ke)[j] == pv[j] && pv[j].len() > 0);
                }
                assert(all_hex_groups(pv.skip(ke + 1))) by {
                    assert(forall|j: int|
                        0 <= j < nn - ke - 1 ==> #[trigger] pv.skip(ke + 1)[j] == pv[ke + 1 + j]
                            && pv[ke + 1 + j].len() > 0);
                }
                assert(is_ipv6_text(value@)) by {
                    assert(1 <= ke <= nn - 2 && pv[ke].len() == 0 && all_hex_groups(pv.take(ke))
                        && all_hex_groups(pv.skip(ke + 1)));
                }
                if nn == 8 {
                    assert(!all_hex_groups(pv)) by {
                        assert(!hex_group(pv[ke]));
                    }
                }
                assert(pv[0].len() > 0);
                assert(pv[nn - 1].len() > 0);
                lemma_first_empty_at(pv, ke);
                let g = spec_ipv6_groups(value@);
                assert(g =~= Seq::new(ke as nat, |i: int| hex_val(pv[i])) + Seq::new(
                    (8 - (nn - 1)) as nat,
                    |i: int| 0,
                ) + Seq::new((nn - 1 - ke) as nat, |i: int| hex_val(pv[ke + 1 + i])));
                assert(groups@.len() == 8);
                assert forall|j: int| 0 <= j < 8 implies groups@[j] as int == g[j] by {
                    if j < ke {
                        assert(groups@[j] == vals@[j]);
                        assert(pv[j].len() > 0);
                    } else if j < ke + (8 - (nn - 1)) {
                        assert(groups@[j] == 0u16);
                    } else {
                        assert(groups@[j] == vals@[e1 + 1 + (j - (ke + (8 - (nn - 1))))]);
                        assert(pv[ke + 1 + (j - (ke + (8 - (nn - 1))))].len() > 0);
                    }
                }
            }
            let h = HostAddr::V6(
                groups[0],
                groups[1],
                groups[2],
                groups[3],
                groups[4],
                groups[5],
                groups[6],
                groups[7],
            );
            proof {
                assert(h == spec_ipv6_value(value@));
            }
            return Some(h);
        } else {
            proof {
                let ke = e1 as int;
                if nn == 8 {
                    assert(!all_hex_groups(pv)) by {
                        assert(!hex_group(pv[ke]));
                    }
                }
                if ke != 0 {
                    assert(pv[0].len() > 0);
                } else {
                    assert(pv[1].len() > 0);
                }
                if ke != nn - 1 {
                    assert(pv[nn - 1].len() > 0);
                } else {
                    assert(pv[nn - 2].len() > 0);
                }
                assert forall|k: int|
                    1 <= k <= nn - 2 && #[trigger] pv[k].len() == 0 implies !(3 <= nn <= 8
                    && all_hex_groups(pv.take(k)) && all_hex_groups(pv.skip(k + 1))) by {
                    assert(k == ke);
                }
                assert(!is_ipv6_text(value@));
            }
            return None;
        }
    } else if cnt == 2 {
        let ghost ka = e1 as int;
        let ghost kb = e2 as int;
        if e1 == 0 && e2 == 1 && n <= 9 {
            let mut groups: Vec<u16> = Vec::new();
            push_zeros(&mut groups, 8 - (n - 2));
            push_range(&mut groups, &vals, 2, n);
            proof {
                assert(all_hex_groups(pv.skip(2))) by {
                    assert(forall|j: int|
                        0 <= j < nn - 2 ==> #[trigger] pv.skip(2)[j] == pv[2 + j] && pv[2
                            + j].len() > 0);
                }
                assert(is_ipv6_text(value@));
                if nn == 8 {
                    assert(!all_hex_groups(pv)) by {
                        assert(!hex_group(pv[0]));
                    }
                }
                if nn == 3 {
                    assert(pv[2].len() > 0);
                }
                let g = spec_ipv6_groups(value@);
                assert(g =~= Seq::new((8 - (nn - 2)) as nat, |i: int| 0) + Seq::new(
                    (nn - 2) as nat,
                    |i: int| hex_val(pv[i + 2]),
                ));
                assert(groups@.len() == 8);
                assert forall|j: int| 0 <= j < 8 implies groups@[j] as int == g[j] by {
                    if j < 8 - (nn - 2) {
                        assert(groups@[j] == 0u16);
                    } else {
                        assert(groups@[j] == vals@[2 + (j - (8 - (nn - 2)))]);
                        assert(pv[(j - (8 - (nn - 2))) + 2].len() > 0);
                    }
                }
            }
            let h = HostAddr::V6(
                groups[0],
                groups[1],
                groups[2],
                groups[3],
                groups[4],
                groups[5],
                groups[6],
                groups[7],
            );
            proof {
                assert(h == spec_ipv6_value(value@));
            }
            return Some(h);
        } else if e1 == n - 2 && e2 == n - 1 && n <= 9 {
            let mut groups: Vec<u16> = Vec::new();
            push_range(&mut groups, &vals, 0, n - 2);
            push_zeros(&mut groups, 8 - (n - 2));
            proof {
                assert(all_hex_groups(pv.take(nn - 2))) by {
                    assert(forall|j: int|
                        0 <= j < nn - 2 ==> #[trigger] pv.take(nn - 2)[j] == pv[j] && pv[j].len()
                            > 0);
                }
                assert(is_ipv6_text(value@));
                if nn == 8 {
                    assert(!all_hex_groups(pv)) by {
                        assert(!hex_group(pv[ka]));
                    }
                }
                assert(pv[0].len() > 0);
                let g = spec_ipv6_groups(value@);
                assert(g =~= Seq::new((nn - 2) as nat, |i: int| hex_val(pv[i])) + Seq::new(
                    (8 - (nn - 2)) as nat,
                    |i: int| 0,
                ));
                assert(groups@.len() == 8);
                assert forall|j: int| 0 <= j < 8 implies groups@[j] as int == g[j] by {
                    if j < nn - 2 {
                        assert(groups@[j] == vals@[j]);
                        assert(pv[j].len() > 0);
                    } else {
                        assert(groups@[j] == 0u16);
                    }
                }
            }
            let h = HostAddr::V6(
                groups[0],
                groups[1],
                groups[2],
                groups[3],
                groups[4],
                groups[5],
                groups[6],
                groups[7],
            );
            proof {
                assert(h == spec_ipv6_value(value@));
            }
            return Some(h);
        } else {
            proof {
                if nn == 8 {
                    assert(!all_hex_groups(pv)) by {
                        assert(!hex_group(pv[ka]));
                    }
                }
                if nn == 3 {
                    if ka != 0 {
                        assert(pv[0].len() > 0);
                    } else if kb != 1 {
                        assert(pv[1].len() > 0);
                    } else {
                        assert(pv[2].len() > 0);
                    }
                }
                if !(ka == 0 && kb == 1 && nn <= 9) {
                    if ka != 0 {
                        assert(pv[0].len() > 0);
                    } else if kb != 1 {
                        assert(pv[1].len() > 0);
                    }
                }
                if !(ka == nn - 2 && kb == nn - 1 && nn <= 9) {
                    if kb != nn - 1 {
                        assert(pv[nn - 1].len() > 0);
                    } else if ka != nn - 2 {
                        assert(pv[nn - 2].len() > 0);
                    }
                }
                assert forall|k: int|
                    1 <= k <= nn - 2 && #[trigger] pv[k].len() == 0 implies !(all_hex_groups(
                    pv.take(k),
                ) && all_hex_groups(pv.skip(k + 1))) by {
                    assert(k == ka || k == kb);
                    if k == ka {
                        assert(pv.skip(k + 1)[kb - (k + 1)] == pv[kb]);
                        assert(!hex_group(pv.skip(k + 1)[kb - (k + 1)]));
                    } else {
                        assert(pv.take(k)[ka] == pv[ka]);
                        assert(!hex_group(pv.take(k)[ka]));
                    }
                }
                assert(!is_ipv6_text(value@));
            }
            return None;
        }
    } else if cnt == 3 && n == 3 {
        proof {
            assert(pv[e1 as int].len() == 0 && pv[e2 as int].len() == 0 && pv[e3 as int].len()
                == 0);
            assert(e1 as int == 0 && e2 as int == 1 && e3 as int == 2);
            assert(is_ipv6_text(value@));
            let g = spec_ipv6_groups(value@);
            assert(g =~= Seq::new(8, |i: int| 0int));
        }
        return Some(HostAddr::V6(0, 0, 0, 0, 0, 0, 0, 0));
    } else {
        proof {
            let ka = e1 as int;
            let kb = e2 as int;
            let kc = e3 as int;
            if nn == 8 {
                assert(!all_hex_groups(pv)) by {
                    assert(!hex_group(pv[ka]));
                }
            }
            assert(nn >= 4);
            assert(kc >= 2);
            assert(!all_hex_groups(pv.skip(2))) by {
                assert(pv.skip(2)[kc - 2] == pv[kc]);
            }
            assert(ka <= nn - 3);
            assert(!all_hex_groups(pv.take(nn - 2))) by {
                assert(pv.take(nn - 2)[ka] == pv[ka]);
            }
            assert forall|k: int|
                1 <= k <= nn - 2 && #[trigger] pv[k].len() == 0 implies !(all_hex_groups(
                pv.take(k),
            ) && all_hex_groups(pv.skip(k + 1))) by {
                if ka < k {
                    assert(pv.take(k)[ka] == pv[ka]);
                    assert(!hex_group(pv.take(k)[ka]));
                } else {
                    assert(kb > k);
                    assert(pv.skip(k + 1)[kb - (k + 1)] == pv[kb]);
                    assert(!hex_group(pv.skip(k + 1)[kb - (k + 1)]));
                }
            }
            assert(!is_ipv6_text(value@));
        }
        return None;
    }
}

/// Reads the listening address: an IPv4 dotted-quad, else an IPv6
/// colon-hex text.
pub fn parse_host(value: &str) -> (r: Option<HostAddr>)
    ensures
        r is Some <==> is_ipv4_text(value@) || is_ipv6_text(value@),
        r matches Some(h) ==> h == (if is_ipv4_text(value@) {
            spec_ipv4_value(value@)
        } else {
            spec_ipv6_value(value@)
        }),
{
    match parse_ipv4(value) {
        Some(h) => Some(h),
        None => parse_ipv6(value),
    }
}

/// Reads the listening address as an IPv4 dotted-quad.
pub fn parse_ipv4(value: &str) -> (r: Option<HostAddr>)
    ensures
        r is Some <==> is_ipv4_text(value@),
        r matches Some(h) ==> h == spec_ipv4_value(value@),
{
    let n = value.unicode_len();
    let parts = split_sep_str(value, '.', 0, n);
    proof {
        assert(value@.subrange(0, n as int) =~= value@);
    }
    if parts.len() != 4 {
        return None;
    }
    proof {
        assert(parts@.map_values(|p: String| p@)[0] == parts@[0]@);
        assert(parts@.map_values(|p: String| p@)[1] == parts@[1]@);
        assert(parts@.map_values(|p: String| p@)[2] == parts@[2]@);
        assert(parts@.map_values(|p: String| p@)[3] == parts@[3]@);
    }
    let a = match parse_octet(&parts[0]) {
        Some(v) => v,
        None => { return None; },
    };
    let b = match parse_octet(&parts[1]) {
        Some(v) => v,
        None => { return None; },
    };
    let c = match parse_octet(&parts[2]) {
        Some(v) => v,
        None => { return None; },
    };
    let d = match parse_octet(&parts[3]) {
        Some(v) => v,
        None => { return None; },
    };
    Some(HostAddr::V4(a, b, c, d))
}

impl Settings {
    /// Builds the settings snapshot from the raw environment values, each
    /// `None` standing for an unset variable. Validation is fail-fast: the
    /// first offending setting is reported by name and nothing is built.
    pub fn from_values(
        host: Option<String>,
        port: Option<String>,
        env: Option<String>,
        log_format: Option<String>,
        cors_origins: Option<String>,
        ratelimit_rps: Option<String>,
        ratelimit_burst: Option<String>,
        ratelimit_trust_proxy: Option<String>,
    ) -> (r: Result<Settings, String>)
        ensures
            ({
                let h = match host {
                    Some(s) => s@,
                    None => "127.0.0.1"@,
                };
                let p = match port {
                    Some(s) => s@,
                    None => "3000"@,
                };
                let e = match env {
                    Some(s) => s@,
                    None => "development"@,
                };
                let lf = match log_format {
                    Some(s) => s@,
                    None => "pretty"@,
                };
                let cv = match cors_origins {
                    Some(s) => s@,
                    None => ""@,
                };
                let ces = spec_entries(trimmed(cv));
                let cfb = first_bad(ces);
                let cors_any = trimmed(cv) == seq!['*'];
                let cors_disabled = !cors_any && ces.len() == 0;
                let cors_err = !cors_any && !cors_disabled && cfb < ces.len();
                let rps_ok = match ratelimit_rps {
                    Some(rv) => is_dec_text(rv@) && 0 < dec_val(rv@) <= u32::MAX as int,
                    None => true,
                };
                let burst_ok = match (ratelimit_rps, ratelimit_burst) {
                    (Some(_), Some(bv)) => is_dec_text(bv@) && 0 < dec_val(bv@) <= u32::MAX as int,
                    _ => true,
                };
                let trust_ok = match (ratelimit_rps, ratelimit_trust_proxy) {
                    (Some(_), Some(tv)) => bool_text(tv@) is Some,
                    _ => true,
                };
                if !(is_ipv4_text(h) || is_ipv6_text(h)) {
                    r matches Err(m) && m@ == "HTTP_HOST is invalid: expected an IP address"@
                } else if !(is_dec_text(p) && dec_val(p) <= 65535) {
                    r matches Err(m) && m@
                        == "HTTP_PORT is invalid: expected an unsigned 16-bit integer"@
                } else if cors_err {
                    r matches Err(m) && m@ == (if ces[cfb] == seq!['*'] {
                        "APP_CORS_ORIGINS cannot include '*' when using an allowlist"@
                    } else {
                        "APP_CORS_ORIGINS entry is invalid: origin contains a forbidden character"@
                    })
                } else if !rps_ok {
                    r matches Err(m) && m@ == "APP_RATELIMIT_RPS"@ + (if ratelimit_rps matches Some(
                        rv,
                    ) && is_dec_text(rv@) && dec_val(rv@) <= u32::MAX as int {
                        " must be greater than zero"@
                    } else {
                        " is invalid: expected an unsigned integer"@
                    })
                } else if !burst_ok {
                    r matches Err(m) && m@ == "APP_RATELIMIT_BURST"@ + (if ratelimit_burst matches
                        Some(bv) && is_dec_text(bv@) && dec_val(bv@) <= u32::MAX as int {
                        " must be greater than zero"@
                    } else {
                        " is invalid: expected an unsigned integer"@
                    })
                } else if !trust_ok {
                    r matches Err(m) && m@ == "APP_RATELIMIT_TRUST_PROXY"@
                        + " must be a boolean value"@
                } else {
                    r matches Ok(s) && ({
                        &&& s.wf()
                        &&& s.http_host == (if is_ipv4_text(h) {
                            spec_ipv4_value(h)
                        } else {
                            spec_ipv6_value(h)
                        })
                        &&& s.http_port as int == dec_val(p)
                        &&& s.app_env == spec_app_env(e)
                        &&& s.log_format == (if spec_app_env(e) is Production {
                            LogFormat::Json
                        } else {
                            spec_log_format(lf)
                        })
                        &&& (cors_any ==> s.cors is Any)
                        &&& (cors_disabled ==> s.cors is Disabled)
                        &&& (!cors_any && !cors_disabled ==> (s.cors matches CorsConfig::AllowList(
                            os,
                        ) && os@.map_values(|o: String| o@) == ces))
                        &&& (match ratelimit_rps {
                            None => s.ratelimit is None,
                            Some(rv) => s.ratelimit matches Some(rl) && ({
                                &&& rl.rps as int == dec_val(rv@)
                                &&& rl.burst as int == (match ratelimit_burst {
                                    Some(bv) => dec_val(bv@),
                                    None => 20,
                                })
                                &&& (match ratelimit_trust_proxy {
                                    Some(tv) => bool_text(tv@) == Some(rl.trust_proxy),
                                    None => rl.trust_proxy == false,
                                })
                            }),
                        })
                    })
                }
            }),
    {
        let http_host = match (match &host {
            Some(s) => parse_host(s.as_str()),
            None => parse_host("127.0.0.1"),
        }) {
            Some(hh) => hh,
            None => {
                return Err("HTTP_HOST is invalid: expected an IP address".to_owned());
            },
        };
        let http_port = match (match &port {
            Some(s) => parse_dec_u16(s.as_str()),
            None => parse_dec_u16("3000"),
        }) {
            Some(pp) => pp,
            None => {
                return Err("HTTP_PORT is invalid: expected an unsigned 16-bit integer".to_owned());
            },
        };
        let cors = match (match &cors_origins {
            Some(s) => parse_cors_origins(s.as_str()),
            None => parse_cors_origins(""),
        }) {
            Ok(c) => c,
            Err(m) => {
                return Err(m);
            },
        };
        let ratelimit = match &ratelimit_rps {
            Some(rv) => {
                let rps = match parse_nonzero_u32("APP_RATELIMIT_RPS", rv.as_str()) {
                    Ok(v) => v,
                    Err(m) => {
                        return Err(m);
                    },
                };
                let burst = match &ratelimit_burst {
                    Some(bv) => match parse_nonzero_u32("APP_RATELIMIT_BURST", bv.as_str()) {
                        Ok(v) => v,
                        Err(m) => {
                            return Err(m);
                        },
                    },
                    None => 20,
                };
                let trust_proxy = match &ratelimit_trust_proxy {
                    Some(tv) => match parse_bool("APP_RATELIMIT_TRUST_PROXY", tv.as_str()) {
                        Ok(b) => b,
                        Err(m) => {
                            return Err(m);
                        },
                    },
                    None => false,
                };
                Some(RateLimitConfig { rps, burst, trust_proxy })
            },
            None => None,
        };
        let app_env = match &env {
            Some(s) => app_env_of(s.as_str()),
            None => app_env_of("development"),
        };
        let base_format = match &log_format {
            Some(s) => log_format_of(s.as_str()),
            None => log_format_of("pretty"),
        };
        let final_format = match app_env {
            AppEnv::Production => LogFormat::Json,
            AppEnv::Development => base_format,
        };
        Ok(
            Settings {
                http_host,
                http_port,
                app_env,
                log_format: final_format,
                cors,
                ratelimit,
            },
        )
    }
}

} // verus!
