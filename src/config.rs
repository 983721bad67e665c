//! Backend settings, resolved once at start-up and shared read-only.
use vstd::prelude::*;
use vstd::string::*;
use crate::error::ProxyError;
use crate::text::same_text;

verus! {

/// The path that the chat-completions endpoint has below the base URL.
pub open spec fn completions_path() -> Seq<char> {
    "/v1/chat/completions"@
}

/// Resolved settings of the gateway.
#[derive(Debug, Clone)]
pub struct Config {
    pub port: u16,
    pub base_url: String,
    pub api_key: Option<String>,
    pub reasoning_model: Option<String>,
    pub completion_model: Option<String>,
    pub debug: bool,
    pub verbose: bool,
}

impl Config {
    /// URL for the backend chat-completions endpoint.
    pub fn chat_completions_url(&self) -> (r: String)
        ensures
            r@ == self.base_url@ + completions_path(),
    {
        let mut url = self.base_url.clone();
        url.append("/v1/chat/completions");
        url
    }
}

/// The port that the gateway listens on when none is set.
pub const DEFAULT_PORT: u16 = 3000;

/// The raw values of the settings, as the environment holds them.
#[derive(Debug, Clone, Default)]
pub struct EnvSettings {
    pub port: Option<String>,
    pub upstream_base_url: Option<String>,
    pub proxy_base_url: Option<String>,
    pub upstream_api_key: Option<String>,
    pub openrouter_api_key: Option<String>,
    pub reasoning_model: Option<String>,
    pub completion_model: Option<String>,
    pub debug: Option<String>,
    pub verbose: Option<String>,
}

/// Whether a character is white space in the Unicode sense.
pub open spec fn is_white(c: char) -> bool {
    ('\u{9}' <= c && c <= '\u{d}') || c == ' ' || c == '\u{85}' || c == '\u{a0}' || c
        == '\u{1680}' || ('\u{2000}' <= c && c <= '\u{200a}') || c == '\u{2028}' || c
        == '\u{2029}' || c == '\u{202f}' || c == '\u{205f}' || c == '\u{3000}'
}

pub open spec fn trim_start(s: Seq<char>) -> Seq<char>
    decreases s.len(),
{
    if s.len() > 0 && is_white(s[0]) {
        trim_start(s.drop_first())
    } else {
        s
    }
}

/// Drops trailing slashes (`slash`) or trailing white space (otherwise).
pub open spec fn trim_end_where(s: Seq<char>, slash: bool) -> Seq<char>
    decreases s.len(),
{
    if s.len() > 0 && (if slash {
        s.last() == '/'
    } else {
        is_white(s.last())
    }) {
        trim_end_where(s.drop_last(), slash)
    } else {
        s
    }
}

/// A base URL without white space around it and without trailing slashes.
pub open spec fn normalized_base(s: Seq<char>) -> Seq<char> {
    trim_end_where(trim_end_where(trim_start(s), false), true)
}

/// Whether a text is an absolute URL.
pub uninterp spec fn is_valid_url(s: Seq<char>) -> bool;

/// Relies on reqwest::Url::parse (the url crate's parser): whether the text is an
/// absolute URL.
#[verifier::external_body]
fn url_parses(s: &str) -> (r: bool)
    ensures
        r == is_valid_url(s@),
{
    reqwest::Url::parse(s).is_ok()
}

/// The lower-case form of a text.
pub uninterp spec fn lower_of(s: Seq<char>) -> Seq<char>;

/// Relies on str::to_lowercase: the lower-case mapping of each character, which
/// depends on the text alone.
#[verifier::external_body]
fn lowercase(s: &str) -> (r: String)
    ensures
        r@ == lower_of(s@),
{
    s.to_lowercase()
}

pub open spec fn truthy(lowered: Seq<char>) -> bool {
    lowered == "1"@ || lowered == "true"@ || lowered == "yes"@
}

/// Whether an already lower-cased value switches a flag on.
pub fn is_truthy(lowered: &str) -> (r: bool)
    ensures
        r == truthy(lowered@),
{
    same_text(lowered, "1") || same_text(lowered, "true") || same_text(lowered, "yes")
}

pub open spec fn flag_of(v: Option<String>) -> bool {
    match v {
        Some(s) => truthy(lower_of(s@)),
        None => false,
    }
}

/// Whether a flag's raw value switches it on: `1`, `true` or `yes`, in any case.
pub fn env_flag(v: &Option<String>) -> (r: bool)
    ensures
        r == flag_of(*v),
{
    match v {
        Some(s) => {
            let l = lowercase(s.as_str());
            is_truthy(l.as_str())
        },
        None => false,
    }
}

pub open spec fn is_digit(c: char) -> bool {
    '0' <= c && c <= '9'
}

pub open spec fn digits_value(d: Seq<char>) -> nat
    decreases d.len(),
{
    if d.len() == 0 {
        0
    } else {
        10 * digits_value(d.drop_last()) + ((d.last() as nat) - ('0' as nat)) as nat
    }
}

/// A port's digits: the text without the `+` that may lead it.
pub open spec fn port_digits(s: Seq<char>) -> Seq<char> {
    if s.len() > 0 && s[0] == '+' {
        s.drop_first()
    } else {
        s
    }
}

pub open spec fn all_digits(d: Seq<char>) -> bool {
    forall|i: int| 0 <= i < d.len() ==> is_digit(#[trigger] d[i])
}

/// The port that a text writes in decimal, with an optional `+`, if it fits in 16 bits.
pub open spec fn port_of(s: Seq<char>) -> Option<u16> {
    let d = port_digits(s);
    if d.len() == 0 || !all_digits(d) {
        None
    } else if digits_value(d) <= 65535 {
        Some(digits_value(d) as u16)
    } else {
        None
    }
}

proof fn lemma_digits_grow(d: Seq<char>, i: int, j: int)
    requires
        0 <= i <= j <= d.len(),
        forall|k: int| 0 <= k < d.len() ==> is_digit(#[trigger] d[k]),
    ensures
        digits_value(d.take(i)) <= digits_value(d.take(j)),
    decreases j - i,
{
    if i < j {
        lemma_digits_grow(d, i, j - 1);
        assert(d.take(j).drop_last() =~= d.take(j - 1));
    }
}

/// Reads a port number the way the standard library reads a `u16`.
pub fn parse_port(s: &str) -> (r: Option<u16>)
    ensures
        r == port_of(s@),
{
    let n = s.unicode_len();
    let mut start: usize = 0;
    if n > 0 && s.get_char(0) == '+' {
        start = 1;
    }
    let ghost d = port_digits(s@);
    assert(d =~= s@.subrange(start as int, n as int));
    if start == n {
        return None;
    }
    let mut i: usize = start;
    let mut acc: u32 = 0;
    while i < n
        invariant
            n == s@.len(),
            start <= i <= n,
            d =~= s@.subrange(start as int, n as int),
            d == port_digits(s@),
            d.len() > 0,
            forall|k: int| 0 <= k < i - start ==> is_digit(#[trigger] d[k]),
            acc as nat == digits_value(d.take(i - start)),
            acc <= 65535,
        decreases n - i,
    {
        let c = s.get_char(i);
        if !('0' <= c && c <= '9') {
            assert(!is_digit(d[i - start]));
            assert(port_of(s@) is None);
            return None;
        }
        assert(d.take(i - start + 1).drop_last() =~= d.take(i - start));
        assert(d.take(i - start + 1).last() == c);
        let v = 10 * acc + ((c as u32) - ('0' as u32));
        assert(v as nat == digits_value(d.take(i - start + 1)));
        if v > 65535 {
            proof {
                if all_digits(d) {
                    lemma_digits_grow(d, i - start + 1, d.len() as int);
                    assert(d.take(d.len() as int) =~= d);
                    assert(digits_value(d) > 65535);
                }
                assert(port_of(s@) is None);
            }
            return None;
        }
        acc = v;
        i = i + 1;
    }
    assert(d.take(n - start) =~= d);
    Some(acc as u16)
}

fn trim_ends(s: &str) -> (r: String)
    ensures
        r@ == normalized_base(s@),
{
    let n = s.unicode_len();
    let mut lo: usize = 0;
    assert(s@.subrange(0, n as int) =~= s@);
    while lo < n && is_white_char(s.get_char(lo))
        invariant
            n == s@.len(),
            lo <= n,
            trim_start(s@) == trim_start(s@.subrange(lo as int, n as int)),
        decreases n - lo,
    {
        assert(s@.subrange(lo as int, n as int).drop_first() =~= s@.subrange(lo + 1, n as int));
        lo = lo + 1;
    }
    let ghost a = s@.subrange(lo as int, n as int);
    let mut hi: usize = n;
    while hi > lo && is_white_char(s.get_char(hi - 1))
        invariant
            n == s@.len(),
            lo <= hi <= n,
            a == s@.subrange(lo as int, n as int),
            trim_end_where(a, false) == trim_end_where(s@.subrange(lo as int, hi as int), false),
        decreases hi - lo,
    {
        assert(s@.subrange(lo as int, hi as int).drop_last() =~= s@.subrange(lo as int, hi - 1));
        hi = hi - 1;
    }
    let ghost b = s@.subrange(lo as int, hi as int);
    while hi > lo && s.get_char(hi - 1) == '/'
        invariant
            n == s@.len(),
            lo <= hi <= n,
            trim_end_where(b, true) == trim_end_where(s@.subrange(lo as int, hi as int), true),
        decreases hi - lo,
    {
        assert(s@.subrange(lo as int, hi as int).drop_last() =~= s@.subrange(lo as int, hi - 1));
        hi = hi - 1;
    }
    String::from_str(s.substring_char(lo, hi))
}

fn is_white_char(c: char) -> (r: bool)
    ensures
        r == is_white(c),
{
    ('\u{9}' <= c && c <= '\u{d}') || c == ' ' || c == '\u{85}' || c == '\u{a0}' || c
        == '\u{1680}' || ('\u{2000}' <= c && c <= '\u{200a}') || c == '\u{2028}' || c
        == '\u{2029}' || c == '\u{202f}' || c == '\u{205f}' || c == '\u{3000}'
}

pub open spec fn base_choice(s: EnvSettings) -> Option<String> {
    if s.upstream_base_url is Some {
        s.upstream_base_url
    } else {
        s.proxy_base_url
    }
}

pub open spec fn opt_seq(o: Option<String>) -> Option<Seq<char>> {
    match o {
        Some(v) => Some(v@),
        None => None,
    }
}

/// The backend key: the first key variable that is set, unless it is empty.
pub open spec fn key_choice(s: EnvSettings) -> Option<Seq<char>> {
    let k = if s.upstream_api_key is Some {
        s.upstream_api_key
    } else {
        s.openrouter_api_key
    };
    match k {
        Some(v) => if v@.len() > 0 {
            Some(v@)
        } else {
            None
        },
        None => None,
    }
}

pub open spec fn port_choice(p: Option<String>) -> u16 {
    match p {
        Some(v) => match port_of(v@) {
            Some(n) => n,
            None => DEFAULT_PORT,
        },
        None => DEFAULT_PORT,
    }
}

pub open spec fn ends_with_version(s: Seq<char>) -> bool {
    s.len() >= 3 && s.subrange(s.len() - 3, s.len() as int) == "/v1"@
}

fn clone_opt_string(o: &Option<String>) -> (r: Option<String>)
    ensures
        opt_seq(r) == opt_seq(*o),
{
    match o {
        Some(v) => Some(v.clone()),
        None => None,
    }
}

impl Config {
    /// Resolves the settings from their raw values. Fails when no base URL is set, or
    /// when the base URL, trimmed of white space and trailing slashes, is not a URL.
    pub fn from_settings(s: &EnvSettings) -> (r: Result<Config, ProxyError>)
        ensures
            r is Ok <==> (base_choice(*s) is Some && is_valid_url(
                normalized_base(base_choice(*s).unwrap()@),
            )),
            base_choice(*s) is None ==> (r is Err && r->Err_0 is Config
                && r->Err_0->Config_0@ == "UPSTREAM_BASE_URL is required"@),
            base_choice(*s) is Some && r is Err ==> (r->Err_0 is Config
                && r->Err_0->Config_0@ == "UPSTREAM_BASE_URL must be a valid URL"@),
            r is Ok ==> ({
                let c = r.unwrap();
                &&& c.port == port_choice(s.port)
                &&& c.base_url@ == normalized_base(base_choice(*s).unwrap()@)
                &&& opt_seq(c.api_key) == key_choice(*s)
                &&& opt_seq(c.reasoning_model) == opt_seq(s.reasoning_model)
                &&& opt_seq(c.completion_model) == opt_seq(s.completion_model)
                &&& c.debug == flag_of(s.debug)
                &&& c.verbose == flag_of(s.verbose)
            }),
    {
        let port = match &s.port {
            Some(p) => match parse_port(p.as_str()) {
                Some(n) => n,
                None => DEFAULT_PORT,
            },
            None => DEFAULT_PORT,
        };
        let raw = if s.upstream_base_url.is_some() {
            &s.upstream_base_url
        } else {
            &s.proxy_base_url
        };
        let raw = match raw {
            Some(v) => v,
            None => {
                return Err(ProxyError::Config(String::from_str("UPSTREAM_BASE_URL is required")));
            },
        };
        let base_url = trim_ends(raw.as_str());
        if !url_parses(base_url.as_str()) {
            return Err(ProxyError::Config(String::from_str("UPSTREAM_BASE_URL must be a valid URL")));
        }
        let key = if s.upstream_api_key.is_some() {
            &s.upstream_api_key
        } else {
            &s.openrouter_api_key
        };
        let api_key = match key {
            Some(k) => if k.as_str().is_empty() {
                None
            } else {
                Some(k.clone())
            },
            None => None,
        };
        let reasoning_model = clone_opt_string(&s.reasoning_model);
        let completion_model = clone_opt_string(&s.completion_model);
        let debug = env_flag(&s.debug);
        let verbose = env_flag(&s.verbose);
        Ok(Config { port, base_url, api_key, reasoning_model, completion_model, debug, verbose })
    }

    /// Whether the base URL already ends in the `/v1` segment that the gateway adds itself.
    pub fn base_url_has_version(&self) -> (r: bool)
        ensures
            r == ends_with_version(self.base_url@),
    {
        proof {
            reveal_strlit("/v1");
        }
        let b = self.base_url.as_str();
        let n = b.unicode_len();
        if n < 3 {
            return false;
        }
        let r = b.get_char(n - 3) == '/' && b.get_char(n - 2) == 'v' && b.get_char(n - 1) == '1';
        let ghost tail = b@.subrange(n - 3, n as int);
        if r {
            assert(tail =~= "/v1"@);
        } else {
            assert(tail != "/v1"@) by {
                if tail == "/v1"@ {
                    assert(tail[0] == '/' && tail[1] == 'v' && tail[2] == '1');
                }
            }
        }
        r
    }
}

} // verus!
